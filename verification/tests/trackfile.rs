use trackstore::track::entry::{TrackPoint, ENTRY_SIZE};
use trackstore::track::error::TrackFileError;
use trackstore::track::header::{Header, HEADER_MAGIC_NUMBER, HEADER_SIZE};
use trackstore::track::trackfile::{
    bytes_of, offset_of, AppendPlan, Patch, Span, TrackFile, MAX_ENTRIES,
};

fn point(ts: i64) -> TrackPoint {
    TrackPoint { ts, lat: 50.0f64.to_bits(), lng: 4.0f64.to_bits(), hdg: 90, gs: 120, alt: 3000 }
}

fn other(ts: i64, alt: i32) -> TrackPoint {
    TrackPoint { ts, lat: 50.0f64.to_bits(), lng: 4.0f64.to_bits(), hdg: 90, gs: 120, alt }
}

fn fields(p: &TrackPoint) -> (i64, u64, u64, i32, i32, i32) {
    (p.ts, p.lat, p.lng, p.hdg, p.gs, p.alt)
}

/// A positional write on a file held in memory.
fn write_at(file: &mut Vec<u8>, patch: &Patch) {
    let offset = patch.offset as usize;
    let end = offset + patch.data.len();
    if file.len() < end {
        file.resize(end, 0);
    }
    file[offset..end].copy_from_slice(&patch.data);
}

/// A positional read on a file held in memory: short at the end of the file.
fn read_at(file: &[u8], span: Option<Span>) -> Vec<u8> {
    match span {
        None => Vec::new(),
        Some(s) => {
            let from = (s.offset as usize).min(file.len());
            let to = ((s.offset + s.len) as usize).min(file.len());
            file[from..to].to_vec()
        }
    }
}

fn perform(file: &mut Vec<u8>, plan: &AppendPlan) {
    write_at(file, &plan.record);
    if let Some(h) = &plan.header {
        write_at(file, h);
    }
}

fn open(file: &[u8]) -> Result<TrackFile, TrackFileError> {
    let head = &file[..file.len().min(HEADER_SIZE)];
    TrackFile::open("t.bin", head, file.len() as u64)
}

/// One append as a host performs it: open, read the tail, decide, write.
fn append(file: &mut Vec<u8>, p: &TrackPoint, now: u64) -> Result<bool, TrackFileError> {
    let mut tf = open(file)?;
    let tail = read_at(file, tf.tail());
    assert!(tf.has_room());
    let plan = tf.append_at(p, &tail, now)?;
    perform(file, &plan);
    Ok(plan.appended())
}

fn read_all(file: &[u8]) -> Result<Vec<TrackPoint>, TrackFileError> {
    let tf = open(file)?;
    TrackFile::decode_entries(&read_at(file, tf.read_all()))
}

fn new_file(now: u64) -> Vec<u8> {
    let (tf, image) = TrackFile::create_at("t.bin", now);
    assert_eq!(tf.count(), 0);
    image
}

#[test]
fn sizes_and_limits() {
    assert_eq!(TrackFile::header_size(), 32);
    assert_eq!(TrackFile::entry_size(), 40);
    assert_eq!(MAX_ENTRIES, (u64::MAX - 32) / 40);
    assert_eq!(offset_of(0), 32);
    assert_eq!(offset_of(3), 152);
    assert_eq!(offset_of(MAX_ENTRIES), 32 + MAX_ENTRIES * 40);
    assert_eq!(bytes_of(2), 80);
}

#[test]
fn create_gives_an_empty_file() {
    let (tf, image) = TrackFile::create_at("a/b.bin", 77);
    assert_eq!(tf.path(), "a/b.bin");
    assert_eq!(tf.count(), 0);
    assert_eq!(image.len(), 32);
    let h = Header::decode(&image).unwrap();
    assert_eq!((h.magic, h.version, h.updated_at, h.count), (HEADER_MAGIC_NUMBER, 1, 77, 0));
    let h = tf.get_header();
    assert_eq!((h.magic, h.version, h.updated_at, h.count), (HEADER_MAGIC_NUMBER, 1, 77, 0));
    assert_eq!(tf.read_all(), None);
    assert_eq!(tf.tail(), None);
    assert!(read_all(&image).unwrap().is_empty());
}

#[test]
fn create_stamps_with_the_system_clock() {
    let (tf, image) = TrackFile::create("x.bin");
    let h = Header::decode(&image).unwrap();
    assert!(h.check_magic());
    assert_eq!(h.count, 0);
    assert!(h.updated_at > 1_577_836_800_000);
    assert_eq!(tf.get_header().updated_at, h.updated_at);
}

#[test]
fn open_checks_the_magic_number_first() {
    let mut file = new_file(1);
    file[0] ^= 1;
    assert!(matches!(open(&file), Err(TrackFileError::InvalidMagicNumber)));
    // a wrong length too: the magic number is still what is reported
    file.push(0);
    assert!(matches!(open(&file), Err(TrackFileError::InvalidMagicNumber)));
    assert!(matches!(open(&[]), Err(TrackFileError::InvalidMagicNumber)));
    assert!(matches!(open(&[0u8; 100]), Err(TrackFileError::InvalidMagicNumber)));
}

#[test]
fn open_checks_the_length_against_the_count() {
    let mut file = new_file(1);
    append(&mut file, &point(1000), 2).unwrap();
    assert_eq!(file.len(), 72);
    file.push(0);
    match open(&file) {
        Err(TrackFileError::InvalidFileLength(expected, actual)) => {
            assert_eq!(expected, 72);
            assert_eq!(actual, 73);
        }
        other => panic!("unexpected: {:?}", other),
    }
}

#[test]
fn truncating_by_one_byte_is_detected() {
    // a file of only a header, and files of one and of three records
    let mut files = vec![new_file(1)];
    let mut one = new_file(1);
    append(&mut one, &point(1000), 2).unwrap();
    files.push(one);
    let mut three = new_file(1);
    for (i, ts) in [1000, 2000, 3000].iter().enumerate() {
        append(&mut three, &other(*ts, i as i32), 2).unwrap();
    }
    files.push(three);
    for file in files.iter_mut() {
        let full = file.len();
        assert!(open(file).is_ok());
        file.pop();
        match open(file) {
            Err(TrackFileError::InvalidFileLength(expected, actual)) => {
                assert_eq!(expected, full as u128);
                assert_eq!(actual, full as u64 - 1);
            }
            other => panic!("unexpected: {:?}", other),
        }
    }
}

#[test]
fn a_record_without_its_header_update_is_detected() {
    // the record was written, the header was not: the crash window
    let mut file = new_file(1);
    append(&mut file, &point(1000), 2).unwrap();
    let mut tf = open(&file).unwrap();
    let tail = read_at(&file, tf.tail());
    let plan = tf.append_at(&other(2000, 1), &tail, 3).unwrap();
    write_at(&mut file, &plan.record);
    match open(&file) {
        Err(TrackFileError::InvalidFileLength(expected, actual)) => {
            assert_eq!(expected, 72);
            assert_eq!(actual, 112);
        }
        other => panic!("unexpected: {:?}", other),
    }
    write_at(&mut file, plan.header.as_ref().unwrap());
    assert_eq!(open(&file).unwrap().count(), 2);
}

#[test]
fn a_corrupt_count_gives_a_length_beyond_64_bits() {
    let h = Header { magic: HEADER_MAGIC_NUMBER, version: 1, updated_at: 0, count: u64::MAX };
    let file = h.encode();
    match open(&file) {
        Err(TrackFileError::InvalidFileLength(expected, actual)) => {
            assert_eq!(expected, 32 + (u64::MAX as u128) * 40);
            assert_eq!(actual, 32);
        }
        other => panic!("unexpected: {:?}", other),
    }
}

#[test]
fn open_or_create_by_what_was_found() {
    let (tf, image) = TrackFile::new("n.bin", None).unwrap();
    assert_eq!(tf.path(), "n.bin");
    assert_eq!(tf.count(), 0);
    let image = image.unwrap();
    assert_eq!(image.len(), 32);
    assert!(Header::decode(&image).unwrap().check_magic());

    let mut file = new_file(9);
    append(&mut file, &point(5), 10).unwrap();
    let (tf, image) = TrackFile::new("n.bin", Some((&file[..32], file.len() as u64))).unwrap();
    assert!(image.is_none());
    assert_eq!(tf.count(), 1);
    assert_eq!(tf.get_header().updated_at, 10);

    assert!(matches!(
        TrackFile::new("n.bin", Some((&file[..32], 71))),
        Err(TrackFileError::InvalidFileLength(72, 71))
    ));
    assert!(matches!(
        TrackFile::new("n.bin", Some((&[0u8; 32][..], 32))),
        Err(TrackFileError::InvalidMagicNumber)
    ));
}

#[test]
fn first_append_writes_record_then_header() {
    let (mut tf, image) = TrackFile::create_at("t.bin", 1);
    let p = point(1000);
    let plan = tf.append_at(&p, &[], 55).unwrap();
    assert!(plan.appended());
    assert_eq!(plan.record.offset, 32);
    assert_eq!(plan.record.data, p.encode());
    let header = plan.header.as_ref().unwrap();
    assert_eq!(header.offset, 0);
    let h = Header::decode(&header.data).unwrap();
    assert_eq!((h.magic, h.version, h.updated_at, h.count), (HEADER_MAGIC_NUMBER, 1, 55, 1));
    assert_eq!(tf.count(), 1);
    assert_eq!(tf.get_header().updated_at, 55);
    let mut file = image;
    perform(&mut file, &plan);
    assert_eq!(file.len(), HEADER_SIZE + ENTRY_SIZE);
    let back = read_all(&file).unwrap();
    assert_eq!(back.len(), 1);
    assert_eq!(fields(&back[0]), fields(&p));
}

#[test]
fn append_with_the_system_clock() {
    let (mut tf, image) = TrackFile::create_at("t.bin", 1);
    let plan = tf.append(&point(1000), &[]).unwrap();
    assert!(plan.appended());
    let mut file = image;
    perform(&mut file, &plan);
    let tf = open(&file).unwrap();
    assert_eq!(tf.count(), 1);
    assert!(tf.get_header().updated_at > 1_577_836_800_000);
}

#[test]
fn an_older_sample_is_refused() {
    let mut file = new_file(1);
    append(&mut file, &point(1000), 2).unwrap();
    let before = file.clone();
    match append(&mut file, &point(999), 3) {
        Err(TrackFileError::SequenceError(ts)) => assert_eq!(ts, 999),
        other => panic!("unexpected: {:?}", other),
    }
    assert_eq!(file, before);
    // whatever its other fields are
    assert!(matches!(
        append(&mut file, &other(-1, 7), 3),
        Err(TrackFileError::SequenceError(-1))
    ));
    assert_eq!(file, before);
}

#[test]
fn an_older_sample_is_refused_even_if_it_would_collapse() {
    let mut file = new_file(1);
    append(&mut file, &point(1000), 2).unwrap();
    append(&mut file, &point(2000), 2).unwrap();
    assert!(matches!(
        append(&mut file, &point(1500), 3),
        Err(TrackFileError::SequenceError(1500))
    ));
    assert_eq!(read_all(&file).unwrap().len(), 2);
    assert_eq!(read_all(&file).unwrap()[1].ts, 2000);
}

#[test]
fn an_equal_timestamp_is_accepted() {
    let mut file = new_file(1);
    assert!(append(&mut file, &other(1000, 1), 2).unwrap());
    assert!(append(&mut file, &other(1000, 2), 2).unwrap());
    assert!(append(&mut file, &other(1000, 3), 2).unwrap());
    let back = read_all(&file).unwrap();
    assert_eq!(back.iter().map(|p| (p.ts, p.alt)).collect::<Vec<_>>(), vec![
        (1000, 1),
        (1000, 2),
        (1000, 3)
    ]);
}

#[test]
fn three_equal_samples_collapse_to_two() {
    let mut file = new_file(1);
    assert!(append(&mut file, &point(1000), 10).unwrap());
    assert!(append(&mut file, &point(2000), 20).unwrap());
    let before = file.clone();
    assert!(!append(&mut file, &point(3000), 30).unwrap());
    let tf = open(&file).unwrap();
    assert_eq!(tf.count(), 2);
    // the header stays as it was
    assert_eq!(tf.get_header().updated_at, 20);
    assert_eq!(&file[..72], &before[..72]);
    assert_eq!(file.len(), before.len());
    let back = read_all(&file).unwrap();
    assert_eq!(back.len(), 2);
    assert_eq!(back[0].ts, 1000);
    assert_eq!(back[1].ts, 3000);
    // and a fourth and fifth collapse too
    assert!(!append(&mut file, &point(4000), 40).unwrap());
    assert!(!append(&mut file, &point(4000), 40).unwrap());
    let back = read_all(&file).unwrap();
    assert_eq!(back.iter().map(|p| p.ts).collect::<Vec<_>>(), vec![1000, 4000]);
}

#[test]
fn collapse_plan_overwrites_the_last_record() {
    let mut file = new_file(1);
    append(&mut file, &point(1000), 10).unwrap();
    append(&mut file, &point(2000), 20).unwrap();
    let mut tf = open(&file).unwrap();
    assert_eq!(tf.tail(), Some(Span { offset: 32, len: 80 }));
    let tail = read_at(&file, tf.tail());
    let plan = tf.append_at(&point(3000), &tail, 30).unwrap();
    assert!(!plan.appended());
    assert!(plan.header.is_none());
    assert_eq!(plan.record.offset, 72);
    assert_eq!(plan.record.data, point(3000).encode());
    assert_eq!(tf.count(), 2);
}

#[test]
fn two_equal_samples_do_not_collapse() {
    // with one record in the file the rule needs one more
    let mut file = new_file(1);
    assert!(append(&mut file, &point(1000), 2).unwrap());
    assert!(append(&mut file, &point(2000), 2).unwrap());
    assert_eq!(open(&file).unwrap().count(), 2);
}

#[test]
fn a_different_sample_ends_a_run() {
    let mut file = new_file(1);
    append(&mut file, &point(1000), 2).unwrap();
    append(&mut file, &point(2000), 2).unwrap();
    // differs from the two before
    assert!(append(&mut file, &other(3000, 1), 2).unwrap());
    // equal to the last but not to the one before it
    assert!(append(&mut file, &other(4000, 1), 2).unwrap());
    // now the last two are equal, and so is this one
    assert!(!append(&mut file, &other(5000, 1), 2).unwrap());
    // the last two are equal to each other but not to this one
    assert!(append(&mut file, &point(6000), 2).unwrap());
    let back = read_all(&file).unwrap();
    assert_eq!(back.iter().map(|p| (p.ts, p.alt)).collect::<Vec<_>>(), vec![
        (1000, 3000),
        (2000, 3000),
        (3000, 1),
        (5000, 1),
        (6000, 3000)
    ]);
}

#[test]
fn samples_that_are_no_number_never_collapse() {
    let mut p = point(1000);
    p.lat = f64::NAN.to_bits();
    let mut file = new_file(1);
    for ts in [1000, 2000, 3000] {
        p.ts = ts;
        assert!(append(&mut file, &p, 2).unwrap());
    }
    assert_eq!(open(&file).unwrap().count(), 3);
}

#[test]
fn the_two_zeros_collapse() {
    let mut file = new_file(1);
    let mut p = point(1000);
    p.lng = 0.0f64.to_bits();
    append(&mut file, &p, 2).unwrap();
    p.ts = 2000;
    p.lng = (-0.0f64).to_bits();
    append(&mut file, &p, 2).unwrap();
    p.ts = 3000;
    p.lng = 0.0f64.to_bits();
    assert!(!append(&mut file, &p, 2).unwrap());
    let back = read_all(&file).unwrap();
    assert_eq!(back.len(), 2);
    assert_eq!(back[1].ts, 3000);
    assert_eq!(back[1].lng, 0.0f64.to_bits());
}

#[test]
fn the_length_follows_the_count_after_every_append() {
    let mut file = new_file(1);
    let samples = [
        point(10),
        point(20),
        point(30),
        other(30, 1),
        other(40, 1),
        other(50, 1),
        other(50, 2),
        point(60),
        point(70),
        point(80),
        point(90),
    ];
    for p in samples.iter() {
        append(&mut file, p, 5).unwrap();
        let count = open(&file).unwrap().count() as usize;
        assert_eq!(file.len(), HEADER_SIZE + count * ENTRY_SIZE);
    }
    let back = read_all(&file).unwrap();
    assert_eq!(back.iter().map(|p| (p.ts, p.alt)).collect::<Vec<_>>(), vec![
        (10, 3000),
        (30, 3000),
        (30, 1),
        (50, 1),
        (50, 2),
        (60, 3000),
        (90, 3000)
    ]);
}

#[test]
fn samples_without_runs_are_read_back_as_written() {
    let mut file = new_file(1);
    let samples: Vec<TrackPoint> = (0..25).map(|i| other(i * 10, (i % 2) as i32)).collect();
    for p in samples.iter() {
        assert!(append(&mut file, p, 5).unwrap());
    }
    let back = read_all(&file).unwrap();
    assert_eq!(back.len(), 25);
    for (a, b) in back.iter().zip(samples.iter()) {
        assert_eq!(fields(a), fields(b));
    }
}

#[test]
fn a_short_tail_is_refused() {
    let mut file = new_file(1);
    append(&mut file, &point(1000), 2).unwrap();
    append(&mut file, &other(2000, 1), 2).unwrap();
    let mut tf = open(&file).unwrap();
    let tail = read_at(&file, tf.tail());
    match tf.append_at(&point(3000), &tail[..79], 3) {
        Err(TrackFileError::InsufficientDataLength(what, n)) => {
            assert_eq!(what, "track entry");
            assert_eq!(n, 79);
        }
        other => panic!("unexpected: {:?}", other),
    }
    assert_eq!(tf.count(), 2);
    assert!(matches!(
        tf.append_at(&point(3000), &[], 3),
        Err(TrackFileError::InsufficientDataLength(_, 0))
    ));
}

#[test]
fn read_at_names_one_record() {
    let mut file = new_file(1);
    for i in 0..3 {
        append(&mut file, &other(i * 1000, i as i32), 2).unwrap();
    }
    let tf = open(&file).unwrap();
    assert_eq!(tf.read_at(0).unwrap(), Span { offset: 32, len: 40 });
    assert_eq!(tf.read_at(2).unwrap(), Span { offset: 112, len: 40 });
    let bytes = read_at(&file, Some(tf.read_at(1).unwrap()));
    let p = TrackPoint::decode(&bytes).unwrap();
    assert_eq!((p.ts, p.alt), (1000, 1));
}

#[test]
fn read_at_past_the_end_is_an_index_error() {
    let mut file = new_file(1);
    append(&mut file, &point(1), 2).unwrap();
    let tf = open(&file).unwrap();
    assert!(matches!(tf.read_at(1), Err(TrackFileError::IndexError(1))));
    assert!(matches!(tf.read_at(usize::MAX), Err(TrackFileError::IndexError(usize::MAX))));
    let empty = new_file(1);
    assert!(matches!(open(&empty).unwrap().read_at(0), Err(TrackFileError::IndexError(0))));
}

#[test]
fn read_range_is_clamped() {
    let mut file = new_file(1);
    for i in 0..5 {
        append(&mut file, &other(i * 1000, i as i32), 2).unwrap();
    }
    let tf = open(&file).unwrap();
    assert_eq!(tf.read_multiple_at(0, 5), Some(Span { offset: 32, len: 200 }));
    assert_eq!(tf.read_multiple_at(1, 2), Some(Span { offset: 72, len: 80 }));
    assert_eq!(tf.read_multiple_at(3, 10), Some(Span { offset: 152, len: 80 }));
    assert_eq!(tf.read_multiple_at(4, usize::MAX), Some(Span { offset: 192, len: 40 }));
    assert_eq!(tf.read_multiple_at(5, 1), None);
    assert_eq!(tf.read_multiple_at(6, 1), None);
    assert_eq!(tf.read_multiple_at(usize::MAX, usize::MAX), None);
    assert_eq!(tf.read_multiple_at(2, 0), None);
    assert_eq!(tf.read_all(), tf.read_multiple_at(0, 5));
    assert_eq!(tf.tail(), tf.read_multiple_at(3, 2));

    let got = TrackFile::decode_entries(&read_at(&file, tf.read_multiple_at(3, 10))).unwrap();
    assert_eq!(got.iter().map(|p| p.alt).collect::<Vec<_>>(), vec![3, 4]);
    let got = TrackFile::decode_entries(&read_at(&file, tf.read_multiple_at(5, 1))).unwrap();
    assert!(got.is_empty());
}

#[test]
fn decode_entries_wants_whole_records() {
    let mut block = point(1).encode();
    block.extend(point(2).encode());
    let got = TrackFile::decode_entries(&block).unwrap();
    assert_eq!(got.iter().map(|p| p.ts).collect::<Vec<_>>(), vec![1, 2]);
    block.extend([1u8, 2, 3]);
    match TrackFile::decode_entries(&block) {
        Err(TrackFileError::InsufficientDataLength(what, n)) => {
            assert_eq!(what, "track entry");
            assert_eq!(n, 3);
        }
        other => panic!("unexpected: {:?}", other),
    }
    assert!(TrackFile::decode_entries(&[]).unwrap().is_empty());
}

#[test]
fn room_for_one_more() {
    let h = Header { magic: HEADER_MAGIC_NUMBER, version: 1, updated_at: 0, count: MAX_ENTRIES };
    let tf = TrackFile::open("f.bin", &h.encode(), 32 + MAX_ENTRIES * 40).unwrap();
    assert!(!tf.has_room());
    assert_eq!(tf.read_all(), Some(Span { offset: 32, len: MAX_ENTRIES * 40 }));
    let h = Header { count: MAX_ENTRIES - 1, ..h };
    let tf = TrackFile::open("f.bin", &h.encode(), 32 + (MAX_ENTRIES - 1) * 40).unwrap();
    assert!(tf.has_room());
}

#[test]
fn destroy_names_the_file_to_remove() {
    let (tf, _) = TrackFile::create_at("dir/t.bin", 1);
    assert_eq!(tf.destroy(), "dir/t.bin");
}
