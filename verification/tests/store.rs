use std::collections::HashMap;

use splines::{Interpolation, Key, Spline};
use trackstore::config::TrackConfig;
use trackstore::track::entry::{TrackPoint, TrackPointCompact};
use trackstore::track::error::{MetaFileError, TrackFileError};
use trackstore::track::header::Header;
use trackstore::track::interpolate::{
    interpolate_track, sample_times, whole_second, Sample, FIRST_SECOND, STEP_MS,
};
use trackstore::track::metafile::{MetaBlock, MetaFile};
use trackstore::track::compact::{compact, expand};
use trackstore::track::shard::{directory_for, directory_in, NESTING_LEVEL, SUBKEY_LENGTH};
use trackstore::track::store::{
    inspect_trackfiles_meta, setup_meta, with_counts, MetaSetup, Opening, StoreAppend,
    TrackStore,
};
use trackstore::track::trackfile::{Patch, Span, TrackFile, MAX_FILE_LEN};

fn point(ts: i64) -> TrackPoint {
    TrackPoint { ts, lat: 50.0f64.to_bits(), lng: 4.0f64.to_bits(), hdg: 90, gs: 120, alt: 3000 }
}

fn plain(ts: i64, lat: f64, lng: f64, hdg: i32, gs: i32, alt: i32) -> TrackPoint {
    TrackPoint { ts, lat: lat.to_bits(), lng: lng.to_bits(), hdg, gs, alt }
}

fn fields(p: &TrackPoint) -> (i64, u64, u64, i32, i32, i32) {
    (p.ts, p.lat, p.lng, p.hdg, p.gs, p.alt)
}

fn compact_fields(
    c: &TrackPointCompact,
) -> (i64, Option<u64>, Option<u64>, Option<i32>, Option<i32>, Option<i32>) {
    (c.ts, c.lat, c.lng, c.hdg, c.gs, c.alt)
}

fn store_at(folder: &str) -> TrackStore {
    let cfg = TrackConfig { folder: folder.to_string() };
    let (metafile, _) = MetaFile::create_at(&TrackStore::meta_path(folder), 0);
    TrackStore::new(&cfg, metafile)
}

/// A file system held in memory: the paths of the files and what they hold,
/// and the directories that were made.
struct Disk {
    files: HashMap<String, Vec<u8>>,
    directories: Vec<String>,
}

fn new_disk() -> Disk {
    Disk { files: HashMap::new(), directories: Vec::new() }
}

fn disk_open(disk: &Disk, path: &str) -> Result<(Vec<u8>, u64), std::io::Error> {
    match disk.files.get(path) {
        Some(file) => Ok((file[..file.len().min(32)].to_vec(), file.len() as u64)),
        None => Err(std::io::Error::new(std::io::ErrorKind::NotFound, "no such file")),
    }
}

fn disk_read(disk: &Disk, path: &str, span: Option<Span>) -> Vec<u8> {
    let file = &disk.files[path];
    match span {
        None => Vec::new(),
        Some(s) => {
            let from = (s.offset as usize).min(file.len());
            let to = ((s.offset + s.len) as usize).min(file.len());
            file[from..to].to_vec()
        }
    }
}

fn disk_write(disk: &mut Disk, path: &str, patch: &Patch) {
    let file = disk.files.get_mut(path).unwrap();
    let offset = patch.offset as usize;
    let end = offset + patch.data.len();
    if file.len() < end {
        file.resize(end, 0);
    }
    file[offset..end].copy_from_slice(&patch.data);
}

fn count(disk: &mut Disk, store: &TrackStore, done: &StoreAppend) {
    let path = store.metafile().path().to_string();
    let data = disk.files.get(&path).cloned().unwrap_or_default();
    if let Some(bytes) = store.counters_after(done, &data) {
        disk.files.insert(path, bytes);
    }
}

/// An append as a host performs it: open and read, ask the store, write.
fn append(
    disk: &mut Disk,
    store: &TrackStore,
    track_id: &str,
    p: &TrackPoint,
    create_if_not_exist: bool,
) -> Result<(), TrackFileError> {
    let path = store.path_of(track_id);
    let found = disk_open(disk, &path);
    let tail = match &found {
        Ok((_, len)) => {
            assert!(*len < MAX_FILE_LEN);
            disk_read(disk, &path, TrackFile::tail_span(*len))
        }
        Err(_) => Vec::new(),
    };
    let todo = store.append(track_id, p, create_if_not_exist, found, &tail)?;
    assert_eq!(todo.file.path(), path);
    if let Some(made) = &todo.created {
        disk.directories.push(made.directory.clone());
        disk.files.insert(path.clone(), made.header.clone());
    }
    disk_write(disk, &path, &todo.plan.record);
    if let Some(h) = &todo.plan.header {
        disk_write(disk, &path, h);
    }
    count(disk, store, &todo);
    Ok(())
}

fn read_stored(
    disk: &Disk,
    store: &TrackStore,
    track_id: &str,
) -> Result<Vec<TrackPoint>, TrackFileError> {
    let path = store.path_of(track_id);
    let found = disk_open(disk, &path);
    let body = match &found {
        Ok((_, len)) => disk_read(disk, &path, TrackFile::body_span(*len)),
        Err(_) => Vec::new(),
    };
    store.read_all(track_id, found, &body)
}

/// What the five curves through `points` give at `times`.
fn curves(points: &[TrackPoint], times: &[i64]) -> Vec<Option<Sample>> {
    let spline = |field: &dyn Fn(&TrackPoint) -> f64| {
        Spline::from_vec(
            points
                .iter()
                .map(|p| Key::new(p.ts as f64, field(p), Interpolation::CatmullRom))
                .collect(),
        )
    };
    let lat = spline(&|p| f64::from_bits(p.lat));
    let lng = spline(&|p| f64::from_bits(p.lng));
    let hdg = spline(&|p| p.hdg as f64);
    let gs = spline(&|p| p.gs as f64);
    let alt = spline(&|p| p.alt as f64);
    times
        .iter()
        .map(|t| {
            let t = *t as f64;
            match (lat.sample(t), lng.sample(t), hdg.sample(t), gs.sample(t), alt.sample(t)) {
                (Some(lat), Some(lng), Some(hdg), Some(gs), Some(alt)) => Some(Sample {
                    lat: lat.to_bits(),
                    lng: lng.to_bits(),
                    hdg: hdg as i32,
                    gs: gs as i32,
                    alt: alt as i32,
                }),
                _ => None,
            }
        })
        .collect()
}

fn load_track(
    disk: &Disk,
    store: &TrackStore,
    track_id: &str,
    interpolate: bool,
    after: Option<i64>,
) -> Result<Vec<TrackPoint>, TrackFileError> {
    let stored = read_stored(disk, store, track_id)?;
    let samples = if interpolate { curves(&stored, &sample_times(&stored)) } else { Vec::new() };
    Ok(TrackStore::load_track(stored, interpolate, &samples, after))
}

fn counters(disk: &Disk, store: &TrackStore) -> MetaBlock {
    let data = disk.files.get(store.metafile().path()).cloned().unwrap_or_default();
    store.get_metablock(&data).unwrap()
}

#[test]
fn layout_constants() {
    assert_eq!(SUBKEY_LENGTH, 3);
    assert_eq!(NESTING_LEVEL, 2);
}

#[test]
fn path_is_sharded_by_the_digest_of_the_identifier() {
    let store = store_at("/var/lib/tracks");
    // md5("T1") = ce499dea30cfce118f4fe85da0227e83
    assert_eq!(store.target_directory("T1"), "/var/lib/tracks/ce4/99d");
    assert_eq!(store.path_of("T1"), "/var/lib/tracks/ce4/99d/T1.bin");
    // md5("abc") = 900150983cd24fb0d6963f7d28e17f72
    assert_eq!(store.path_of("abc"), "/var/lib/tracks/900/150/abc.bin");
    // md5("") = d41d8cd98f00b204e9800998ecf8427e
    assert_eq!(store.path_of(""), "/var/lib/tracks/d41/d8c/.bin");
    // md5("track-42") = 6c2e3aeeb5f424d13939787bdb2e341e
    assert_eq!(store.path_of("track-42"), "/var/lib/tracks/6c2/e3a/track-42.bin");
    // the identifier is hashed as UTF-8: md5("é") = 66ddcd97cfdeabb2f6fb8a999b4bc76f
    assert_eq!(store.path_of("é"), "/var/lib/tracks/66d/dcd/é.bin");
}

#[test]
fn path_depends_on_folder_and_identifier_only() {
    let a = store_at("root");
    let b = store_at("root");
    for id in ["T1", "T2", "x/y", "a b"] {
        assert_eq!(a.path_of(id), b.path_of(id));
        assert_eq!(a.path_of(id), a.path_of(id));
        assert_eq!(a.target_directory(id), b.target_directory(id));
    }
    assert_ne!(a.path_of("T1"), a.path_of("T2"));
    assert_eq!(store_at("other").path_of("T1"), "other/ce4/99d/T1.bin");
    assert_eq!(a.folder(), "root");
}

#[test]
fn directory_follows_the_digest() {
    let mut digest = [0u8; 16];
    digest[0] = 0xab;
    digest[1] = 0xcd;
    digest[2] = 0xef;
    digest[3] = 0x12;
    assert_eq!(directory_for("r", &digest), "r/abc/def");
    assert_eq!(directory_for("", &[0x01; 16]), "/010/101");
    assert_eq!(directory_for("r", &[0xff; 16]), "r/fff/fff");
    assert_eq!(directory_for("r", &[0x09; 16]), "r/090/909");
    assert_eq!(directory_in("r", "T1"), "r/ce4/99d");
    assert_eq!(directory_in("", "abc"), "/900/150");
}

#[test]
fn meta_path_is_in_the_folder() {
    assert_eq!(TrackStore::meta_path("/var/lib/tracks"), "/var/lib/tracks/.meta");
    let store = store_at("root");
    assert_eq!(store.metafile().path(), "root/.meta");
}

#[test]
fn create_then_read() {
    let mut disk = new_disk();
    let store = store_at("root");
    let p = plain(1000, 50.0, 4.0, 90, 120, 3000);
    append(&mut disk, &store, "T1", &p, true).unwrap();
    let got = load_track(&disk, &store, "T1", false, None).unwrap();
    assert_eq!(got.len(), 1);
    assert_eq!(fields(&got[0]), fields(&p));
    assert_eq!(disk.files["root/ce4/99d/T1.bin"].len(), 32 + 40);
    assert_eq!(disk.directories, vec!["root/ce4/99d".to_string()]);
}

#[test]
fn monotonicity_is_kept() {
    let mut disk = new_disk();
    let store = store_at("root");
    append(&mut disk, &store, "T1", &plain(1000, 50.0, 4.0, 90, 120, 3000), true).unwrap();
    match append(&mut disk, &store, "T1", &plain(999, 50.0, 4.0, 90, 120, 3000), true) {
        Err(TrackFileError::SequenceError(ts)) => assert_eq!(ts, 999),
        other => panic!("unexpected: {:?}", other),
    }
    assert_eq!(load_track(&disk, &store, "T1", false, None).unwrap().len(), 1);
}

#[test]
fn equal_samples_collapse() {
    let mut disk = new_disk();
    let store = store_at("root");
    for ts in [1000, 2000, 3000] {
        append(&mut disk, &store, "T1", &point(ts), true).unwrap();
    }
    let got = load_track(&disk, &store, "T1", false, None).unwrap();
    assert_eq!(got.len(), 2);
    assert_eq!(got[1].ts, 3000);
    let path = store.path_of("T1");
    let file = store.open("T1", disk_open(&disk, &path)).unwrap();
    assert_eq!(file.count(), 2);
    assert_eq!(disk.files[&path].len(), 32 + 2 * 40);
}

#[test]
fn only_later_samples_are_loaded() {
    let mut disk = new_disk();
    let store = store_at("root");
    for (i, ts) in [1000, 2000, 3000, 4000].iter().enumerate() {
        append(&mut disk, &store, "T9", &plain(*ts, 1.0, 2.0, 0, 0, i as i32), true).unwrap();
    }
    let got = load_track(&disk, &store, "T9", false, Some(2000)).unwrap();
    assert_eq!(got.iter().map(|p| p.ts).collect::<Vec<_>>(), vec![3000, 4000]);
    let got = load_track(&disk, &store, "T9", false, Some(4000)).unwrap();
    assert!(got.is_empty());
    let got = load_track(&disk, &store, "T9", false, Some(i64::MIN)).unwrap();
    assert_eq!(got.len(), 4);
    let got = load_track(&disk, &store, "T9", false, None).unwrap();
    assert_eq!(got.len(), 4);
}

#[test]
fn a_missing_track_is_not_found() {
    let mut disk = new_disk();
    let store = store_at("root");
    match load_track(&disk, &store, "T1", false, None) {
        Err(TrackFileError::NotFound(path)) => assert_eq!(path, "root/ce4/99d/T1.bin"),
        other => panic!("unexpected: {:?}", other),
    }
    match append(&mut disk, &store, "T1", &point(1), false) {
        Err(TrackFileError::NotFound(path)) => assert_eq!(path, "root/ce4/99d/T1.bin"),
        other => panic!("unexpected: {:?}", other),
    }
    assert!(disk.files.is_empty());
    assert!(disk.directories.is_empty());
    append(&mut disk, &store, "T1", &point(1), true).unwrap();
    append(&mut disk, &store, "T1", &point(2), false).unwrap();
    assert_eq!(load_track(&disk, &store, "T1", false, None).unwrap().len(), 2);
}

#[test]
fn a_corrupt_track_is_reported() {
    let mut disk = new_disk();
    let store = store_at("root");
    append(&mut disk, &store, "T1", &point(1), true).unwrap();
    let path = store.path_of("T1");
    disk.files.get_mut(&path).unwrap().pop();
    assert!(matches!(
        load_track(&disk, &store, "T1", false, None),
        Err(TrackFileError::InvalidFileLength(72, 71))
    ));
    assert!(matches!(
        append(&mut disk, &store, "T1", &point(2), true),
        Err(TrackFileError::InvalidFileLength(72, 71))
    ));
    disk.files.get_mut(&path).unwrap()[0] = 0;
    assert!(matches!(
        load_track(&disk, &store, "T1", false, None),
        Err(TrackFileError::InvalidMagicNumber)
    ));
}

#[test]
fn open_hands_on_other_errors_of_the_system() {
    let store = store_at("root");
    let denied = || std::io::Error::new(std::io::ErrorKind::PermissionDenied, "denied");
    assert!(matches!(
        store.open("T1", Err(denied())),
        Err(TrackFileError::IOError(e)) if e.kind() == std::io::ErrorKind::PermissionDenied
    ));
    for create in [true, false] {
        assert!(matches!(
            store.append("T1", &point(1), create, Err(denied()), &[]),
            Err(TrackFileError::IOError(_))
        ));
        let opened: Result<TrackFile, TrackFileError> = Err(TrackFileError::IOError(denied()));
        assert!(matches!(
            store.append_at("T1", &point(1), create, opened, &[], 5),
            Err(TrackFileError::IOError(_))
        ));
        let opened: Result<TrackFile, TrackFileError> = Err(TrackFileError::InvalidMagicNumber);
        assert!(matches!(
            store.append_at("T1", &point(1), create, opened, &[], 5),
            Err(TrackFileError::InvalidMagicNumber)
        ));
    }
    assert!(matches!(
        store.read_all("T1", Err(denied()), &[]),
        Err(TrackFileError::IOError(_))
    ));
    let opened: Result<TrackFile, TrackFileError> = Err(TrackFileError::InvalidMagicNumber);
    assert!(matches!(
        store.open_or_create("T1", opened),
        Err(TrackFileError::InvalidMagicNumber)
    ));
}

#[test]
fn a_missing_track_is_made_only_if_asked_for() {
    let store = store_at("root");
    let missing = || -> Result<TrackFile, TrackFileError> {
        Err(TrackFileError::NotFound("root/ce4/99d/T1.bin".to_string()))
    };
    let p = point(1000);
    let todo = store.append_at("T1", &p, true, missing(), &[], 77).unwrap();
    assert!(todo.new_track());
    assert!(todo.new_point());
    let made = todo.created.as_ref().unwrap();
    assert_eq!(made.directory, "root/ce4/99d");
    let h = Header::decode(&made.header).unwrap();
    assert!(h.check_magic());
    assert_eq!((h.version, h.updated_at, h.count), (1, 77, 0));
    assert_eq!(todo.file.path(), "root/ce4/99d/T1.bin");
    assert_eq!(todo.file.count(), 1);
    assert_eq!(todo.plan.record.offset, 32);
    assert_eq!(todo.plan.record.data, p.encode());
    let h = Header::decode(&todo.plan.header.as_ref().unwrap().data).unwrap();
    assert_eq!((h.version, h.updated_at, h.count), (1, 77, 1));
    // a tail that was read for nothing is not looked at
    assert!(store.append_at("T1", &p, true, missing(), &[1, 2, 3], 77).is_ok());

    match store.append_at("T1", &p, false, missing(), &[], 77) {
        Err(TrackFileError::NotFound(path)) => assert_eq!(path, "root/ce4/99d/T1.bin"),
        other => panic!("unexpected: {:?}", other),
    }
    let gone = std::io::Error::new(std::io::ErrorKind::NotFound, "gone");
    assert!(matches!(store.append("T1", &p, true, Err(gone), &[]), Ok(_)));
    let gone = std::io::Error::new(std::io::ErrorKind::NotFound, "gone");
    assert!(matches!(
        store.append("T1", &p, false, Err(gone), &[]),
        Err(TrackFileError::NotFound(_))
    ));

    match store.open_or_create("T1", missing()).unwrap() {
        Opening::Created { directory, file, header } => {
            assert_eq!(directory, "root/ce4/99d");
            assert_eq!(file.path(), "root/ce4/99d/T1.bin");
            assert_eq!(file.count(), 0);
            assert_eq!(Header::decode(&header).unwrap().count, 0);
        }
        other => panic!("unexpected: {:?}", other),
    }
    match store.open_or_create_at("T1", missing(), 123).unwrap() {
        Opening::Created { directory, file, header } => {
            assert_eq!(directory, "root/ce4/99d");
            assert_eq!(file.get_header().updated_at, 123);
            assert_eq!(header, Header::at(123).encode());
        }
        other => panic!("unexpected: {:?}", other),
    }
    let (there, _) = TrackFile::create_at("p", 1);
    assert!(matches!(store.open_or_create("T1", Ok(there)), Ok(Opening::Opened(_))));
    let (there, _) = TrackFile::create_at("p", 1);
    assert!(matches!(store.open_or_create_at("T1", Ok(there), 9), Ok(Opening::Opened(_))));
}

#[test]
fn appending_to_a_track_that_is_there() {
    let store = store_at("root");
    let (mut file, _) = TrackFile::create_at("root/ce4/99d/T1.bin", 1);
    let first = file.append_at(&point(1000), &[], 2).unwrap();
    let tail = first.record.data.clone();
    let todo = store.append_at("T1", &point(2000), false, Ok(file), &tail, 3).unwrap();
    assert!(!todo.new_track());
    assert!(todo.new_point());
    assert!(todo.created.is_none());
    assert_eq!(todo.plan.record.offset, 72);
    assert_eq!(todo.file.count(), 2);
    assert_eq!(todo.file.get_header().updated_at, 3);
    // the third equal sample takes the place of the second
    let mut tail = tail;
    tail.extend(todo.plan.record.data.clone());
    let todo = store.append_at("T1", &point(3000), true, Ok(todo.file), &tail, 4).unwrap();
    assert!(!todo.new_track());
    assert!(!todo.new_point());
    assert_eq!(todo.plan.record.offset, 72);
    assert_eq!(todo.file.count(), 2);
    assert_eq!(todo.file.get_header().updated_at, 3);
    let mut tail = tail[..40].to_vec();
    tail.extend(todo.plan.record.data.clone());
    assert!(matches!(
        store.append_at("T1", &point(2999), true, Ok(todo.file), &tail, 5),
        Err(TrackFileError::SequenceError(2999))
    ));
}

#[test]
fn reading_a_track_needs_all_its_records() {
    let mut disk = new_disk();
    let store = store_at("root");
    for ts in [1, 2] {
        append(&mut disk, &store, "T1", &plain(ts, 0.5, 0.5, 0, 0, ts as i32), true).unwrap();
    }
    let path = store.path_of("T1");
    let found = || disk_open(&disk, &path);
    let body = disk_read(&disk, &path, TrackFile::body_span(112));
    assert_eq!(body.len(), 80);
    let got = store.read_all("T1", found(), &body).unwrap();
    assert_eq!(got.iter().map(|p| p.alt).collect::<Vec<_>>(), vec![1, 2]);
    match store.read_all("T1", found(), &body[..40]) {
        Err(TrackFileError::InsufficientDataLength(what, n)) => {
            assert_eq!(what, "track entry");
            assert_eq!(n, 40);
        }
        other => panic!("unexpected: {:?}", other),
    }
    assert!(matches!(
        store.read_all("T1", found(), &[]),
        Err(TrackFileError::InsufficientDataLength(_, 0))
    ));
    assert!(matches!(
        store.read_all("T1", Ok((vec![0; 32], 112)), &body),
        Err(TrackFileError::InvalidMagicNumber)
    ));
}

#[test]
fn reads_by_the_length_of_the_file() {
    assert_eq!(TrackFile::tail_span(0), None);
    assert_eq!(TrackFile::tail_span(31), None);
    assert_eq!(TrackFile::tail_span(32), None);
    assert_eq!(TrackFile::tail_span(71), None);
    assert_eq!(TrackFile::tail_span(72), Some(Span { offset: 32, len: 40 }));
    assert_eq!(TrackFile::tail_span(112), Some(Span { offset: 32, len: 80 }));
    assert_eq!(TrackFile::tail_span(152), Some(Span { offset: 72, len: 80 }));
    assert_eq!(TrackFile::tail_span(153), Some(Span { offset: 72, len: 80 }));
    assert_eq!(TrackFile::body_span(0), None);
    assert_eq!(TrackFile::body_span(32), None);
    assert_eq!(TrackFile::body_span(72), Some(Span { offset: 32, len: 40 }));
    assert_eq!(TrackFile::body_span(152), Some(Span { offset: 32, len: 120 }));
    assert_eq!(TrackFile::body_span(191), Some(Span { offset: 32, len: 120 }));
    assert_eq!(
        TrackFile::body_span(u64::MAX),
        Some(Span { offset: 32, len: MAX_FILE_LEN - 32 })
    );
    // for a file that opens they are the reads that its handle names
    let (mut file, image) = TrackFile::create_at("f", 1);
    let mut len = image.len() as u64;
    let mut tail: Vec<u8> = Vec::new();
    for i in 0..4 {
        assert_eq!(TrackFile::tail_span(len), file.tail());
        assert_eq!(TrackFile::body_span(len), file.read_all());
        let plan = file.append_at(&plain(len as i64, 0.0, 0.0, 0, 0, i), &tail, 2).unwrap();
        assert!(plan.appended());
        tail.extend(plan.record.data);
        if tail.len() > 80 {
            tail.drain(..40);
        }
        len += 40;
    }
}

#[test]
fn counters_follow_the_appends() {
    let mut disk = new_disk();
    let store = store_at("root");
    let (_, block) = MetaFile::create_at("root/.meta", 5);
    disk.files.insert("root/.meta".to_string(), block);
    for ts in [1000, 2000, 3000, 4000] {
        append(&mut disk, &store, "T1", &point(ts), true).unwrap();
    }
    append(&mut disk, &store, "T2", &point(1), true).unwrap();
    let _ = append(&mut disk, &store, "T2", &point(0), true);
    let c = counters(&disk, &store);
    // T1: two records were written and two collapsed; T2: one, and one refused
    assert_eq!((c.track_count, c.point_count, c.updated_at), (2, 3, 5));
}

#[test]
fn counters_after_an_append() {
    let store = store_at("root");
    let before = MetaBlock { track_count: 4, point_count: 10, updated_at: 7 };
    let after = |done: &StoreAppend| {
        let b = MetaBlock::decode(&store.counters_after(done, &before.encode()).unwrap()).unwrap();
        (b.track_count, b.point_count, b.updated_at)
    };
    let missing = || -> Result<TrackFile, TrackFileError> {
        Err(TrackFileError::NotFound("root/ce4/99d/T1.bin".to_string()))
    };
    // the track was made: one track more and one record more
    let made = store.append_at("T1", &point(1000), true, missing(), &[], 1).unwrap();
    assert_eq!(after(&made), (5, 11, 7));
    // the track was there and grew: one record more
    let tail = made.plan.record.data.clone();
    let grown = store.append_at("T1", &point(2000), true, Ok(made.file), &tail, 2).unwrap();
    assert_eq!(after(&grown), (4, 11, 7));
    // the sample took the place of the last record: nothing more
    let mut tail = tail;
    tail.extend(grown.plan.record.data.clone());
    let same = store.append_at("T1", &point(3000), true, Ok(grown.file), &tail, 3).unwrap();
    assert!(!same.new_point());
    assert_eq!(after(&same), (4, 10, 7));
    assert_eq!(store.counters_after(&same, &before.encode()).unwrap(), before.encode());
    // a counters file that is too short reads as zeros
    let b = MetaBlock::decode(&store.counters_after(&same, &[]).unwrap()).unwrap();
    assert_eq!((b.track_count, b.point_count, b.updated_at), (0, 0, 0));

    // a counter that cannot count one more: the file is left as it is
    let made = store.append_at("T1", &point(1000), true, missing(), &[], 1).unwrap();
    let full_tracks = MetaBlock { track_count: u64::MAX, point_count: 1, updated_at: 0 };
    let full_points = MetaBlock { track_count: 1, point_count: u64::MAX, updated_at: 0 };
    assert!(store.counters_after(&made, &full_tracks.encode()).is_none());
    assert!(store.counters_after(&made, &full_points.encode()).is_none());
    assert!(store.counters_after(&same, &full_tracks.encode()).is_some());
    assert!(store.counters_after(&same, &full_points.encode()).is_some());
    let tail = made.plan.record.data.clone();
    let grown = store.append_at("T1", &point(2000), true, Ok(made.file), &tail, 2).unwrap();
    assert!(store.counters_after(&grown, &full_points.encode()).is_none());
    let b = MetaBlock::decode(&store.counters_after(&grown, &full_tracks.encode()).unwrap())
        .unwrap();
    assert_eq!((b.track_count, b.point_count), (u64::MAX, 2));
}

#[test]
fn counters_stop_at_their_maximum() {
    let store = store_at("root");
    let full = MetaBlock { track_count: u64::MAX, point_count: u64::MAX, updated_at: 1 };
    assert!(store.inc_track_count(&full.encode()).is_none());
    assert!(store.inc_point_count(&full.encode()).is_none());
    let b = MetaBlock { track_count: 7, point_count: u64::MAX - 1, updated_at: 1 };
    let next = MetaBlock::decode(&store.inc_point_count(&b.encode()).unwrap()).unwrap();
    assert_eq!((next.track_count, next.point_count, next.updated_at), (7, u64::MAX, 1));
    let next = MetaBlock::decode(&store.inc_track_count(&b.encode()).unwrap()).unwrap();
    assert_eq!((next.track_count, next.point_count, next.updated_at), (8, u64::MAX - 1, 1));
    // a file that is too short reads as zeros
    let next = MetaBlock::decode(&store.inc_track_count(&[]).unwrap()).unwrap();
    assert_eq!((next.track_count, next.point_count, next.updated_at), (1, 0, 0));
}

#[test]
fn meta_file_open_create_read_write() {
    let mf = MetaFile::open("root/.meta", None).unwrap();
    assert_eq!(mf.path(), "root/.meta");
    let missing = std::io::Error::new(std::io::ErrorKind::NotFound, "gone");
    match MetaFile::open("root/.meta", Some(missing)) {
        Err(MetaFileError::NotFound(path)) => assert_eq!(path, "root/.meta"),
        other => panic!("unexpected: {:?}", other),
    }
    let denied = std::io::Error::new(std::io::ErrorKind::PermissionDenied, "denied");
    assert!(matches!(
        MetaFile::open("root/.meta", Some(denied)),
        Err(MetaFileError::IOError(e)) if e.kind() == std::io::ErrorKind::PermissionDenied
    ));
    let (mf, bytes) = MetaFile::create_at("m", 9);
    assert_eq!(bytes.len(), 24);
    let b = mf.read_block(&bytes).unwrap();
    assert_eq!((b.track_count, b.point_count, b.updated_at), (0, 0, 9));
    let b = mf.read_block(&bytes[..16]).unwrap();
    assert_eq!((b.track_count, b.point_count, b.updated_at), (0, 0, 0));
    let written = mf.write_block(&MetaBlock { track_count: 1, point_count: 2, updated_at: 3 });
    let b = mf.read_block(&written).unwrap();
    assert_eq!((b.track_count, b.point_count, b.updated_at), (1, 2, 3));
    let (_, bytes) = MetaFile::create("m");
    let b = MetaBlock::decode(&bytes).unwrap();
    assert_eq!((b.track_count, b.point_count), (0, 0));
    assert!(b.updated_at > 1_577_836_800_000);
}

#[test]
fn setting_up_the_counters() {
    let mf = MetaFile::open("root/.meta", None);
    assert!(matches!(setup_meta("root", mf), Ok(MetaSetup::Found(_))));
    let missing = std::io::Error::new(std::io::ErrorKind::NotFound, "gone");
    match setup_meta("root", MetaFile::open("root/.meta", Some(missing))).unwrap() {
        MetaSetup::Made { file, block } => {
            assert_eq!(file.path(), "root/.meta");
            let b = MetaBlock::decode(&block).unwrap();
            assert_eq!((b.track_count, b.point_count), (0, 0));
            let counted = inspect_trackfiles_meta(&vec![Some(3), None, Some(4)]).unwrap();
            let b = with_counts(b, counted);
            assert_eq!((b.track_count, b.point_count), (2, 7));
        }
        other => panic!("unexpected: {:?}", other),
    }
    let denied = std::io::Error::new(std::io::ErrorKind::PermissionDenied, "denied");
    assert!(matches!(
        setup_meta("root", MetaFile::open("root/.meta", Some(denied))),
        Err(MetaFileError::IOError(_))
    ));
}

#[test]
fn counting_the_files_of_a_store() {
    assert_eq!(inspect_trackfiles_meta(&vec![]), Some((0, 0)));
    assert_eq!(inspect_trackfiles_meta(&vec![None, None]), Some((0, 0)));
    assert_eq!(inspect_trackfiles_meta(&vec![Some(0), Some(5), None, Some(7)]), Some((3, 12)));
    assert_eq!(inspect_trackfiles_meta(&vec![Some(u64::MAX), Some(0)]), Some((2, u64::MAX)));
    assert_eq!(inspect_trackfiles_meta(&vec![Some(u64::MAX), Some(1)]), None);
    assert_eq!(inspect_trackfiles_meta(&vec![Some(u64::MAX), None, Some(1), Some(2)]), None);
}

#[test]
fn compact_form_of_two_samples() {
    let points = vec![plain(10, 1.0, 1.0, 0, 0, 0), plain(11, 1.0, 2.0, 0, 0, 0)];
    let short = compact(&points).unwrap();
    assert_eq!(short.len(), 2);
    assert_eq!(
        compact_fields(&short[0]),
        (10, Some(1.0f64.to_bits()), Some(1.0f64.to_bits()), Some(0), Some(0), Some(0))
    );
    assert_eq!(compact_fields(&short[1]), (1, None, Some(2.0f64.to_bits()), None, None, None));
}

#[test]
fn compact_form_compares_with_the_sample_before() {
    let points = vec![
        plain(100, 1.0, 1.0, 5, 6, 7),
        plain(100, 1.0, 1.0, 5, 6, 7),
        plain(250, 2.0, 1.0, 5, 9, 7),
        plain(300, 2.0, 1.0, 4, 9, 8),
        plain(300, 1.0, 1.0, 5, 6, 7),
    ];
    let short = compact(&points).unwrap();
    assert_eq!(compact_fields(&short[1]), (0, None, None, None, None, None));
    assert_eq!(
        compact_fields(&short[2]),
        (150, Some(2.0f64.to_bits()), None, None, Some(9), None)
    );
    assert_eq!(compact_fields(&short[3]), (50, None, None, Some(4), None, Some(8)));
    assert_eq!(
        compact_fields(&short[4]),
        (0, Some(1.0f64.to_bits()), None, Some(5), Some(6), Some(7))
    );
    assert!(compact(&vec![]).unwrap().is_empty());
}

#[test]
fn compact_form_and_numbers() {
    // what is no number differs from everything, itself too
    let points = vec![plain(0, f64::NAN, 0.0, 0, 0, 0), plain(1, f64::NAN, -0.0, 0, 0, 0)];
    let short = compact(&points).unwrap();
    assert_eq!(short[1].lat, Some(f64::NAN.to_bits()));
    // the two zeros do not differ
    assert_eq!(short[1].lng, None);
}

#[test]
fn compact_form_needs_deltas_of_64_bits() {
    let points = vec![point(i64::MIN), point(i64::MAX)];
    assert!(compact(&points).is_none());
    let points = vec![point(0), point(1), point(-i64::MAX), point(2)];
    assert!(compact(&points).is_none());
    let points = vec![point(-1), point(i64::MAX)];
    assert!(compact(&points).is_none());
    let points = vec![point(0), point(i64::MAX), point(-1)];
    let short = compact(&points).unwrap();
    assert_eq!(short[1].ts, i64::MAX);
    assert_eq!(short[2].ts, i64::MIN);
    assert!(TrackStore::load_track_compact(
        vec![point(i64::MIN), point(i64::MAX)],
        false,
        &vec![],
        None
    )
    .is_none());
}

#[test]
fn compact_form_loses_nothing() {
    let points = vec![
        plain(-5000, 50.0, 4.0, 90, 120, 3000),
        plain(-5000, 50.0, 4.0, 90, 120, 3000),
        plain(20, 50.5, 4.0, 91, 120, 3000),
        plain(30, 50.5, -4.0, 91, 0, -3000),
        plain(30, f64::NAN, -4.0, 91, 0, -3000),
        plain(31, f64::NAN, f64::INFINITY, i32::MIN, i32::MAX, 0),
        plain(i64::MAX, 0.0, 0.0, 0, 0, 0),
    ];
    let short = compact(&points).unwrap();
    let back = expand(&short).unwrap();
    assert_eq!(back.len(), points.len());
    for (a, b) in back.iter().zip(points.iter()) {
        assert_eq!(fields(a), fields(b));
    }
}

#[test]
fn compact_form_does_not_keep_the_sign_of_a_zero() {
    let points = vec![plain(0, 0.0, 1.0, 0, 0, 0), plain(1, -0.0, 1.0, 0, 0, 0)];
    let back = expand(&compact(&points).unwrap()).unwrap();
    assert_eq!(back[1].ts, 1);
    assert_eq!(f64::from_bits(back[1].lat), 0.0);
    assert_eq!(back[1].lat, 0.0f64.to_bits());
}

#[test]
fn expanding_a_compact_track() {
    let compact = vec![
        TrackPointCompact { ts: 10, lat: Some(1), lng: Some(2), hdg: Some(3), gs: Some(4), alt: Some(5) },
        TrackPointCompact { ts: 5, lat: None, lng: Some(9), hdg: None, gs: None, alt: None },
        TrackPointCompact { ts: -20, lat: None, lng: None, hdg: None, gs: Some(-1), alt: None },
    ];
    let track = expand(&compact).unwrap();
    assert_eq!(
        track.iter().map(fields).collect::<Vec<_>>(),
        vec![(10, 1, 2, 3, 4, 5), (15, 1, 9, 3, 4, 5), (-5, 1, 9, 3, -1, 5)]
    );
    // a first sample without a field: the field is zero
    let compact =
        vec![TrackPointCompact { ts: 1, lat: None, lng: None, hdg: None, gs: None, alt: Some(2) }];
    assert_eq!(fields(&expand(&compact).unwrap()[0]), (1, 0, 0, 0, 0, 2));
    let compact = vec![
        TrackPointCompact { ts: i64::MAX, lat: None, lng: None, hdg: None, gs: None, alt: None },
        TrackPointCompact { ts: 1, lat: None, lng: None, hdg: None, gs: None, alt: None },
    ];
    assert!(expand(&compact).is_none());
    assert!(expand(&vec![]).unwrap().is_empty());
}

#[test]
fn loading_in_compact_form() {
    let stored = vec![
        plain(1000, 1.0, 1.0, 0, 0, 0),
        plain(2000, 1.0, 1.0, 0, 0, 0),
        plain(3000, 1.0, 2.0, 0, 0, 0),
        plain(4500, 1.0, 2.0, 0, 1, 0),
    ];
    let compact =
        TrackStore::load_track_compact(stored.clone(), false, &vec![], Some(1000)).unwrap();
    // the first sample that is handed out has all its fields
    assert_eq!(
        compact.iter().map(compact_fields).collect::<Vec<_>>(),
        vec![
            (2000, Some(1.0f64.to_bits()), Some(1.0f64.to_bits()), Some(0), Some(0), Some(0)),
            (1000, None, Some(2.0f64.to_bits()), None, None, None),
            (1500, None, None, None, Some(1), None),
        ]
    );
    assert!(TrackStore::load_track_compact(stored, false, &vec![], Some(5000))
        .unwrap()
        .is_empty());
}

#[test]
fn whole_seconds_round_down() {
    assert_eq!(STEP_MS, 1000);
    assert_eq!(whole_second(0), 0);
    assert_eq!(whole_second(999), 0);
    assert_eq!(whole_second(1000), 1);
    assert_eq!(whole_second(1999), 1);
    assert_eq!(whole_second(-1), -1);
    assert_eq!(whole_second(-1000), -1);
    assert_eq!(whole_second(-1001), -2);
    assert_eq!(whole_second(i64::MAX), 9_223_372_036_854_775);
    assert_eq!(whole_second(i64::MIN), -9_223_372_036_854_776);
    for ts in [-2500i64, -2000, -1, 0, 1, 1500, 123_456_789] {
        assert_eq!(whole_second(ts), ts.div_euclid(1000));
    }
}

#[test]
fn the_grid_has_one_instant_a_second() {
    let track = |first: i64, last: i64| vec![point(first), point((first + last) / 2), point(last)];
    assert_eq!(sample_times(&track(1500, 4500)), vec![1000, 2000, 3000]);
    assert_eq!(sample_times(&track(1000, 4000)), vec![1000, 2000, 3000]);
    assert_eq!(sample_times(&track(1000, 4999)), vec![1000, 2000, 3000]);
    assert_eq!(sample_times(&track(0, 999)), Vec::<i64>::new());
    assert_eq!(sample_times(&track(1, 3)), Vec::<i64>::new());
    assert_eq!(sample_times(&track(5000, 1000)), Vec::<i64>::new());
    assert_eq!(sample_times(&track(-2500, 500)), vec![-3000, -2000, -1000]);
    assert_eq!(sample_times(&track(-2500, -500)), vec![-3000, -2000]);
    // a track of fewer than three samples is not resampled
    assert_eq!(sample_times(&vec![point(0), point(10_000)]), Vec::<i64>::new());
    assert_eq!(sample_times(&vec![]), Vec::<i64>::new());
}

#[test]
fn the_grid_starts_where_64_bits_begin() {
    assert_eq!(FIRST_SECOND, -9_223_372_036_854_775);
    let last = i64::MIN + 3000;
    let times = sample_times(&vec![point(i64::MIN), point(i64::MIN + 1), point(last)]);
    assert_eq!(times, vec![-9_223_372_036_854_775_000, -9_223_372_036_854_774_000]);
    let times = sample_times(&vec![
        point(-9_223_372_036_854_775_000),
        point(0),
        point(-9_223_372_036_854_773_000),
    ]);
    assert_eq!(times, vec![-9_223_372_036_854_775_000, -9_223_372_036_854_774_000]);
}

#[test]
fn short_tracks_are_not_resampled() {
    let some = Some(Sample { lat: 0, lng: 0, hdg: 0, gs: 0, alt: 0 });
    assert!(interpolate_track(&vec![], &vec![some]).is_empty());
    let one = vec![point(1500)];
    assert_eq!(fields(&interpolate_track(&one, &vec![some])[0]), fields(&point(1500)));
    let two = vec![point(1500), point(9500)];
    let got = interpolate_track(&two, &vec![some, some]);
    assert_eq!(got.iter().map(fields).collect::<Vec<_>>(), two.iter().map(fields).collect::<Vec<_>>());
}

#[test]
fn resampled_track_from_given_samples() {
    let points = vec![point(500), point(2500), point(4200)];
    assert_eq!(sample_times(&points), vec![0, 1000, 2000, 3000]);
    let s = |n: i32| Some(Sample { lat: n as u64, lng: 2 * n as u64, hdg: n, gs: -n, alt: 10 * n });
    let got = interpolate_track(&points, &vec![None, s(1), None, s(3)]);
    assert_eq!(
        got.iter().map(fields).collect::<Vec<_>>(),
        vec![(1000, 1, 2, 1, -1, 10), (3000, 3, 6, 3, -3, 30), fields(&point(4200))]
    );
    // an instant for which nothing was handed in is left out, and what is
    // handed in beyond the grid is not used
    let got = interpolate_track(&points, &vec![s(0)]);
    assert_eq!(got.iter().map(|p| p.ts).collect::<Vec<_>>(), vec![0, 4200]);
    let got = interpolate_track(&points, &vec![None, None, None, None, s(9), s(9)]);
    assert_eq!(got.iter().map(fields).collect::<Vec<_>>(), vec![fields(&point(4200))]);
    let got = interpolate_track(&points, &vec![]);
    assert_eq!(got.len(), 1);
}

#[test]
fn resampled_track_without_a_grid_is_its_last_sample() {
    // the first sample of the result is then on no whole second
    let points = vec![point(1), point(2), point(3)];
    let got = interpolate_track(&points, &curves(&points, &sample_times(&points)));
    assert_eq!(got.iter().map(fields).collect::<Vec<_>>(), vec![fields(&point(3))]);
}

#[test]
fn resampled_track_from_real_curves() {
    let points: Vec<TrackPoint> = (0..6)
        .map(|i| plain(500 + i * 1500, 50.0 + i as f64, 4.0 - i as f64, 10 * i as i32, 100, 0))
        .collect();
    // samples at 500, 2000, 3500, 5000, 6500, 8000
    let times = sample_times(&points);
    assert_eq!(times, vec![0, 1000, 2000, 3000, 4000, 5000, 6000, 7000]);
    let samples = curves(&points, &times);
    // the curves have a value from the second sample up to the last but one
    assert_eq!(
        samples.iter().map(|s| s.is_some()).collect::<Vec<_>>(),
        vec![false, false, true, true, true, true, true, false]
    );
    let got = interpolate_track(&points, &samples);
    assert_eq!(
        got.iter().map(|p| p.ts).collect::<Vec<_>>(),
        vec![2000, 3000, 4000, 5000, 6000, 8000]
    );
    assert_eq!(got.first().unwrap().ts % 1000, 0);
    assert_eq!(fields(got.last().unwrap()), fields(points.last().unwrap()));
    // at an instant that is a sample's, the curve goes through the sample
    assert!((f64::from_bits(got[0].lat) - 51.0).abs() < 1e-9);
    assert!((f64::from_bits(got[0].lng) - 3.0).abs() < 1e-9);
    assert_eq!(got[0].hdg, 10);
    assert_eq!(got[0].gs, 100);
    assert!((f64::from_bits(got[3].lat) - 53.0).abs() < 1e-9);
    for p in got.iter() {
        assert_eq!(p.alt, 0);
    }
}

#[test]
fn loading_resamples_before_it_filters() {
    let stored: Vec<TrackPoint> =
        (0..6).map(|i| plain(500 + i * 1500, 50.0, 4.0, 0, 0, 0)).collect();
    let samples = curves(&stored, &sample_times(&stored));
    let got = TrackStore::load_track(stored.clone(), true, &samples, Some(3500));
    assert_eq!(got.iter().map(|p| p.ts).collect::<Vec<_>>(), vec![4000, 5000, 6000, 8000]);
    let got = TrackStore::load_track(stored.clone(), true, &samples, None);
    assert_eq!(got.len(), 6);
    // without resampling the samples are not looked at
    let got = TrackStore::load_track(stored.clone(), false, &samples, Some(3500));
    assert_eq!(got.iter().map(|p| p.ts).collect::<Vec<_>>(), vec![5000, 6500, 8000]);
}

#[test]
fn loading_a_resampled_track_from_the_store() {
    let mut disk = new_disk();
    let store = store_at("root");
    for i in 0..6 {
        let p = plain(500 + i * 1500, 50.0 + i as f64, 4.0, 0, 0, i as i32);
        append(&mut disk, &store, "T1", &p, true).unwrap();
    }
    let got = load_track(&disk, &store, "T1", true, Some(2000)).unwrap();
    assert_eq!(got.iter().map(|p| p.ts).collect::<Vec<_>>(), vec![3000, 4000, 5000, 6000, 8000]);
    assert_eq!(got.last().unwrap().alt, 5);
}
