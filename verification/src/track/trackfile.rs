//! One track's file: a header and the records it counts.
//!
//! The host owns the open file. It hands this module the bytes it read and
//! carries out the reads and writes that this module names, each at an
//! absolute offset. What the rules do to a file is stated over the file's
//! bytes as a sequence.

use super::clock::system_millis;
use super::entry::{TrackPoint, ENTRY_SIZE};
use super::error::TrackFileError;
use super::header::{Header, HEADER_MAGIC_NUMBER, HEADER_SIZE};
use super::layout::{pad, padded, to_unsigned64};
use vstd::prelude::*;
use vstd::slice::*;

verus! {

/// The most records a file can count: with one more, its length would not
/// fit in 64 bits.
pub const MAX_ENTRIES: u64 = 461_168_601_842_738_789;

/// The length of a file of `MAX_ENTRIES` records.
pub const MAX_FILE_LEN: u64 = 18_446_744_073_709_551_592;

/// A run of bytes in a file, to be read in one positional read.
#[derive(Debug, Clone, Copy, PartialEq, Eq, Structural)]
pub struct Span {
    pub offset: u64,
    pub len: u64,
}

/// Bytes to be written at an absolute offset.
#[derive(Debug)]
pub struct Patch {
    pub offset: u64,
    pub data: Vec<u8>,
}

/// The writes that add one sample to a file, in the order in which they are
/// to be made: the record, then the header if the file grew.
#[derive(Debug)]
pub struct AppendPlan {
    pub record: Patch,
    pub header: Option<Patch>,
}

/// An open track file: where it is, and the header it has.
#[derive(Debug)]
pub struct TrackFile {
    path: String,
    header: Header,
}

/// What is known of an open track file.
pub struct TrackFileView {
    pub path: Seq<char>,
    pub header: Header,
}

/// The offset of record `i`.
pub open spec fn record_offset(i: int) -> int {
    HEADER_SIZE + i * ENTRY_SIZE
}

/// The header of a file: what its first 32 bytes hold, a missing byte
/// taken as zero.
pub open spec fn file_header(file: Seq<u8>) -> Header {
    Header::decoded(padded(file, HEADER_SIZE as nat))
}

/// Whether a file can be opened: it begins with the magic number and is as
/// long as its header says.
pub open spec fn well_formed(file: Seq<u8>) -> bool {
    &&& file_header(file).magic == HEADER_MAGIC_NUMBER
    &&& file.len() == record_offset(file_header(file).count as int)
}

/// The samples that a run of records holds, in order. Bytes after the last
/// whole record are not read.
pub open spec fn block_records(block: Seq<u8>) -> Seq<TrackPoint> {
    Seq::new(
        (block.len() / ENTRY_SIZE as nat) as nat,
        |i: int| TrackPoint::decoded(block.subrange(i * ENTRY_SIZE, i * ENTRY_SIZE + ENTRY_SIZE)),
    )
}

/// The samples that a well-formed file holds.
pub open spec fn records(file: Seq<u8>) -> Seq<TrackPoint> {
    block_records(file.subrange(HEADER_SIZE as int, file.len() as int))
}

/// A file after `data` was written at `offset`. A gap between the old end
/// and `offset` reads as zeros.
pub open spec fn written(file: Seq<u8>, offset: int, data: Seq<u8>) -> Seq<u8> {
    Seq::new(
        if file.len() >= offset + data.len() {
            file.len()
        } else {
            (offset + data.len()) as nat
        },
        |i: int|
            if offset <= i < offset + data.len() {
                data[i - offset]
            } else if i < file.len() {
                file[i]
            } else {
                0u8
            },
    )
}

/// The number of records that a range of `len` records from `pos` covers
/// in a file of `count` records.
pub open spec fn clamped(count: int, pos: int, len: int) -> int {
    if pos >= count {
        0
    } else if len > count - pos {
        count - pos
    } else {
        len
    }
}

/// The read that fetches `len` records from `pos`, if there is any such
/// record.
pub open spec fn range_span(count: int, pos: int, len: int) -> Option<Span> {
    if clamped(count, pos, len) <= 0 {
        None
    } else {
        Some(
            Span {
                offset: record_offset(pos) as u64,
                len: (clamped(count, pos, len) * ENTRY_SIZE) as u64,
            },
        )
    }
}

/// The number of whole records in a file of `file_len` bytes.
pub open spec fn records_in(file_len: int) -> int {
    if file_len < HEADER_SIZE {
        0
    } else {
        (file_len - HEADER_SIZE) / (ENTRY_SIZE as int)
    }
}

/// The number of records at the end of a file that decide an append.
pub open spec fn tail_count(count: int) -> int {
    if count >= 2 {
        2
    } else {
        count
    }
}

/// Whether `p` is older than the last of `records`.
pub open spec fn out_of_sequence(records: Seq<TrackPoint>, p: TrackPoint) -> bool {
    records.len() > 0 && records.last().ts > p.ts
}

/// Whether `p` takes the place of the last of `records`: the last two are
/// value-equal, and `p` is value-equal to both.
pub open spec fn collapses(records: Seq<TrackPoint>, p: TrackPoint) -> bool {
    let n = records.len() as int;
    &&& n >= 2
    &&& records[n - 2].same_values(records[n - 1])
    &&& p.same_values(records[n - 2])
    &&& p.same_values(records[n - 1])
}

/// The samples of a file after `p` was accepted.
pub open spec fn appended(records: Seq<TrackPoint>, p: TrackPoint) -> Seq<TrackPoint> {
    if collapses(records, p) {
        records.update(records.len() - 1, p)
    } else {
        records.push(p)
    }
}

/// The offset of record `i`, or of the end of the file if it has `i`
/// records.
pub fn offset_of(i: u64) -> (at: u64)
    requires
        i <= MAX_ENTRIES,
    ensures
        at == record_offset(i as int),
{
    assert(i * 40 + 32 <= u64::MAX) by (nonlinear_arith)
        requires
            i <= 461_168_601_842_738_789u64,
    ;
    i * 40 + 32
}

/// The bytes that `n` records take.
pub fn bytes_of(n: u64) -> (len: u64)
    requires
        n <= MAX_ENTRIES,
    ensures
        len == n * ENTRY_SIZE,
{
    assert(n * 40 <= u64::MAX) by (nonlinear_arith)
        requires
            n <= 461_168_601_842_738_789u64,
    ;
    n * 40
}

impl Span {
    /// The bytes of `file` that this read fetches.
    pub open spec fn of(self, file: Seq<u8>) -> Seq<u8> {
        file.subrange(self.offset as int, self.offset + self.len)
    }
}

impl Patch {
    /// `file` after this write.
    pub open spec fn applied(self, file: Seq<u8>) -> Seq<u8> {
        written(file, self.offset as int, self.data@)
    }
}

impl AppendPlan {
    /// `file` after the writes of this plan, in their order.
    pub open spec fn applied(self, file: Seq<u8>) -> Seq<u8> {
        match self.header {
            Some(h) => h.applied(self.record.applied(file)),
            None => self.record.applied(file),
        }
    }

    /// Whether the file grows by a record. If not, the sample takes the
    /// place of the last record.
    pub fn appended(&self) -> (grew: bool)
        ensures
            grew == self.header.is_some(),
    {
        self.header.is_some()
    }
}

impl View for TrackFile {
    type V = TrackFileView;

    closed spec fn view(&self) -> TrackFileView {
        TrackFileView { path: self.path@, header: self.header }
    }
}

/// What an append returns, and the header that the handle has afterwards,
/// given the header before, the bytes of the last records and the sample.
pub open spec fn append_outcome(
    before: Header,
    tail: Seq<u8>,
    entry: TrackPoint,
    now: u64,
    r: Result<AppendPlan, TrackFileError>,
    after: Header,
) -> bool {
    let need = tail_count(before.count as int) * ENTRY_SIZE;
    let last = block_records(tail.subrange(0, need));
    if tail.len() < need {
        &&& r is Err
        &&& r->Err_0.is_insufficient("track entry"@, tail.len())
        &&& after == before
    } else if out_of_sequence(last, entry) {
        &&& r == Err::<AppendPlan, TrackFileError>(TrackFileError::SequenceError(entry.ts))
        &&& after == before
    } else if collapses(last, entry) {
        &&& r is Ok
        &&& r->Ok_0.record.offset == record_offset(before.count - 1)
        &&& r->Ok_0.record.data@ == entry.encoding()
        &&& r->Ok_0.header is None
        &&& after == before
    } else {
        &&& r is Ok
        &&& r->Ok_0.record.offset == record_offset(before.count as int)
        &&& r->Ok_0.record.data@ == entry.encoding()
        &&& r->Ok_0.header is Some
        &&& r->Ok_0.header->Some_0.offset == 0
        &&& r->Ok_0.header->Some_0.data@ == before.grown(now).encoding()
        &&& after == before.grown(now)
    }
}

impl TrackFile {
    #[verifier::type_invariant]
    spec fn inv(self) -> bool {
        &&& self.header.magic == HEADER_MAGIC_NUMBER
        &&& self.header.count <= MAX_ENTRIES
    }

    /// The bytes of a record.
    pub fn entry_size() -> (n: usize)
        ensures
            n == ENTRY_SIZE,
    {
        ENTRY_SIZE
    }

    /// The bytes of the header.
    pub fn header_size() -> (n: usize)
        ensures
            n == HEADER_SIZE,
    {
        HEADER_SIZE
    }

    /// A new file at `path`, stamped with the system time. The bytes are
    /// to be written at the start of the file that the host creates.
    pub fn create(path: &str) -> (r: (TrackFile, Vec<u8>))
        ensures
            r.0@.path == path@,
            r.0@.header.count == 0,
            r.1@ == r.0@.header.encoding(),
            TrackFile::created(r.0@.header),
    {
        TrackFile::create_at(path, to_unsigned64(system_millis()))
    }

    /// Whether `header` is that of a file just created.
    pub open spec fn created(header: Header) -> bool {
        header == Header::fresh(header.updated_at)
    }

    /// A new file at `path`, stamped with `now`.
    pub fn create_at(path: &str, now: u64) -> (r: (TrackFile, Vec<u8>))
        ensures
            r.0@.path == path@,
            r.0@.header == Header::fresh(now),
            r.1@ == Header::fresh(now).encoding(),
    {
        let header = Header::at(now);
        let image = header.encode();
        (TrackFile { path: path.to_owned(), header }, image)
    }

    /// Opens the file at `path`, of which the host read the first 32 bytes
    /// (fewer if the file is shorter) and the length. The magic number is
    /// checked first, then the length against the header's count.
    pub fn open(path: &str, head: &[u8], file_len: u64) -> (r: Result<TrackFile, TrackFileError>)
        ensures
            ({
                let h = Header::decoded(padded(head@, HEADER_SIZE as nat));
                let expected = record_offset(h.count as int);
                &&& h.magic != HEADER_MAGIC_NUMBER ==> r == Err::<TrackFile, TrackFileError>(
                    TrackFileError::InvalidMagicNumber,
                )
                &&& h.magic == HEADER_MAGIC_NUMBER && file_len != expected ==> r == Err::<
                    TrackFile,
                    TrackFileError,
                >(TrackFileError::InvalidFileLength(expected as u128, file_len))
                &&& h.magic == HEADER_MAGIC_NUMBER && file_len == expected ==> r is Ok
                    && r->Ok_0@.header == h && r->Ok_0@.path == path@
            }),
    {
        let image = pad(head, HEADER_SIZE);
        let header = match Header::decode(image.as_slice()) {
            Ok(h) => h,
            Err(e) => {
                return Err(e);
            },
        };
        if !header.check_magic() {
            return Err(TrackFileError::InvalidMagicNumber);
        }
        let expected: u128 = (header.count as u128) * (ENTRY_SIZE as u128) + (HEADER_SIZE as u128);
        if file_len as u128 != expected {
            return Err(TrackFileError::InvalidFileLength(expected, file_len));
        }
        Ok(TrackFile { path: path.to_owned(), header })
    }

    /// Opens the file at `path` if the host found one (`found` holds its
    /// first 32 bytes and its length), and makes a new one if not. With a
    /// new file come the bytes to write at its start.
    pub fn new(path: &str, found: Option<(&[u8], u64)>) -> (r: Result<
        (TrackFile, Option<Vec<u8>>),
        TrackFileError,
    >)
        ensures
            found is None ==> r is Ok && r->Ok_0.0@.path == path@ && TrackFile::created(
                r->Ok_0.0@.header,
            ) && r->Ok_0.1 is Some && r->Ok_0.1->Some_0@ == r->Ok_0.0@.header.encoding(),
            found matches Some(f) ==> ({
                let h = Header::decoded(padded(f.0@, HEADER_SIZE as nat));
                let expected = record_offset(h.count as int);
                &&& h.magic != HEADER_MAGIC_NUMBER ==> r is Err && r->Err_0
                    == TrackFileError::InvalidMagicNumber
                &&& h.magic == HEADER_MAGIC_NUMBER && f.1 != expected ==> r is Err && r->Err_0
                    == TrackFileError::InvalidFileLength(expected as u128, f.1)
                &&& h.magic == HEADER_MAGIC_NUMBER && f.1 == expected ==> r is Ok
                    && r->Ok_0.0@.header == h && r->Ok_0.0@.path == path@ && r->Ok_0.1 is None
            }),
    {
        match found {
            Some((head, file_len)) => {
                match TrackFile::open(path, head, file_len) {
                    Ok(tf) => Ok((tf, None)),
                    Err(e) => Err(e),
                }
            },
            None => {
                let (tf, image) = TrackFile::create(path);
                Ok((tf, Some(image)))
            },
        }
    }

    /// Where the file is.
    pub fn path(&self) -> (p: &str)
        ensures
            p@ == self@.path,
    {
        self.path.as_str()
    }

    /// The number of records.
    pub fn count(&self) -> (n: u64)
        ensures
            n == self@.header.count,
    {
        self.header.count
    }

    /// The header. It has the magic number, and a count that a file's
    /// length can hold.
    pub fn get_header(&self) -> (h: Header)
        ensures
            h == self@.header,
            h.magic == HEADER_MAGIC_NUMBER,
            h.count <= MAX_ENTRIES,
    {
        proof {
            use_type_invariant(self);
        }
        self.header
    }

    /// Whether the file can take one more record.
    pub fn has_room(&self) -> (b: bool)
        ensures
            b == (self@.header.count < MAX_ENTRIES),
    {
        self.header.count < MAX_ENTRIES
    }

    /// The read that fetches record `pos`. Fails with `IndexError(pos)` if
    /// and only if the file has no such record.
    pub fn read_at(&self, pos: usize) -> (r: Result<Span, TrackFileError>)
        ensures
            pos >= self@.header.count ==> r == Err::<Span, TrackFileError>(
                TrackFileError::IndexError(pos),
            ),
            pos < self@.header.count ==> r == Ok::<Span, TrackFileError>(
                (Span { offset: record_offset(pos as int) as u64, len: ENTRY_SIZE as u64 }),
            ),
            pos < self@.header.count ==> record_offset(pos + 1) <= u64::MAX,
    {
        proof {
            use_type_invariant(self);
        }
        if pos as u64 >= self.header.count {
            Err(TrackFileError::IndexError(pos))
        } else {
            Ok(Span { offset: offset_of(pos as u64), len: bytes_of(1) })
        }
    }

    /// The one read that fetches the records from `pos` on, `len` of them
    /// or as many as are left. `None` if there is none: then nothing is to
    /// be read.
    pub fn read_multiple_at(&self, pos: usize, len: usize) -> (r: Option<Span>)
        ensures
            r == range_span(self@.header.count as int, pos as int, len as int),
            r matches Some(s) ==> s.offset + s.len <= record_offset(self@.header.count as int)
                <= u64::MAX,
    {
        proof {
            use_type_invariant(self);
        }
        let count: u64 = self.header.count;
        if pos as u64 >= count {
            return None;
        }
        let left: u64 = count - pos as u64;
        let n: u64 = if len as u64 > left {
            left
        } else {
            len as u64
        };
        if n == 0 {
            None
        } else {
            Some(Span { offset: offset_of(pos as u64), len: bytes_of(n) })
        }
    }

    /// The one read that fetches every record: that of all records from the
    /// first on. `None` if the file has none.
    pub fn read_all(&self) -> (r: Option<Span>)
        ensures
            r == range_span(self@.header.count as int, 0, self@.header.count as int),
            r matches Some(s) ==> s.offset == HEADER_SIZE && s.offset + s.len == record_offset(
                self@.header.count as int,
            ),
    {
        proof {
            use_type_invariant(self);
        }
        let count: u64 = self.header.count;
        if count == 0 {
            None
        } else {
            Some(Span { offset: offset_of(0), len: bytes_of(count) })
        }
    }

    /// The read that fetches what decides an append: the last two records,
    /// or the only one. `None` if the file has none.
    pub fn tail(&self) -> (r: Option<Span>)
        ensures
            r == range_span(
                self@.header.count as int,
                self@.header.count - tail_count(self@.header.count as int),
                2,
            ),
    {
        proof {
            use_type_invariant(self);
        }
        let count: u64 = self.header.count;
        if count == 0 {
            None
        } else if count == 1 {
            Some(Span { offset: offset_of(0), len: bytes_of(1) })
        } else {
            Some(Span { offset: offset_of(count - 2), len: bytes_of(2) })
        }
    }

    /// The read that fetches what decides an append to a file of `file_len`
    /// bytes: the last two whole records, or the only one. For a file that
    /// opens, it is the read that [`TrackFile::tail`] names.
    pub fn tail_span(file_len: u64) -> (r: Option<Span>)
        ensures
            r == range_span(
                records_in(file_len as int),
                records_in(file_len as int) - tail_count(records_in(file_len as int)),
                2,
            ),
    {
        if file_len < HEADER_SIZE as u64 {
            return None;
        }
        let count: u64 = (file_len - 32) / 40;
        assert(count <= MAX_ENTRIES);
        assert(count == records_in(file_len as int));
        if count == 0 {
            None
        } else if count == 1 {
            Some(Span { offset: offset_of(0), len: bytes_of(1) })
        } else {
            Some(Span { offset: offset_of(count - 2), len: bytes_of(2) })
        }
    }

    /// The read that fetches every whole record of a file of `file_len`
    /// bytes. For a file that opens, it is the read that
    /// [`TrackFile::read_all`] names.
    pub fn body_span(file_len: u64) -> (r: Option<Span>)
        ensures
            r == range_span(records_in(file_len as int), 0, records_in(file_len as int)),
    {
        if file_len < HEADER_SIZE as u64 {
            return None;
        }
        let count: u64 = (file_len - 32) / 40;
        assert(count <= MAX_ENTRIES);
        assert(count == records_in(file_len as int));
        if count == 0 {
            None
        } else {
            Some(Span { offset: offset_of(0), len: bytes_of(count) })
        }
    }

    /// Decodes a run of whole records. Fails if and only if bytes are left
    /// over after the last whole record: they are too few for one more.
    pub fn decode_entries(data: &[u8]) -> (r: Result<Vec<TrackPoint>, TrackFileError>)
        ensures
            data@.len() % ENTRY_SIZE as nat == 0 ==> r is Ok && r->Ok_0@ == block_records(data@),
            data@.len() % ENTRY_SIZE as nat != 0 ==> r is Err && r->Err_0.is_insufficient(
                "track entry"@,
                data@.len() % ENTRY_SIZE as nat,
            ),
    {
        proof {
            axiom_spec_len(data);
        }
        let total: usize = data.len();
        let whole: usize = total / ENTRY_SIZE;
        let mut entries: Vec<TrackPoint> = Vec::new();
        let mut i: usize = 0;
        while i < whole
            invariant
                i <= whole,
                total == data@.len(),
                whole == total / ENTRY_SIZE,
                entries@.len() == i,
                forall|j: int|
                    0 <= j < i ==> entries@[j] == #[trigger] block_records(data@)[j],
            decreases whole - i,
        {
            let start: usize = i * ENTRY_SIZE;
            let chunk = slice_subrange(data, start, start + ENTRY_SIZE);
            match TrackPoint::decode(chunk) {
                Ok(p) => {
                    entries.push(p);
                },
                Err(e) => {
                    return Err(e);
                },
            }
            i = i + 1;
        }
        let rest: usize = total - whole * ENTRY_SIZE;
        if rest != 0 {
            let chunk = slice_subrange(data, whole * ENTRY_SIZE, total);
            match TrackPoint::decode(chunk) {
                Ok(_) => Ok(entries),
                Err(e) => Err(e),
            }
        } else {
            assert(entries@ =~= block_records(data@));
            Ok(entries)
        }
    }

    /// Adds `entry`, stamping the header with the system time if the file
    /// grows. See [`TrackFile::append_at`].
    pub fn append(&mut self, entry: &TrackPoint, tail: &[u8]) -> (r: Result<
        AppendPlan,
        TrackFileError,
    >)
        requires
            old(self)@.header.count < MAX_ENTRIES,
        ensures
            final(self)@.path == old(self)@.path,
            append_outcome(
                old(self)@.header,
                tail@,
                *entry,
                final(self)@.header.updated_at,
                r,
                final(self)@.header,
            ),
    {
        self.append_at(entry, tail, to_unsigned64(system_millis()))
    }

    /// Adds `entry` to the file, of which `tail` holds the bytes that
    /// [`TrackFile::tail`] names (nothing if it names no read).
    ///
    /// A sample older than the last record is refused with
    /// `SequenceError`. A sample value-equal to the last two records, which
    /// are value-equal, takes the place of the last record, and the header
    /// stays. Any other sample is written after the last record, and then
    /// the header, with one record more and stamped with `now`. A `tail`
    /// that is too short is refused as a decoder refuses it.
    pub fn append_at(&mut self, entry: &TrackPoint, tail: &[u8], now: u64) -> (r: Result<
        AppendPlan,
        TrackFileError,
    >)
        requires
            old(self)@.header.count < MAX_ENTRIES,
        ensures
            final(self)@.path == old(self)@.path,
            append_outcome(old(self)@.header, tail@, *entry, now, r, final(self)@.header),
    {
        proof {
            use_type_invariant(&*self);
            axiom_spec_len(tail);
        }
        let count: u64 = self.header.count;
        let need: usize = if count >= 2 {
            2 * ENTRY_SIZE
        } else if count == 1 {
            ENTRY_SIZE
        } else {
            0
        };
        if tail.len() < need {
            return Err(
                TrackFileError::InsufficientDataLength("track entry".to_owned(), tail.len()),
            );
        }
        let last = match TrackFile::decode_entries(slice_subrange(tail, 0, need)) {
            Ok(v) => v,
            Err(e) => {
                return Err(e);
            },
        };
        let n: usize = last.len();
        if n > 0 && last[n - 1].ts > entry.ts {
            return Err(TrackFileError::SequenceError(entry.ts));
        }
        let collapse: bool = n >= 2 && last[n - 1] == last[n - 2] && last[n - 2] == *entry;
        if collapse {
            let at: u64 = offset_of(count - 1);
            Ok(AppendPlan { record: Patch { offset: at, data: entry.encode() }, header: None })
        } else {
            let at: u64 = offset_of(count);
            let mut grown = self.header;
            grown.inc_at(now);
            self.header = grown;
            Ok(
                AppendPlan {
                    record: Patch { offset: at, data: entry.encode() },
                    header: Some(Patch { offset: 0, data: self.header.encode() }),
                },
            )
        }
    }

    /// Gives the handle up. What is returned is the path of the file, for
    /// the host to remove.
    pub fn destroy(self) -> (path: String)
        ensures
            path@ == self@.path,
    {
        self.path
    }
}

} // verus!
