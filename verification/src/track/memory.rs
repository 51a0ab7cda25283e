//! A track file held in memory.
//!
//! Here the reads and writes that the track file rules name are made on a
//! vector of bytes. It is the host for a file that is held whole, and it
//! shows the rules at work from end to end: what is stated of a file's
//! bytes holds of the bytes that the functions leave.

use super::entry::{TrackPoint, ENTRY_SIZE};
use super::error::TrackFileError;
use super::file_proofs::{
    file_after, lemma_append_on_file, lemma_plan_makes_file_after, lemma_read_fetches_range,
    lemma_records_len, lemma_tail_decides, tail_of,
};
use super::header::{HEADER_MAGIC_NUMBER, HEADER_SIZE};
use super::layout::padded;
use super::trackfile::{
    appended, block_records, collapses, file_header, out_of_sequence, range_span, record_offset,
    records, tail_count, well_formed, Patch, Span, TrackFile, MAX_ENTRIES,
};
use vstd::prelude::*;
use vstd::slice::*;

verus! {

/// What a read fetches of a file: the bytes of the span, or fewer where the
/// file ends before the span does.
pub open spec fn fetched(file: Seq<u8>, span: Option<Span>) -> Seq<u8> {
    match span {
        None => Seq::empty(),
        Some(s) => {
            let from = if s.offset <= file.len() {
                s.offset as int
            } else {
                file.len() as int
            };
            let to = if s.offset + s.len <= file.len() {
                s.offset + s.len
            } else {
                file.len() as int
            };
            file.subrange(from, to)
        },
    }
}

/// Whether opening a file fails, and with what.
pub open spec fn refused(file: Seq<u8>, e: TrackFileError) -> bool {
    if file_header(file).magic != HEADER_MAGIC_NUMBER {
        e == TrackFileError::InvalidMagicNumber
    } else {
        e == TrackFileError::InvalidFileLength(
            record_offset(file_header(file).count as int) as u128,
            file.len() as u64,
        )
    }
}

/// Makes a read on a file held in memory.
pub fn read_span(file: &[u8], span: Option<Span>) -> (out: Vec<u8>)
    ensures
        out@ == fetched(file@, span),
{
    proof {
        axiom_spec_len(file);
    }
    match span {
        None => Vec::new(),
        Some(s) => {
            let len: usize = file.len();
            let from: usize = if s.offset <= len as u64 {
                s.offset as usize
            } else {
                len
            };
            let to: usize = if s.len <= len as u64 && s.offset <= len as u64 - s.len {
                (s.offset + s.len) as usize
            } else {
                len
            };
            slice_to_vec(slice_subrange(file, from, to))
        },
    }
}

/// Makes a write on a file held in memory.
pub fn write_patch(file: &mut Vec<u8>, patch: &Patch)
    requires
        patch.offset + patch.data@.len() <= usize::MAX,
    ensures
        final(file)@ == patch.applied(old(file)@),
{
    let offset: usize = patch.offset as usize;
    let end: usize = offset + patch.data.len();
    let len: usize = if file.len() >= end {
        file.len()
    } else {
        end
    };
    let mut out: Vec<u8> = Vec::new();
    let mut i: usize = 0;
    while i < len
        invariant
            i <= len,
            offset == patch.offset,
            end == offset + patch.data@.len(),
            len == patch.applied(file@).len(),
            out@ == patch.applied(file@).subrange(0, i as int),
        decreases len - i,
    {
        let byte: u8 = if offset <= i && i < end {
            patch.data[i - offset]
        } else if i < file.len() {
            file[i]
        } else {
            0u8
        };
        out.push(byte);
        assert(out@ =~= patch.applied(file@).subrange(0, i + 1));
        i = i + 1;
    }
    assert(out@ =~= patch.applied(file@));
    *file = out;
}

/// Opens a file held in memory. It opens if and only if it is well-formed.
pub fn open(path: &str, file: &[u8]) -> (r: Result<TrackFile, TrackFileError>)
    ensures
        well_formed(file@) ==> r is Ok && r->Ok_0@.header == file_header(file@) && r->Ok_0@.path
            == path@,
        !well_formed(file@) ==> r is Err && refused(file@, r->Err_0),
{
    proof {
        axiom_spec_len(file);
    }
    let head = read_span(file, Some(Span { offset: 0, len: HEADER_SIZE as u64 }));
    assert(padded(head@, HEADER_SIZE as nat) =~= padded(file@, HEADER_SIZE as nat));
    TrackFile::open(path, head.as_slice(), file.len() as u64)
}

/// The samples of a file held in memory: all that a well-formed file
/// holds, in their order.
pub fn read_all(path: &str, file: &[u8]) -> (r: Result<Vec<TrackPoint>, TrackFileError>)
    ensures
        well_formed(file@) ==> r is Ok && r->Ok_0@ == records(file@),
        !well_formed(file@) ==> r is Err && refused(file@, r->Err_0),
{
    let tf = match open(path, file) {
        Ok(tf) => tf,
        Err(e) => {
            return Err(e);
        },
    };
    proof {
        axiom_spec_len(file);
        let n = file_header(file@).count as int;
        lemma_read_fetches_range(file@, 0, n);
        lemma_records_len(file@);
        assert(records(file@).subrange(0, n) =~= records(file@));
        if n == 0 {
            assert(block_records(Seq::<u8>::empty()) =~= records(file@));
        }
    }
    let body = read_span(file, tf.read_all());
    TrackFile::decode_entries(body.as_slice())
}

/// The range of samples of a file held in memory: from `pos` on, `len` of
/// them or as many as are left.
pub fn read_multiple_at(path: &str, file: &[u8], pos: usize, len: usize) -> (r: Result<
    Vec<TrackPoint>,
    TrackFileError,
>)
    ensures
        well_formed(file@) ==> r is Ok && r->Ok_0@ == records(file@).subrange(
            if pos <= records(file@).len() {
                pos as int
            } else {
                records(file@).len() as int
            },
            if pos + len <= records(file@).len() {
                pos + len
            } else {
                records(file@).len() as int
            },
        ),
        !well_formed(file@) ==> r is Err && refused(file@, r->Err_0),
{
    let tf = match open(path, file) {
        Ok(tf) => tf,
        Err(e) => {
            return Err(e);
        },
    };
    proof {
        axiom_spec_len(file);
        lemma_read_fetches_range(file@, pos as int, len as int);
        lemma_records_len(file@);
    }
    let block = read_span(file, tf.read_multiple_at(pos, len));
    let r = TrackFile::decode_entries(block.as_slice());
    proof {
        let n = records(file@).len() as int;
        if range_span(n, pos as int, len as int) is None {
            assert(block_records(Seq::<u8>::empty()) =~= records(file@).subrange(
                if pos <= n {
                    pos as int
                } else {
                    n
                },
                if pos + len <= n {
                    pos + len
                } else {
                    n
                },
            ));
        }
    }
    r
}

/// One sample of a file held in memory. Fails with `IndexError(pos)` if
/// and only if the file is well-formed and has no record `pos`.
pub fn read_at(path: &str, file: &[u8], pos: usize) -> (r: Result<TrackPoint, TrackFileError>)
    ensures
        well_formed(file@) && pos < records(file@).len() ==> r == Ok::<
            TrackPoint,
            TrackFileError,
        >(records(file@)[pos as int]),
        well_formed(file@) && pos >= records(file@).len() ==> r == Err::<
            TrackPoint,
            TrackFileError,
        >(TrackFileError::IndexError(pos)),
        !well_formed(file@) ==> r is Err && refused(file@, r->Err_0),
{
    let tf = match open(path, file) {
        Ok(tf) => tf,
        Err(e) => {
            return Err(e);
        },
    };
    proof {
        axiom_spec_len(file);
        lemma_records_len(file@);
    }
    let span = match tf.read_at(pos) {
        Ok(span) => span,
        Err(e) => {
            return Err(e);
        },
    };
    proof {
        lemma_read_fetches_range(file@, pos as int, 1);
        assert(range_span(file_header(file@).count as int, pos as int, 1) == Some(span));
        assert(block_records(span.of(file@))[0] == records(file@)[pos as int]);
        assert(span.of(file@).subrange(0, 40) =~= span.of(file@));
    }
    let bytes = read_span(file, Some(span));
    TrackPoint::decode(bytes.as_slice())
}

/// Adds `entry` to a file held in memory, at the time `now`. What comes
/// back says whether the file grew by a record.
///
/// A file that is not well-formed is refused as it is on opening, and an
/// older sample with `SequenceError`; the file is then as before.
/// Otherwise the file is well-formed afterwards, and its samples are those
/// from before with `entry` after them, or in the place of the last of
/// them if the last two and `entry` are value-equal.
pub fn append(path: &str, file: &mut Vec<u8>, entry: &TrackPoint, now: u64) -> (r: Result<
    bool,
    TrackFileError,
>)
    requires
        old(file)@.len() + ENTRY_SIZE <= usize::MAX,
    ensures
        !well_formed(old(file)@) ==> r is Err && refused(old(file)@, r->Err_0) && final(file)@
            == old(file)@,
        well_formed(old(file)@) && out_of_sequence(records(old(file)@), *entry) ==> r == Err::<
            bool,
            TrackFileError,
        >(TrackFileError::SequenceError(entry.ts)) && final(file)@ == old(file)@,
        well_formed(old(file)@) && !out_of_sequence(records(old(file)@), *entry) ==> {
            &&& r == Ok::<bool, TrackFileError>(!collapses(records(old(file)@), *entry))
            &&& final(file)@ == file_after(old(file)@, *entry, now)
            &&& well_formed(final(file)@)
            &&& final(file)@.len() == HEADER_SIZE + file_header(final(file)@).count * ENTRY_SIZE
            &&& records(final(file)@) == appended(records(old(file)@), *entry)
        },
{
    let mut tf = match open(path, file.as_slice()) {
        Ok(tf) => tf,
        Err(e) => {
            return Err(e);
        },
    };
    let ghost before = file@;
    proof {
        let n = file_header(before).count as int;
        lemma_records_len(before);
        lemma_tail_decides(before, *entry);
        lemma_read_fetches_range(before, n - tail_count(n), 2);
        assert(n < MAX_ENTRIES);
    }
    let tail = read_span(file.as_slice(), tf.tail());
    assert(tail@ =~= tail_of(before));
    let r = tf.append_at(entry, tail.as_slice(), now);
    proof {
        lemma_append_on_file(before, *entry, now, r, tf@.header);
    }
    match r {
        Err(e) => Err(e),
        Ok(plan) => {
            proof {
                lemma_plan_makes_file_after(before, *entry, now, Ok(plan), tf@.header);
            }
            write_patch(file, &plan.record);
            match &plan.header {
                Some(h) => {
                    write_patch(file, h);
                },
                None => {},
            }
            Ok(plan.appended())
        },
    }
}

} // verus!
