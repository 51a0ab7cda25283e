//! What the rules of a track file do to its bytes.
//!
//! A file is a sequence of bytes; a read fetches a run of it and a write
//! replaces a run of it or lengthens it. The theorems here follow a file
//! through the reads and writes that the track file rules name.

use super::entry::{TrackPoint, ENTRY_SIZE};
use super::error::TrackFileError;
use super::header::{Header, HEADER_SIZE};
use super::layout::padded;
use super::shard::track_path;
use super::store::{appends_to, appends_to_new, plan_of, StoreAppend};
use super::trackfile::{
    append_outcome, appended, block_records, clamped, collapses, file_header, out_of_sequence,
    range_span, record_offset, records, tail_count, well_formed, written, AppendPlan,
    TrackFileView, MAX_ENTRIES,
};
use vstd::prelude::*;

verus! {

/// The bytes that decide an append: the last two records of a well-formed
/// file, or its only one, or nothing.
pub open spec fn tail_of(file: Seq<u8>) -> Seq<u8> {
    let n = file_header(file).count as int;
    file.subrange(record_offset(n - tail_count(n)), file.len() as int)
}

/// Whether the timestamps never fall from one sample to the next.
pub open spec fn non_decreasing(points: Seq<TrackPoint>) -> bool {
    forall|i: int, j: int| 0 <= i <= j < points.len() ==> points[i].ts <= points[j].ts
}

/// The records of a part of a block are that part of the block's records.
pub proof fn lemma_block_part(block: Seq<u8>, from: int, to: int)
    requires
        0 <= from <= to,
        to * ENTRY_SIZE <= block.len(),
    ensures
        block_records(block.subrange(from * ENTRY_SIZE, to * ENTRY_SIZE)) == block_records(
            block,
        ).subrange(from, to),
{
    let part = block.subrange(from * ENTRY_SIZE, to * ENTRY_SIZE);
    assert(part.len() == (to - from) * 40);
    assert(part.len() / 40 == to - from);
    assert(block.len() / 40 >= to);
    assert forall|i: int| 0 <= i < to - from implies #[trigger] block_records(part)[i]
        == block_records(block)[from + i] by {
        assert(part.subrange(i * 40, i * 40 + 40) =~= block.subrange(
            (from + i) * 40,
            (from + i) * 40 + 40,
        ));
    }
    assert(block_records(part) =~= block_records(block).subrange(from, to));
}

/// A well-formed file holds as many records as its header counts, and is
/// at least a header long.
pub proof fn lemma_records_len(file: Seq<u8>)
    requires
        well_formed(file),
    ensures
        records(file).len() == file_header(file).count,
        file.len() >= HEADER_SIZE,
        padded(file, HEADER_SIZE as nat) == file.subrange(0, HEADER_SIZE as int),
{
    let n = file_header(file).count as int;
    let body = file.subrange(32, file.len() as int);
    assert(body.len() == n * 40);
    assert(body.len() / 40 == n);
    assert(padded(file, 32) =~= file.subrange(0, 32));
}

/// The first 32 bytes of a file, or all of it if it is shorter, say what
/// its header is: that is all that opening a file reads of it.
pub proof fn lemma_head_is_enough(file: Seq<u8>, head: Seq<u8>)
    requires
        head == if file.len() >= HEADER_SIZE {
            file.subrange(0, HEADER_SIZE as int)
        } else {
            file
        },
    ensures
        Header::decoded(padded(head, HEADER_SIZE as nat)) == file_header(file),
{
    assert(padded(head, 32) =~= padded(file, 32));
}

/// A range read on a well-formed file fetches whole records, and they are
/// the records of the range: from `pos` on, `len` of them or as many as
/// are left. Where no read is named, the range holds no record.
pub proof fn lemma_read_fetches_range(file: Seq<u8>, pos: int, len: int)
    requires
        well_formed(file),
        file_header(file).count <= MAX_ENTRIES,
        0 <= pos,
        0 <= len,
    ensures
        ({
            let n = file_header(file).count as int;
            let got = clamped(n, pos, len);
            match range_span(n, pos, len) {
                Some(s) => {
                    &&& pos + got <= n
                    &&& s.of(file).len() == got * ENTRY_SIZE
                    &&& block_records(s.of(file)) == records(file).subrange(pos, pos + got)
                },
                None => got == 0,
            }
        }),
{
    let n = file_header(file).count as int;
    let got = clamped(n, pos, len);
    lemma_records_len(file);
    if got > 0 {
        let s = range_span(n, pos, len)->Some_0;
        let body = file.subrange(32, file.len() as int);
        assert(record_offset(pos) + got * 40 <= record_offset(n));
        assert(s.offset == record_offset(pos));
        assert(s.len == got * 40);
        assert(s.of(file) =~= body.subrange(pos * 40, (pos + got) * 40));
        lemma_block_part(body, pos, pos + got);
    }
}

/// Reading all of a well-formed file fetches its records.
pub proof fn lemma_read_all_fetches_records(file: Seq<u8>)
    requires
        well_formed(file),
        file_header(file).count <= MAX_ENTRIES,
    ensures
        ({
            let n = file_header(file).count as int;
            match range_span(n, 0, n) {
                Some(s) => block_records(s.of(file)) == records(file),
                None => records(file) == Seq::<TrackPoint>::empty(),
            }
        }),
{
    let n = file_header(file).count as int;
    lemma_read_fetches_range(file, 0, n);
    lemma_records_len(file);
    assert(records(file).subrange(0, n) =~= records(file));
    if n == 0 {
        assert(records(file) =~= Seq::<TrackPoint>::empty());
    }
}

/// The tail of a well-formed file holds its last two records, or its only
/// one, and so decides an append as the whole file would.
pub proof fn lemma_tail_decides(file: Seq<u8>, entry: TrackPoint)
    requires
        well_formed(file),
    ensures
        ({
            let n = file_header(file).count as int;
            let k = tail_count(n);
            let last = block_records(tail_of(file).subrange(0, k * ENTRY_SIZE));
            &&& tail_of(file).len() == k * ENTRY_SIZE
            &&& last == records(file).subrange(n - k, n)
            &&& out_of_sequence(last, entry) == out_of_sequence(records(file), entry)
            &&& collapses(last, entry) == collapses(records(file), entry)
        }),
{
    let n = file_header(file).count as int;
    let k = tail_count(n);
    lemma_records_len(file);
    let body = file.subrange(32, file.len() as int);
    let tail = tail_of(file);
    assert(tail.len() == k * 40);
    assert(tail.subrange(0, k * 40) =~= body.subrange((n - k) * 40, n * 40));
    lemma_block_part(body, n - k, n);
    let last = block_records(tail.subrange(0, k * 40));
    let all = records(file);
    assert(last == all.subrange(n - k, n));
    assert(last.len() == k);
    if k > 0 {
        assert(last.last() == all.last());
    }
    if k >= 2 {
        assert(last[0] == all[n - 2]);
        assert(last[1] == all[n - 1]);
    }
}

/// A record written after the last one, and then the header with one more
/// record counted, leave a well-formed file with that record at its end.
pub proof fn lemma_extend(file: Seq<u8>, entry: TrackPoint, now: u64)
    requires
        well_formed(file),
        file_header(file).count < MAX_ENTRIES,
    ensures
        ({
            let h = file_header(file);
            let with_record = written(file, record_offset(h.count as int), entry.encoding());
            let after = written(with_record, 0, h.grown(now).encoding());
            &&& well_formed(after)
            &&& file_header(after) == h.grown(now)
            &&& records(after) == records(file).push(entry)
            &&& after.len() == file.len() + ENTRY_SIZE
        }),
{
    let h = file_header(file);
    let n = h.count as int;
    let grown = h.grown(now);
    let with_record = written(file, record_offset(n), entry.encoding());
    let after = written(with_record, 0, grown.encoding());
    lemma_records_len(file);
    entry.lemma_round_trip();
    grown.lemma_round_trip();
    assert(with_record.len() == file.len() + 40);
    assert(after.len() == file.len() + 40);
    assert(padded(after, 32) =~= grown.encoding());
    assert(grown.count == n + 1);
    let body = file.subrange(32, file.len() as int);
    let body_after = after.subrange(32, after.len() as int);
    assert(body_after =~= body + entry.encoding());
    assert(body_after.len() / 40 == n + 1);
    assert forall|i: int| 0 <= i < n + 1 implies #[trigger] block_records(body_after)[i]
        == records(file).push(entry)[i] by {
        if i < n {
            assert(body_after.subrange(i * 40, i * 40 + 40) =~= body.subrange(
                i * 40,
                i * 40 + 40,
            ));
        } else {
            assert(body_after.subrange(i * 40, i * 40 + 40) =~= entry.encoding());
        }
    }
    assert(records(after) =~= records(file).push(entry));
}

/// A record written over the last one leaves a well-formed file with the
/// same header, and with that record in the last one's place.
pub proof fn lemma_overwrite_last(file: Seq<u8>, entry: TrackPoint)
    requires
        well_formed(file),
        file_header(file).count >= 1,
    ensures
        ({
            let n = file_header(file).count as int;
            let after = written(file, record_offset(n - 1), entry.encoding());
            &&& well_formed(after)
            &&& file_header(after) == file_header(file)
            &&& records(after) == records(file).update(n - 1, entry)
            &&& after.len() == file.len()
        }),
{
    let h = file_header(file);
    let n = h.count as int;
    let after = written(file, record_offset(n - 1), entry.encoding());
    lemma_records_len(file);
    entry.lemma_round_trip();
    assert(after.len() == file.len());
    assert(padded(after, 32) =~= padded(file, 32));
    let body = file.subrange(32, file.len() as int);
    let body_after = after.subrange(32, after.len() as int);
    assert(body_after.len() / 40 == n);
    assert forall|i: int| 0 <= i < n implies #[trigger] block_records(body_after)[i] == records(
        file,
    ).update(n - 1, entry)[i] by {
        if i < n - 1 {
            assert(body_after.subrange(i * 40, i * 40 + 40) =~= body.subrange(
                i * 40,
                i * 40 + 40,
            ));
        } else {
            assert(body_after.subrange(i * 40, i * 40 + 40) =~= entry.encoding());
        }
    }
    assert(records(after) =~= records(file).update(n - 1, entry));
}

/// What an append does to a well-formed file, given that it was handed
/// the file's header and tail.
///
/// The sample is refused if and only if it is older than the last record,
/// and then with `SequenceError`. Otherwise the writes of the plan, made
/// in their order, leave a well-formed file with the header that the
/// handle has: its length is that of the header and of the records it
/// counts. The last record is replaced if and only if the file had two
/// records, value-equal to each other and to the sample; then the count
/// stays. Otherwise the sample is the one record more.
pub proof fn lemma_append_on_file(
    file: Seq<u8>,
    entry: TrackPoint,
    now: u64,
    r: Result<AppendPlan, TrackFileError>,
    after_header: Header,
)
    requires
        well_formed(file),
        file_header(file).count < MAX_ENTRIES,
        append_outcome(file_header(file), tail_of(file), entry, now, r, after_header),
    ensures
        r is Err <==> out_of_sequence(records(file), entry),
        r is Err ==> r == Err::<AppendPlan, TrackFileError>(
            TrackFileError::SequenceError(entry.ts),
        ) && after_header == file_header(file),
        r is Ok ==> ({
            let after = r->Ok_0.applied(file);
            &&& well_formed(after)
            &&& after.len() == HEADER_SIZE + file_header(after).count * ENTRY_SIZE
            &&& file_header(after) == after_header
            &&& records(after) == appended(records(file), entry)
            &&& (r->Ok_0.header is None <==> collapses(records(file), entry))
            &&& collapses(records(file), entry) ==> file_header(after).count == file_header(
                file,
            ).count && records(after).last().ts == entry.ts
            &&& !collapses(records(file), entry) ==> file_header(after).count == file_header(
                file,
            ).count + 1 && records(after).last() == entry
        }),
{
    lemma_tail_decides(file, entry);
    lemma_records_len(file);
    if out_of_sequence(records(file), entry) {
    } else if collapses(records(file), entry) {
        lemma_overwrite_last(file, entry);
    } else {
        lemma_extend(file, entry, now);
    }
}

/// What is left if the host stops between the two writes of an append
/// that grows the file: the record is written, the header is not.
///
/// The file then is as before with the record after its end. A reader
/// that goes by the header finds the records from before, each as it was.
/// The file does not open any more: it is longer by a record than its
/// header says, and opening it reports that.
pub proof fn lemma_stop_between_writes(
    file: Seq<u8>,
    entry: TrackPoint,
    now: u64,
    r: Result<AppendPlan, TrackFileError>,
    after_header: Header,
)
    requires
        well_formed(file),
        file_header(file).count < MAX_ENTRIES,
        append_outcome(file_header(file), tail_of(file), entry, now, r, after_header),
        r is Ok,
        r->Ok_0.header is Some,
    ensures
        ({
            let between = r->Ok_0.record.applied(file);
            let n = file_header(file).count as int;
            &&& between == file + entry.encoding()
            &&& file_header(between) == file_header(file)
            &&& between.len() == record_offset(n) + ENTRY_SIZE
            &&& !well_formed(between)
            &&& block_records(between.subrange(HEADER_SIZE as int, record_offset(n))) == records(
                file,
            )
        }),
{
    let n = file_header(file).count as int;
    lemma_tail_decides(file, entry);
    lemma_records_len(file);
    entry.lemma_round_trip();
    let between = r->Ok_0.record.applied(file);
    assert(between =~= file + entry.encoding());
    assert(padded(between, 32) =~= padded(file, 32));
    assert(between.subrange(32, record_offset(n)) =~= file.subrange(32, file.len() as int));
}

/// What an append through the store does to a well-formed file, given
/// that the store was handed the file's header and tail: what the track
/// file rules do, for the store hands the sample on to them. The plan
/// rewrites the header, which is when the store counts a record more, if
/// and only if the file then counts a record more.
pub proof fn lemma_store_append_on_file(
    file: Seq<u8>,
    path: Seq<char>,
    entry: TrackPoint,
    now: u64,
    r: Result<StoreAppend, TrackFileError>,
)
    requires
        well_formed(file),
        file_header(file).count < MAX_ENTRIES,
        appends_to(
            (TrackFileView { path, header: file_header(file) }),
            tail_of(file),
            entry,
            now,
            r,
        ),
    ensures
        r is Err <==> out_of_sequence(records(file), entry),
        r is Err ==> r == Err::<StoreAppend, TrackFileError>(
            TrackFileError::SequenceError(entry.ts),
        ),
        r is Ok ==> ({
            let after = r->Ok_0.plan.applied(file);
            &&& well_formed(after)
            &&& after.len() == HEADER_SIZE + file_header(after).count * ENTRY_SIZE
            &&& file_header(after) == r->Ok_0.file@.header
            &&& records(after) == appended(records(file), entry)
            &&& (r->Ok_0.plan.header is Some <==> !collapses(records(file), entry))
            &&& (r->Ok_0.plan.header is Some <==> file_header(after).count == file_header(
                file,
            ).count + 1)
            &&& (r->Ok_0.plan.header is None <==> file_header(after).count == file_header(
                file,
            ).count)
        }),
{
    let after_header = match r {
        Ok(a) => a.file@.header,
        Err(_) => file_header(file),
    };
    lemma_append_on_file(file, entry, now, plan_of(r), after_header);
}

/// A track that is made by an append holds that one sample: the file with
/// the header that is handed back, after the writes of the plan, is the
/// header and the record of the sample, 72 bytes.
pub proof fn lemma_store_append_on_new_track(
    folder: Seq<char>,
    track_id: Seq<char>,
    entry: TrackPoint,
    now: u64,
    r: Result<StoreAppend, TrackFileError>,
)
    requires
        appends_to_new(folder, track_id, entry, now, r),
    ensures
        ({
            let made = r->Ok_0.created->Some_0.header@;
            let after = r->Ok_0.plan.applied(made);
            &&& well_formed(made)
            &&& records(made) == Seq::<TrackPoint>::empty()
            &&& well_formed(after)
            &&& after.len() == HEADER_SIZE + ENTRY_SIZE
            &&& file_header(after) == r->Ok_0.file@.header
            &&& records(after) == seq![entry]
            &&& r->Ok_0.plan.header is Some
        }),
{
    let made = Header::fresh(now).encoding();
    Header::fresh(now).lemma_round_trip();
    assert(padded(made, 32) =~= made);
    assert(well_formed(made));
    lemma_records_len(made);
    assert(records(made) =~= Seq::<TrackPoint>::empty());
    assert(tail_of(made) =~= Seq::<u8>::empty());
    lemma_store_append_on_file(made, track_path(folder, track_id), entry, now, r);
    assert(!collapses(records(made), entry));
    assert(records(made).push(entry) =~= seq![entry]);
}

/// A sample that takes the last record's place leaves as many records,
/// the last of them with the sample's timestamp; any other accepted
/// sample is one record more.
pub proof fn lemma_appended_shape(stored: Seq<TrackPoint>, entry: TrackPoint)
    ensures
        collapses(stored, entry) ==> appended(stored, entry).len() == stored.len() && appended(
            stored,
            entry,
        ).last() == entry && appended(stored, entry).drop_last() == stored.drop_last(),
        !collapses(stored, entry) ==> appended(stored, entry).len() == stored.len() + 1
            && appended(stored, entry).last() == entry && appended(stored, entry).drop_last()
            == stored,
{
    if collapses(stored, entry) {
        assert(appended(stored, entry).drop_last() =~= stored.drop_last());
    } else {
        assert(appended(stored, entry).drop_last() =~= stored);
    }
}

/// Timestamps that never fell still never fall after an accepted sample.
pub proof fn lemma_appended_keeps_order(stored: Seq<TrackPoint>, entry: TrackPoint)
    requires
        non_decreasing(stored),
        !out_of_sequence(stored, entry),
    ensures
        non_decreasing(appended(stored, entry)),
{
}

/// A well-formed file after the writes that add `entry` at `now`, for a
/// sample that is accepted.
pub open spec fn file_after(file: Seq<u8>, entry: TrackPoint, now: u64) -> Seq<u8> {
    let h = file_header(file);
    if collapses(records(file), entry) {
        written(file, record_offset(h.count - 1), entry.encoding())
    } else {
        written(
            written(file, record_offset(h.count as int), entry.encoding()),
            0,
            h.grown(now).encoding(),
        )
    }
}

/// A file after `entries` were added one after the other, the sample `i`
/// at the time `stamp(i)`.
pub open spec fn file_after_all(
    file: Seq<u8>,
    entries: Seq<TrackPoint>,
    stamp: spec_fn(int) -> u64,
) -> Seq<u8>
    decreases entries.len(),
{
    if entries.len() == 0 {
        file
    } else {
        file_after(
            file_after_all(file, entries.drop_last(), stamp),
            entries.last(),
            stamp(entries.len() - 1),
        )
    }
}

/// The samples of a file that held `stored` after `entries` were accepted
/// one after the other.
pub open spec fn appended_all(stored: Seq<TrackPoint>, entries: Seq<TrackPoint>) -> Seq<
    TrackPoint,
>
    decreases entries.len(),
{
    if entries.len() == 0 {
        stored
    } else {
        appended(appended_all(stored, entries.drop_last()), entries.last())
    }
}

/// Whether no three samples in a row are value-equal.
pub open spec fn no_run_of_three(entries: Seq<TrackPoint>) -> bool {
    forall|i: int|
        2 <= i < entries.len() ==> !(#[trigger] entries[i - 2].same_values(entries[i - 1])
            && entries[i].same_values(entries[i - 2]) && entries[i].same_values(entries[i - 1]))
}

/// The writes of an accepted append make the file that `file_after`
/// describes.
pub proof fn lemma_plan_makes_file_after(
    file: Seq<u8>,
    entry: TrackPoint,
    now: u64,
    r: Result<AppendPlan, TrackFileError>,
    after_header: Header,
)
    requires
        well_formed(file),
        file_header(file).count < MAX_ENTRIES,
        append_outcome(file_header(file), tail_of(file), entry, now, r, after_header),
        r is Ok,
    ensures
        r->Ok_0.applied(file) == file_after(file, entry, now),
{
    lemma_tail_decides(file, entry);
}

/// Samples whose timestamps never fall, added one after the other to a
/// new file, are all accepted, and reading the file gives them back in
/// their order, but that a run of value-equal samples is held as its first
/// and its last. After each of them the file is as long as its header and
/// the records it counts.
pub proof fn lemma_appends_read_back(
    created: u64,
    entries: Seq<TrackPoint>,
    stamp: spec_fn(int) -> u64,
)
    requires
        non_decreasing(entries),
        entries.len() <= MAX_ENTRIES,
    ensures
        ({
            let file = file_after_all(Header::fresh(created).encoding(), entries, stamp);
            &&& well_formed(file)
            &&& file.len() == HEADER_SIZE + file_header(file).count * ENTRY_SIZE
            &&& file_header(file).count <= entries.len()
            &&& records(file) == appended_all(Seq::empty(), entries)
            &&& non_decreasing(records(file))
            &&& entries.len() > 0 ==> records(file).len() > 0 && records(file).last()
                == entries.last()
            &&& match range_span(
                file_header(file).count as int,
                0,
                file_header(file).count as int,
            ) {
                Some(s) => block_records(s.of(file)) == appended_all(Seq::empty(), entries),
                None => appended_all(Seq::empty(), entries) == Seq::<TrackPoint>::empty(),
            }
        }),
        forall|k: int|
            0 <= k < entries.len() ==> !out_of_sequence(
                #[trigger] records(
                    file_after_all(Header::fresh(created).encoding(), entries.take(k), stamp),
                ),
                entries[k],
            ),
    decreases entries.len(),
{
    let new_file = Header::fresh(created).encoding();
    if entries.len() == 0 {
        Header::fresh(created).lemma_round_trip();
        assert(padded(new_file, 32) =~= new_file);
        assert(well_formed(new_file));
        lemma_records_len(new_file);
        assert(records(new_file) =~= Seq::<TrackPoint>::empty());
        lemma_read_all_fetches_records(new_file);
    } else {
        let n = entries.len() as int;
        let before = entries.drop_last();
        let entry = entries.last();
        lemma_appends_read_back(created, before, stamp);
        let file = file_after_all(new_file, before, stamp);
        let stored = records(file);
        assert(!out_of_sequence(stored, entry)) by {
            if before.len() > 0 {
                assert(stored.last() == before.last());
                assert(before.last() == entries[n - 2]);
            }
        }
        lemma_records_len(file);
        if collapses(stored, entry) {
            lemma_overwrite_last(file, entry);
        } else {
            lemma_extend(file, entry, stamp(n - 1));
        }
        lemma_appended_keeps_order(stored, entry);
        lemma_appended_shape(stored, entry);
        lemma_read_all_fetches_records(file_after_all(new_file, entries, stamp));
        assert forall|k: int| 0 <= k < entries.len() implies !out_of_sequence(
            #[trigger] records(file_after_all(new_file, entries.take(k), stamp)),
            entries[k],
        ) by {
            if k < n - 1 {
                assert(entries.take(k) =~= before.take(k));
                assert(entries[k] == before[k]);
            } else {
                assert(entries.take(k) =~= before);
            }
        }
    }
}

/// Where no three samples in a row are value-equal, the file holds the
/// samples that were added, each of them.
pub proof fn lemma_appended_all_without_runs(entries: Seq<TrackPoint>)
    requires
        no_run_of_three(entries),
    ensures
        appended_all(Seq::empty(), entries) == entries,
    decreases entries.len(),
{
    if entries.len() == 0 {
    } else {
        let n = entries.len() as int;
        let before = entries.drop_last();
        assert(no_run_of_three(before)) by {
            assert forall|i: int| 2 <= i < before.len() implies !(#[trigger] before[i
                - 2].same_values(before[i - 1]) && before[i].same_values(before[i - 2])
                && before[i].same_values(before[i - 1])) by {
                assert(before[i - 2] == entries[i - 2]);
                assert(before[i - 1] == entries[i - 1]);
                assert(before[i] == entries[i]);
            }
        }
        lemma_appended_all_without_runs(before);
        if n >= 3 {
            assert(before[n - 3] == entries[n - 1 - 2]);
            assert(before[n - 2] == entries[n - 1 - 1]);
            assert(entries[n - 1 - 2].same_values(entries[n - 1 - 1]) ==> !(entries[n
                - 1].same_values(entries[n - 1 - 2]) && entries[n - 1].same_values(
                entries[n - 1 - 1],
            )));
        }
        assert(!collapses(before, entries.last()));
        assert(before.push(entries.last()) =~= entries);
    }
}

} // verus!
