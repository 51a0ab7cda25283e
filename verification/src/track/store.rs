//! The store: how a track is opened for an append or a read, what an
//! append asks of the host, what a reader is handed, and the counters.

use super::clock::system_millis;
use super::compact::{compact, compacted, deltas_fit};
use super::entry::{TrackPoint, TrackPointCompact, ENTRY_SIZE};
use super::error::{MetaFileError, TrackFileError};
use super::header::{Header, HEADER_MAGIC_NUMBER, HEADER_SIZE};
use super::interpolate::{interpolate_track, interpolated, Sample};
use super::layout::{padded, to_unsigned64};
use super::metafile::{MetaBlock, MetaFile, META_SIZE};
use super::shard::{directory_in, track_directory, track_path};
use super::trackfile::{
    append_outcome, block_records, bytes_of, record_offset, AppendPlan, TrackFile,
    TrackFileView, MAX_ENTRIES, MAX_FILE_LEN,
};
use crate::config::TrackConfig;
use vstd::prelude::*;
use vstd::string::StringExecFns;

verus! {

/// The store of tracks under one folder.
#[derive(Debug)]
pub struct TrackStore {
    folder: String,
    metafile: MetaFile,
}

/// What is known of a store.
pub struct TrackStoreView {
    pub folder: Seq<char>,
    pub metafile: Seq<char>,
}

impl View for TrackStore {
    type V = TrackStoreView;

    closed spec fn view(&self) -> TrackStoreView {
        TrackStoreView { folder: self.folder@, metafile: self.metafile@ }
    }
}

/// How a track's file was opened for an append.
#[derive(Debug)]
pub enum Opening {
    /// The file was there.
    Opened(TrackFile),
    /// No file was there. The host makes `directory` with the directories
    /// above it, creates the file and writes `header` at its start; the
    /// store then has one track more.
    Created { directory: String, file: TrackFile, header: Vec<u8> },
}

/// A file to make for a track that was not there.
#[derive(Debug)]
pub struct Creation {
    /// The directory of the file. The host makes it, with the directories
    /// above it.
    pub directory: String,
    /// The bytes to write at the start of the file once it is created.
    pub header: Vec<u8>,
}

/// What adding a sample to a track asks of the host, in this order: to make
/// the file if there is one to make, then to make the writes of the plan to
/// the track's file.
#[derive(Debug)]
pub struct StoreAppend {
    pub created: Option<Creation>,
    /// The track's file as it is once the writes are made.
    pub file: TrackFile,
    pub plan: AppendPlan,
}

/// How the counters file was found when the store was set up.
#[derive(Debug)]
pub enum MetaSetup {
    /// The file was there.
    Found(MetaFile),
    /// No file was there. The host creates it and writes `block` at its
    /// start, then counts the tracks and samples under the folder.
    Made { file: MetaFile, block: Vec<u8> },
}

/// What the track file rules made of the sample.
pub open spec fn plan_of(r: Result<StoreAppend, TrackFileError>) -> Result<
    AppendPlan,
    TrackFileError,
> {
    match r {
        Ok(a) => Ok(a.plan),
        Err(e) => Err(e),
    }
}

/// The time with which the append stamped the file, if it did.
pub open spec fn stamp_of(r: Result<StoreAppend, TrackFileError>) -> u64 {
    match r {
        Ok(a) => a.file@.header.updated_at,
        Err(_) => 0,
    }
}

/// Whether `r` is what adding `entry` at `now` gives for a track whose
/// file is open as `before`, with `tail` as the bytes of its last records:
/// what the track file rules make of it, for the same file.
pub open spec fn appends_to(
    before: TrackFileView,
    tail: Seq<u8>,
    entry: TrackPoint,
    now: u64,
    r: Result<StoreAppend, TrackFileError>,
) -> bool {
    &&& append_outcome(
        before.header,
        tail,
        entry,
        now,
        plan_of(r),
        match r {
            Ok(a) => a.file@.header,
            Err(_) => before.header,
        },
    )
    &&& r matches Ok(a) ==> a.file@.path == before.path
}

/// Whether `r` is what adding `entry` at `now` gives for a track that is
/// made first: the file is to be made in the track's directory with the
/// header of an empty file, and the sample is its first record.
pub open spec fn appends_to_new(
    folder: Seq<char>,
    track_id: Seq<char>,
    entry: TrackPoint,
    now: u64,
    r: Result<StoreAppend, TrackFileError>,
) -> bool {
    &&& r matches Ok(a)
    &&& a.created matches Some(c)
    &&& c.directory@ == track_directory(folder, track_id)
    &&& c.header@ == Header::fresh(now).encoding()
    &&& appends_to(
        (TrackFileView { path: track_path(folder, track_id), header: Header::fresh(now) }),
        Seq::empty(),
        entry,
        now,
        r,
    )
}

/// The samples later than `after`, in their order; all of them if there is
/// no `after`.
pub open spec fn retained(points: Seq<TrackPoint>, after: Option<i64>) -> Seq<TrackPoint> {
    match after {
        Some(t) => points.filter(|p: TrackPoint| p.ts > t),
        None => points,
    }
}

/// What a reader of a track is handed: the stored samples, resampled if
/// asked for, and of those the ones later than `after`.
pub open spec fn loaded(
    stored: Seq<TrackPoint>,
    interpolate: bool,
    samples: Seq<Option<Sample>>,
    after: Option<i64>,
) -> Seq<TrackPoint> {
    retained(
        if interpolate {
            interpolated(stored, samples)
        } else {
            stored
        },
        after,
    )
}

/// The counters after an append, from the counters before: one track more
/// if the append made the track's file, one record more if it added a
/// record, and nothing else changed.
pub open spec fn counted(block: MetaBlock, new_track: bool, new_point: bool) -> MetaBlock {
    MetaBlock {
        track_count: if new_track {
            (block.track_count + 1) as u64
        } else {
            block.track_count
        },
        point_count: if new_point {
            (block.point_count + 1) as u64
        } else {
            block.point_count
        },
        ..block
    }
}

/// Whether a counter that is to count one more cannot.
pub open spec fn counters_full(block: MetaBlock, new_track: bool, new_point: bool) -> bool {
    (new_track && block.track_count == u64::MAX) || (new_point && block.point_count == u64::MAX)
}

/// The number of files that could be opened and counted.
pub open spec fn tracks_in(counts: Seq<Option<u64>>) -> nat
    decreases counts.len(),
{
    if counts.len() == 0 {
        0
    } else {
        tracks_in(counts.drop_last()) + if counts.last() is Some {
            1nat
        } else {
            0nat
        }
    }
}

/// The number of records in the files that could be opened and counted.
pub open spec fn points_in(counts: Seq<Option<u64>>) -> nat
    decreases counts.len(),
{
    if counts.len() == 0 {
        0
    } else {
        points_in(counts.drop_last()) + match counts.last() {
            Some(n) => n as nat,
            None => 0nat,
        }
    }
}

impl StoreAppend {
    /// Whether the store has one track more.
    pub fn new_track(&self) -> (b: bool)
        ensures
            b == self.created.is_some(),
    {
        self.created.is_some()
    }

    /// Whether the store has one record more.
    pub fn new_point(&self) -> (b: bool)
        ensures
            b == self.plan.header.is_some(),
    {
        self.plan.appended()
    }
}

impl TrackStore {
    /// The path of the counters file of the store at `folder`.
    pub open spec fn meta_path_of(folder: Seq<char>) -> Seq<char> {
        folder + "/.meta"@
    }

    /// The path of the counters file of the store at `folder`.
    pub fn meta_path(folder: &str) -> (path: String)
        ensures
            path@ == TrackStore::meta_path_of(folder@),
    {
        String::from_str(folder).concat("/.meta")
    }

    /// The store at the folder that `cfg` names, with its counters file.
    pub fn new(cfg: &TrackConfig, metafile: MetaFile) -> (store: TrackStore)
        ensures
            store@.folder == cfg.folder@,
            store@.metafile == metafile@,
    {
        TrackStore { folder: cfg.folder.clone(), metafile }
    }

    /// The folder of the store.
    pub fn folder(&self) -> (f: &str)
        ensures
            f@ == self@.folder,
    {
        self.folder.as_str()
    }

    /// The counters file of the store.
    pub fn metafile(&self) -> (m: &MetaFile)
        ensures
            m@ == self@.metafile,
    {
        &self.metafile
    }

    /// The directory that holds the file of the track `track_id`: the
    /// folder, then one directory for each of the first two groups of three
    /// hexadecimal digits of the MD5 digest of the identifier.
    pub fn target_directory(&self, track_id: &str) -> (dir: String)
        ensures
            dir@ == track_directory(self@.folder, track_id@),
    {
        directory_in(self.folder.as_str(), track_id)
    }

    /// The path of the file of the track `track_id`: in its directory, the
    /// identifier followed by `.bin`.
    pub fn path_of(&self, track_id: &str) -> (path: String)
        ensures
            path@ == track_path(self@.folder, track_id@),
    {
        let mut path = self.target_directory(track_id);
        path.append("/");
        proof {
            reveal_strlit("/");
        }
        path.append(track_id);
        path.append(".bin");
        path
    }

    /// Opens the file of the track `track_id`, which the host tried to
    /// open at [`TrackStore::path_of`]: `found` holds the first 32 bytes
    /// of the file and its length, or the error with which the operating
    /// system refused.
    pub fn open(&self, track_id: &str, found: Result<(Vec<u8>, u64), std::io::Error>) -> (r:
        Result<TrackFile, TrackFileError>)
        ensures
            found matches Ok(f) ==> TrackStore::opens(
                track_path(self@.folder, track_id@),
                f.0@,
                f.1,
                r,
            ),
            found matches Err(err) ==> r is Err && (r->Err_0.is_not_found(
                track_path(self@.folder, track_id@),
            ) || r->Err_0 == TrackFileError::IOError(err)),
    {
        let path = self.path_of(track_id);
        match found {
            Ok((head, file_len)) => TrackFile::open(path.as_str(), head.as_slice(), file_len),
            Err(err) => Err(TrackFileError::on_open(err, path.as_str())),
        }
    }

    /// Whether `r` is what opening the file at `path` gives, of which the
    /// host read the first bytes `head` and the length `file_len`.
    pub open spec fn opens(
        path: Seq<char>,
        head: Seq<u8>,
        file_len: u64,
        r: Result<TrackFile, TrackFileError>,
    ) -> bool {
        let h = Header::decoded(padded(head, HEADER_SIZE as nat));
        let expected = record_offset(h.count as int);
        if h.magic != HEADER_MAGIC_NUMBER {
            r == Err::<TrackFile, TrackFileError>(TrackFileError::InvalidMagicNumber)
        } else if file_len != expected {
            r == Err::<TrackFile, TrackFileError>(
                TrackFileError::InvalidFileLength(expected as u128, file_len),
            )
        } else {
            r is Ok && r->Ok_0@.header == h && r->Ok_0@.path == path
        }
    }

    /// Settles how the track `track_id` is opened for an append, from what
    /// opening its file gave: as [`TrackStore::open_or_create_at`] does,
    /// at the system time.
    pub fn open_or_create(&self, track_id: &str, opened: Result<TrackFile, TrackFileError>) -> (r:
        Result<Opening, TrackFileError>)
        ensures
            opened matches Ok(tf) ==> r == Ok::<Opening, TrackFileError>(Opening::Opened(tf)),
            opened matches Err(e) ==> (if e is NotFound {
                &&& r matches Ok(Opening::Created { directory, file, header })
                &&& directory@ == track_directory(self@.folder, track_id@)
                &&& file@.path == track_path(self@.folder, track_id@)
                &&& TrackFile::created(file@.header)
                &&& header@ == file@.header.encoding()
            } else {
                r == Err::<Opening, TrackFileError>(e)
            }),
    {
        self.open_or_create_at(track_id, opened, to_unsigned64(system_millis()))
    }

    /// Settles how the track `track_id` is opened for an append, from what
    /// opening its file gave. A file that is there is used. A file that is
    /// not there is made, empty and stamped with `now`, in the track's
    /// directory. Any other error is handed on.
    pub fn open_or_create_at(
        &self,
        track_id: &str,
        opened: Result<TrackFile, TrackFileError>,
        now: u64,
    ) -> (r: Result<Opening, TrackFileError>)
        ensures
            opened matches Ok(tf) ==> r == Ok::<Opening, TrackFileError>(Opening::Opened(tf)),
            opened matches Err(e) ==> (if e is NotFound {
                &&& r matches Ok(Opening::Created { directory, file, header })
                &&& directory@ == track_directory(self@.folder, track_id@)
                &&& file@.path == track_path(self@.folder, track_id@)
                &&& file@.header == Header::fresh(now)
                &&& header@ == Header::fresh(now).encoding()
            } else {
                r == Err::<Opening, TrackFileError>(e)
            }),
    {
        match opened {
            Ok(tf) => Ok(Opening::Opened(tf)),
            Err(TrackFileError::NotFound(_)) => {
                let directory = self.target_directory(track_id);
                let path = self.path_of(track_id);
                let (file, header) = TrackFile::create_at(path.as_str(), now);
                Ok(Opening::Created { directory, file, header })
            },
            Err(e) => Err(e),
        }
    }

    /// Adds `entry` to the track `track_id`, stamping with the system time.
    ///
    /// The host tried to open the file at [`TrackStore::path_of`]; `found`
    /// holds the first 32 bytes of the file and its length, or the error
    /// with which the operating system refused, and `tail` the bytes that
    /// [`TrackFile::tail_span`] names for that length. What comes back is
    /// what the host is to do: see [`TrackStore::append_at`].
    pub fn append(
        &self,
        track_id: &str,
        entry: &TrackPoint,
        create_if_not_exist: bool,
        found: Result<(Vec<u8>, u64), std::io::Error>,
        tail: &[u8],
    ) -> (r: Result<StoreAppend, TrackFileError>)
        requires
            found matches Ok(f) ==> f.1 < MAX_FILE_LEN,
        ensures
            found matches Ok(f) ==> ({
                let h = Header::decoded(padded(f.0@, HEADER_SIZE as nat));
                if h.magic != HEADER_MAGIC_NUMBER {
                    r == Err::<StoreAppend, TrackFileError>(TrackFileError::InvalidMagicNumber)
                } else if f.1 != record_offset(h.count as int) {
                    r == Err::<StoreAppend, TrackFileError>(
                        TrackFileError::InvalidFileLength(
                            record_offset(h.count as int) as u128,
                            f.1,
                        ),
                    )
                } else {
                    &&& appends_to(
                        (TrackFileView { path: track_path(self@.folder, track_id@), header: h }),
                        tail@,
                        *entry,
                        stamp_of(r),
                        r,
                    )
                    &&& r matches Ok(a) ==> a.created is None
                }
            }),
            found matches Err(err) ==> {
                ||| r is Err && r->Err_0.is_not_found(track_path(self@.folder, track_id@))
                ||| r == Err::<StoreAppend, TrackFileError>(TrackFileError::IOError(err))
                ||| create_if_not_exist && appends_to_new(
                    self@.folder,
                    track_id@,
                    *entry,
                    stamp_of(r),
                    r,
                )
            },
    {
        let opened = self.open(track_id, found);
        self.append_at(
            track_id,
            entry,
            create_if_not_exist,
            opened,
            tail,
            to_unsigned64(system_millis()),
        )
    }

    /// Adds `entry` to the track `track_id` at the time `now`, given what
    /// opening the track's file gave and the bytes of its last records.
    ///
    /// A track that is there is appended to as [`TrackFile::append_at`]
    /// says. A track that is not there is refused with `NotFound`, unless
    /// it is to be made: then the host makes the directory, creates the
    /// file with the header handed back, and the sample becomes its first
    /// record. Any other error of opening is handed on. The store has one
    /// track more if the file was made, and one record more if the plan
    /// rewrites the header.
    pub fn append_at(
        &self,
        track_id: &str,
        entry: &TrackPoint,
        create_if_not_exist: bool,
        opened: Result<TrackFile, TrackFileError>,
        tail: &[u8],
        now: u64,
    ) -> (r: Result<StoreAppend, TrackFileError>)
        requires
            opened matches Ok(tf) ==> tf@.header.count < MAX_ENTRIES,
        ensures
            opened matches Ok(tf) ==> appends_to(tf@, tail@, *entry, now, r) && (r matches Ok(a)
                ==> a.created is None),
            opened matches Err(e) ==> (if create_if_not_exist && e is NotFound {
                appends_to_new(self@.folder, track_id@, *entry, now, r)
            } else {
                r == Err::<StoreAppend, TrackFileError>(e)
            }),
    {
        let opening = if create_if_not_exist {
            self.open_or_create_at(track_id, opened, now)
        } else {
            match opened {
                Ok(tf) => Ok(Opening::Opened(tf)),
                Err(e) => Err(e),
            }
        };
        match opening {
            Ok(Opening::Opened(tf)) => {
                let mut file = tf;
                match file.append_at(entry, tail, now) {
                    Ok(plan) => Ok(StoreAppend { created: None, file, plan }),
                    Err(e) => Err(e),
                }
            },
            Ok(Opening::Created { directory, file, header }) => {
                let mut file = file;
                let empty: Vec<u8> = Vec::new();
                assert(empty@.subrange(0, 0) =~= Seq::<u8>::empty().subrange(0, 0));
                match file.append_at(entry, empty.as_slice(), now) {
                    Ok(plan) => Ok(
                        StoreAppend { created: Some(Creation { directory, header }), file, plan },
                    ),
                    Err(e) => Err(e),
                }
            },
            Err(e) => Err(e),
        }
    }

    /// The samples of the track `track_id`, all of them. The host tried
    /// to open the file at [`TrackStore::path_of`]; `found` is as for
    /// [`TrackStore::open`], and `body` holds the bytes that
    /// [`TrackFile::body_span`] names for the length of the file. A file
    /// that does not open is refused as [`TrackStore::open`] says; a body
    /// that is not as long as the records that the header counts is
    /// refused as a decoder refuses it.
    pub fn read_all(
        &self,
        track_id: &str,
        found: Result<(Vec<u8>, u64), std::io::Error>,
        body: &[u8],
    ) -> (r: Result<Vec<TrackPoint>, TrackFileError>)
        ensures
            found matches Ok(f) ==> ({
                let h = Header::decoded(padded(f.0@, HEADER_SIZE as nat));
                if h.magic != HEADER_MAGIC_NUMBER {
                    r == Err::<Vec<TrackPoint>, TrackFileError>(
                        TrackFileError::InvalidMagicNumber,
                    )
                } else if f.1 != record_offset(h.count as int) {
                    r == Err::<Vec<TrackPoint>, TrackFileError>(
                        TrackFileError::InvalidFileLength(
                            record_offset(h.count as int) as u128,
                            f.1,
                        ),
                    )
                } else if body@.len() != h.count * ENTRY_SIZE {
                    r is Err && r->Err_0.is_insufficient("track entry"@, body@.len())
                } else {
                    r is Ok && r->Ok_0@ == block_records(body@)
                }
            }),
            found matches Err(err) ==> r is Err && (r->Err_0.is_not_found(
                track_path(self@.folder, track_id@),
            ) || r->Err_0 == TrackFileError::IOError(err)),
    {
        let file = match self.open(track_id, found) {
            Ok(file) => file,
            Err(e) => {
                return Err(e);
            },
        };
        proof {
            vstd::slice::axiom_spec_len(body);
        }
        let count: u64 = file.get_header().count;
        if body.len() as u64 != bytes_of(count) {
            return Err(
                TrackFileError::InsufficientDataLength("track entry".to_owned(), body.len()),
            );
        }
        TrackFile::decode_entries(body)
    }

    /// What a reader of a track is handed. `stored` are the samples of the
    /// file, all of them. If `interpolate` is set they are resampled, with
    /// `samples` as what the host read off the curves; then, if `after` is
    /// set, only the samples later than it are kept.
    pub fn load_track(
        stored: Vec<TrackPoint>,
        interpolate: bool,
        samples: &Vec<Option<Sample>>,
        after: Option<i64>,
    ) -> (out: Vec<TrackPoint>)
        ensures
            out@ == loaded(stored@, interpolate, samples@, after),
    {
        let points = if interpolate {
            interpolate_track(&stored, samples)
        } else {
            stored
        };
        match after {
            None => points,
            Some(t) => {
                let ghost keep = |p: TrackPoint| p.ts > t;
                let mut out: Vec<TrackPoint> = Vec::new();
                let mut i: usize = 0;
                proof {
                    reveal(Seq::filter);
                    assert(points@.take(0) =~= Seq::<TrackPoint>::empty());
                }
                while i < points.len()
                    invariant
                        i <= points@.len(),
                        keep == |p: TrackPoint| p.ts > t,
                        out@ == points@.take(i as int).filter(keep),
                    decreases points@.len() - i,
                {
                    proof {
                        reveal(Seq::filter);
                        assert(points@.take(i + 1).drop_last() =~= points@.take(i as int));
                    }
                    if points[i].ts > t {
                        out.push(points[i]);
                    }
                    i = i + 1;
                }
                assert(points@.take(i as int) =~= points@);
                out
            },
        }
    }

    /// What a reader of a track is handed, in compact form: that of
    /// [`TrackStore::load_track`]. There is none if and only if the time
    /// from some sample to the next does not fit in 64 bits.
    pub fn load_track_compact(
        stored: Vec<TrackPoint>,
        interpolate: bool,
        samples: &Vec<Option<Sample>>,
        after: Option<i64>,
    ) -> (r: Option<Vec<TrackPointCompact>>)
        ensures
            deltas_fit(loaded(stored@, interpolate, samples@, after)) ==> r is Some
                && r->Some_0@ == compacted(loaded(stored@, interpolate, samples@, after)),
            !deltas_fit(loaded(stored@, interpolate, samples@, after)) ==> r is None,
    {
        let points = TrackStore::load_track(stored, interpolate, samples, after);
        compact(&points)
    }

    /// The counters, from what the host read at the start of the counters
    /// file.
    pub fn get_metablock(&self, data: &[u8]) -> (r: Result<MetaBlock, MetaFileError>)
        ensures
            r == Ok::<MetaBlock, MetaFileError>(
                MetaBlock::decoded(padded(data@, META_SIZE as nat)),
            ),
    {
        self.metafile.read_block(data)
    }

    /// The bytes to write at the start of the counters file after a track
    /// was made, from what the host read there. There are none if the
    /// counter cannot count one more: then the file is left as it is.
    pub fn inc_track_count(&self, data: &[u8]) -> (r: Option<Vec<u8>>)
        ensures
            ({
                let block = MetaBlock::decoded(padded(data@, META_SIZE as nat));
                &&& block.track_count < u64::MAX ==> r is Some && r->Some_0@ == (MetaBlock {
                    track_count: (block.track_count + 1) as u64,
                    ..block
                }).encoding()
                &&& block.track_count == u64::MAX ==> r is None
            }),
    {
        match self.metafile.read_block(data) {
            Ok(block) => {
                if block.track_count < u64::MAX {
                    let next = MetaBlock { track_count: block.track_count + 1, ..block };
                    Some(self.metafile.write_block(&next))
                } else {
                    None
                }
            },
            Err(_) => None,
        }
    }

    /// The bytes to write at the start of the counters file after a record
    /// was added to a track, from what the host read there. There are none
    /// if the counter cannot count one more: then the file is left as it
    /// is.
    pub fn inc_point_count(&self, data: &[u8]) -> (r: Option<Vec<u8>>)
        ensures
            ({
                let block = MetaBlock::decoded(padded(data@, META_SIZE as nat));
                &&& block.point_count < u64::MAX ==> r is Some && r->Some_0@ == (MetaBlock {
                    point_count: (block.point_count + 1) as u64,
                    ..block
                }).encoding()
                &&& block.point_count == u64::MAX ==> r is None
            }),
    {
        match self.metafile.read_block(data) {
            Ok(block) => {
                if block.point_count < u64::MAX {
                    let next = MetaBlock { point_count: block.point_count + 1, ..block };
                    Some(self.metafile.write_block(&next))
                } else {
                    None
                }
            },
            Err(_) => None,
        }
    }

    /// The bytes to write at the start of the counters file once the writes
    /// of the append `done` are made, from what the host read there.
    ///
    /// The store counts one track more if and only if the append made the
    /// track's file, and one record more if and only if it added a record:
    /// a sample that took the place of the last record is not counted.
    /// Nothing else of the counters changes. There are no bytes if and only
    /// if a counter that is to count one more cannot: then the file is
    /// left as it is.
    pub fn counters_after(&self, done: &StoreAppend, data: &[u8]) -> (r: Option<Vec<u8>>)
        ensures
            ({
                let block = MetaBlock::decoded(padded(data@, META_SIZE as nat));
                let new_track = done.created is Some;
                let new_point = done.plan.header is Some;
                &&& counters_full(block, new_track, new_point) <==> r is None
                &&& r matches Some(bytes) ==> {
                    &&& bytes@ == counted(block, new_track, new_point).encoding()
                    &&& bytes@.len() == META_SIZE
                    &&& MetaBlock::decoded(bytes@) == counted(block, new_track, new_point)
                }
            }),
    {
        let ghost block = MetaBlock::decoded(padded(data@, META_SIZE as nat));
        let counted_tracks = if done.new_track() {
            match self.inc_track_count(data) {
                Some(bytes) => bytes,
                None => {
                    return None;
                },
            }
        } else {
            match self.metafile.read_block(data) {
                Ok(block) => self.metafile.write_block(&block),
                Err(_) => {
                    return None;
                },
            }
        };
        proof {
            let with_track = counted(block, done.created is Some, false);
            with_track.lemma_round_trip();
            assert(counted_tracks@ == with_track.encoding());
            assert(padded(counted_tracks@, META_SIZE as nat) =~= counted_tracks@);
            counted(block, done.created is Some, done.plan.header is Some).lemma_round_trip();
        }
        if done.new_point() {
            self.inc_point_count(counted_tracks.as_slice())
        } else {
            Some(counted_tracks)
        }
    }
}

/// Settles how the counters file of the store at `folder` is set up, from
/// what opening it gave. A file that is there is used. A file that is not
/// there is made, with no track and no sample and the system time. Any
/// other error is handed on.
pub fn setup_meta(folder: &str, opened: Result<MetaFile, MetaFileError>) -> (r: Result<
    MetaSetup,
    MetaFileError,
>)
    ensures
        opened matches Ok(mf) ==> r == Ok::<MetaSetup, MetaFileError>(MetaSetup::Found(mf)),
        opened matches Err(e) ==> (if e is NotFound {
            &&& r matches Ok(MetaSetup::Made { file, block })
            &&& file@ == TrackStore::meta_path_of(folder@)
            &&& block@.len() == META_SIZE
            &&& MetaBlock::decoded(block@).track_count == 0
            &&& MetaBlock::decoded(block@).point_count == 0
        } else {
            r == Err::<MetaSetup, MetaFileError>(e)
        }),
{
    match opened {
        Ok(mf) => Ok(MetaSetup::Found(mf)),
        Err(MetaFileError::NotFound(_)) => {
            let path = TrackStore::meta_path(folder);
            let (file, block) = MetaFile::create(path.as_str());
            Ok(MetaSetup::Made { file, block })
        },
        Err(e) => Err(e),
    }
}

/// Counts the tracks and the records of a store, from what the host found
/// when it walked the folder: for each file the number of records in its
/// header, or nothing if the file could not be opened as a track. There is
/// no count if and only if the records are too many for 64 bits.
pub fn inspect_trackfiles_meta(counts: &Vec<Option<u64>>) -> (r: Option<(u64, u64)>)
    ensures
        points_in(counts@) <= u64::MAX ==> r == Some(
            (tracks_in(counts@) as u64, points_in(counts@) as u64),
        ),
        points_in(counts@) > u64::MAX ==> r is None,
{
    let mut tracks_count: u64 = 0;
    let mut points_count: u64 = 0;
    let n: usize = counts.len();
    let mut i: usize = 0;
    proof {
        assert(counts@.take(0) =~= Seq::<Option<u64>>::empty());
    }
    while i < n
        invariant
            i <= n,
            n == counts@.len(),
            tracks_count == tracks_in(counts@.take(i as int)),
            tracks_count <= i,
            points_count == points_in(counts@.take(i as int)),
        decreases n - i,
    {
        proof {
            assert(counts@.take(i + 1).drop_last() =~= counts@.take(i as int));
        }
        match counts[i] {
            Some(c) => {
                points_count = match points_count.checked_add(c) {
                    Some(sum) => sum,
                    None => {
                        proof {
                            lemma_points_in_prefix(counts@, i + 1);
                        }
                        return None;
                    },
                };
                tracks_count = tracks_count + 1;
            },
            None => {},
        }
        i = i + 1;
    }
    assert(counts@.take(n as int) =~= counts@);
    Some((tracks_count, points_count))
}

/// The counters with the counts that walking the folder gave.
pub fn with_counts(block: MetaBlock, counted: (u64, u64)) -> (b: MetaBlock)
    ensures
        b == (MetaBlock { track_count: counted.0, point_count: counted.1, ..block }),
{
    MetaBlock { track_count: counted.0, point_count: counted.1, ..block }
}

/// The records of a part of the files are no more than those of all.
pub proof fn lemma_points_in_prefix(counts: Seq<Option<u64>>, k: int)
    requires
        0 <= k <= counts.len(),
    ensures
        points_in(counts.take(k)) <= points_in(counts),
    decreases counts.len(),
{
    if k == counts.len() {
        assert(counts.take(k) =~= counts);
    } else {
        lemma_points_in_prefix(counts.drop_last(), k);
        assert(counts.drop_last().take(k) =~= counts.take(k));
    }
}

} // verus!
