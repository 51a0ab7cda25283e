//! The counters file: how many tracks and samples the store holds.
//!
//! It saves a reader of the counters from walking the whole store. Its 24
//! bytes are three 64-bit numbers, least significant byte first.

use super::clock::system_millis;
use super::error::MetaFileError;
use super::layout::{get_u64, pad, padded, put_u64, to_unsigned64, u64_at};
use vstd::bytes::*;
use vstd::prelude::*;

verus! {

/// The bytes of the counters file.
pub const META_SIZE: usize = 24;

/// The counters.
#[derive(Debug, Clone, Copy)]
pub struct MetaBlock {
    pub track_count: u64,
    pub point_count: u64,
    /// Milliseconds since the epoch when the file was made.
    pub updated_at: u64,
}

/// The counters file of a store.
#[derive(Debug)]
pub struct MetaFile {
    path: String,
}

impl MetaBlock {
    /// The counters of an empty store, made at `now`.
    pub open spec fn fresh(now: u64) -> MetaBlock {
        MetaBlock { track_count: 0, point_count: 0, updated_at: now }
    }

    /// The 24 bytes of the counters.
    pub open spec fn encoding(self) -> Seq<u8> {
        spec_u64_to_le_bytes(self.track_count) + spec_u64_to_le_bytes(self.point_count)
            + spec_u64_to_le_bytes(self.updated_at)
    }

    /// The counters that the first 24 bytes of `bytes` hold.
    pub open spec fn decoded(bytes: Seq<u8>) -> MetaBlock {
        MetaBlock {
            track_count: u64_at(bytes, 0),
            point_count: u64_at(bytes, 8),
            updated_at: u64_at(bytes, 16),
        }
    }

    /// Writes the counters as 24 bytes.
    pub fn encode(&self) -> (bytes: Vec<u8>)
        ensures
            bytes@ == self.encoding(),
            bytes@.len() == META_SIZE,
    {
        let mut bytes: Vec<u8> = Vec::new();
        put_u64(&mut bytes, self.track_count);
        put_u64(&mut bytes, self.point_count);
        put_u64(&mut bytes, self.updated_at);
        assert(bytes@ =~= self.encoding());
        bytes
    }

    /// Reads the counters from the front of `data`. Fails if and only if
    /// `data` is shorter than 24 bytes.
    pub fn decode(data: &[u8]) -> (r: Result<MetaBlock, MetaFileError>)
        ensures
            data@.len() >= META_SIZE ==> r == Ok::<MetaBlock, MetaFileError>(
                MetaBlock::decoded(data@),
            ),
            data@.len() < META_SIZE ==> r.is_err() && r.unwrap_err().is_insufficient(
                "metablock"@,
                data@.len(),
            ),
    {
        if data.len() < META_SIZE {
            Err(MetaFileError::InsufficientDataLength("metablock".to_owned(), data.len()))
        } else {
            Ok(
                MetaBlock {
                    track_count: get_u64(data, 0),
                    point_count: get_u64(data, 8),
                    updated_at: get_u64(data, 16),
                },
            )
        }
    }

    /// Counters read back are the counters that were written.
    pub proof fn lemma_round_trip(self)
        ensures
            self.encoding().len() == META_SIZE,
            MetaBlock::decoded(self.encoding()) == self,
    {
        lemma_auto_spec_u64_to_from_le_bytes();
        let e = self.encoding();
        assert(e.subrange(0, 8) =~= spec_u64_to_le_bytes(self.track_count));
        assert(e.subrange(8, 16) =~= spec_u64_to_le_bytes(self.point_count));
        assert(e.subrange(16, 24) =~= spec_u64_to_le_bytes(self.updated_at));
    }
}

impl View for MetaFile {
    type V = Seq<char>;

    /// The path of the file.
    closed spec fn view(&self) -> Seq<char> {
        self.path@
    }
}

impl MetaFile {
    /// The counters file at `path`, which the host tried to open:
    /// `failure` is the error with which the operating system refused, if
    /// it did. A file that the system did not find gives `NotFound` with
    /// the path; any other refusal is handed on.
    pub fn open(path: &str, failure: Option<std::io::Error>) -> (r: Result<MetaFile, MetaFileError>)
        ensures
            failure is None ==> r is Ok && r->Ok_0@ == path@,
            failure matches Some(err) ==> r is Err && (r->Err_0.is_not_found(path@) || r->Err_0
                == MetaFileError::IOError(err)),
    {
        match failure {
            None => Ok(MetaFile { path: path.to_owned() }),
            Some(err) => Err(MetaFileError::on_open(err, path)),
        }
    }

    /// A new counters file at `path`, with the bytes to write at its start:
    /// no track, no sample, and the system time.
    pub fn create(path: &str) -> (r: (MetaFile, Vec<u8>))
        ensures
            r.0@ == path@,
            r.1@.len() == META_SIZE,
            MetaBlock::decoded(r.1@).track_count == 0,
            MetaBlock::decoded(r.1@).point_count == 0,
    {
        MetaFile::create_at(path, to_unsigned64(system_millis()))
    }

    /// A new counters file at `path`, made at `now`.
    pub fn create_at(path: &str, now: u64) -> (r: (MetaFile, Vec<u8>))
        ensures
            r.0@ == path@,
            r.1@ == MetaBlock::fresh(now).encoding(),
            r.1@.len() == META_SIZE,
            MetaBlock::decoded(r.1@) == MetaBlock::fresh(now),
    {
        let block = MetaBlock { track_count: 0, point_count: 0, updated_at: now };
        proof {
            block.lemma_round_trip();
        }
        (MetaFile { path: path.to_owned() }, block.encode())
    }

    /// Where the file is.
    pub fn path(&self) -> (p: &str)
        ensures
            p@ == self@,
    {
        self.path.as_str()
    }

    /// The counters, from what the host read at the start of the file: its
    /// first 24 bytes, or fewer if it is shorter. A missing byte is taken
    /// as zero, so this never fails.
    pub fn read_block(&self, data: &[u8]) -> (r: Result<MetaBlock, MetaFileError>)
        ensures
            r == Ok::<MetaBlock, MetaFileError>(
                MetaBlock::decoded(padded(data@, META_SIZE as nat)),
            ),
    {
        let image = pad(data, META_SIZE);
        MetaBlock::decode(image.as_slice())
    }

    /// The bytes to write at the start of the file so that it holds
    /// `block`.
    pub fn write_block(&self, block: &MetaBlock) -> (bytes: Vec<u8>)
        ensures
            bytes@ == block.encoding(),
            bytes@.len() == META_SIZE,
    {
        block.encode()
    }
}

} // verus!
