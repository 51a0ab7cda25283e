//! The header of a track file.

use super::clock::system_millis;
use super::error::TrackFileError;
use super::layout::{get_u64, put_u64, to_unsigned64, u64_at};
use vstd::bytes::*;
use vstd::prelude::*;

verus! {

/// The first eight bytes of every track file, read as a number.
pub const HEADER_MAGIC_NUMBER: u64 = 0xfb9c_fc9b_116a_158e;

/// The only version of the format.
pub const HEADER_VERSION: u64 = 1;

/// The bytes that the header takes at the front of a track file.
pub const HEADER_SIZE: usize = 32;

/// What a track file says of itself.
#[derive(Debug, Clone, Copy)]
pub struct Header {
    pub magic: u64,
    pub version: u64,
    /// Milliseconds since the epoch at the last write.
    pub updated_at: u64,
    /// The number of records that follow the header.
    pub count: u64,
}

impl Header {
    /// The header of a file without records, made at `now`.
    pub open spec fn fresh(now: u64) -> Header {
        Header { magic: HEADER_MAGIC_NUMBER, version: HEADER_VERSION, updated_at: now, count: 0 }
    }

    /// This header after one more record was written at `now`.
    pub open spec fn grown(self, now: u64) -> Header {
        Header { updated_at: now, count: (self.count + 1) as u64, ..self }
    }

    /// The 32 bytes of this header.
    pub open spec fn encoding(self) -> Seq<u8> {
        spec_u64_to_le_bytes(self.magic) + spec_u64_to_le_bytes(self.version)
            + spec_u64_to_le_bytes(self.updated_at) + spec_u64_to_le_bytes(self.count)
    }

    /// The header that the first 32 bytes of `bytes` hold.
    pub open spec fn decoded(bytes: Seq<u8>) -> Header {
        Header {
            magic: u64_at(bytes, 0),
            version: u64_at(bytes, 8),
            updated_at: u64_at(bytes, 16),
            count: u64_at(bytes, 24),
        }
    }

    /// The header of a file without records, stamped with the system time.
    /// Never fails.
    pub fn new() -> (r: Result<Header, TrackFileError>)
        ensures
            r is Ok,
            r->Ok_0.magic == HEADER_MAGIC_NUMBER,
            r->Ok_0.version == HEADER_VERSION,
            r->Ok_0.count == 0,
    {
        Ok(Header::at(to_unsigned64(system_millis())))
    }

    /// The header of a file without records, stamped with `now`.
    pub fn at(now: u64) -> (h: Header)
        ensures
            h == Header::fresh(now),
    {
        Header { magic: HEADER_MAGIC_NUMBER, version: HEADER_VERSION, updated_at: now, count: 0 }
    }

    pub fn check_magic(&self) -> (ok: bool)
        ensures
            ok == (self.magic == HEADER_MAGIC_NUMBER),
    {
        self.magic == HEADER_MAGIC_NUMBER
    }

    pub fn version(&self) -> (v: u64)
        ensures
            v == self.version,
    {
        self.version
    }

    pub fn timestamp(&self) -> (t: u64)
        ensures
            t == self.updated_at,
    {
        self.updated_at
    }

    pub fn count(&self) -> (n: u64)
        ensures
            n == self.count,
    {
        self.count
    }

    /// Stamps the header with the system time. Nothing else changes.
    pub fn touch(&mut self)
        ensures
            final(self).magic == old(self).magic,
            final(self).version == old(self).version,
            final(self).count == old(self).count,
    {
        self.touch_at(to_unsigned64(system_millis()));
    }

    /// Stamps the header with `now`.
    pub fn touch_at(&mut self, now: u64)
        ensures
            *final(self) == (Header { updated_at: now, ..*old(self) }),
    {
        self.updated_at = now;
    }

    /// Counts one more record and stamps the header with the system time.
    pub fn inc(&mut self)
        requires
            old(self).count < u64::MAX,
        ensures
            final(self).magic == old(self).magic,
            final(self).version == old(self).version,
            final(self).count == old(self).count + 1,
    {
        self.inc_at(to_unsigned64(system_millis()));
    }

    /// Counts one more record and stamps the header with `now`.
    pub fn inc_at(&mut self, now: u64)
        requires
            old(self).count < u64::MAX,
        ensures
            *final(self) == old(self).grown(now),
    {
        self.count = self.count + 1;
        self.touch_at(now);
    }

    /// Writes the header as 32 bytes.
    pub fn encode(&self) -> (bytes: Vec<u8>)
        ensures
            bytes@ == self.encoding(),
            bytes@.len() == HEADER_SIZE,
    {
        let mut bytes: Vec<u8> = Vec::new();
        put_u64(&mut bytes, self.magic);
        put_u64(&mut bytes, self.version);
        put_u64(&mut bytes, self.updated_at);
        put_u64(&mut bytes, self.count);
        assert(bytes@ =~= self.encoding());
        bytes
    }

    /// Reads a header from the front of `data`. Fails if and only if `data`
    /// is shorter than a header; the fields are not checked.
    pub fn decode(data: &[u8]) -> (r: Result<Header, TrackFileError>)
        ensures
            data@.len() >= HEADER_SIZE ==> r == Ok::<Header, TrackFileError>(
                Header::decoded(data@),
            ),
            data@.len() < HEADER_SIZE ==> r.is_err() && r.unwrap_err().is_insufficient(
                "header"@,
                data@.len(),
            ),
    {
        if data.len() < HEADER_SIZE {
            Err(TrackFileError::InsufficientDataLength("header".to_owned(), data.len()))
        } else {
            Ok(
                Header {
                    magic: get_u64(data, 0),
                    version: get_u64(data, 8),
                    updated_at: get_u64(data, 16),
                    count: get_u64(data, 24),
                },
            )
        }
    }

    /// A header read back is the header that was written.
    pub proof fn lemma_round_trip(self)
        ensures
            self.encoding().len() == HEADER_SIZE,
            Header::decoded(self.encoding()) == self,
    {
        lemma_auto_spec_u64_to_from_le_bytes();
        let e = self.encoding();
        assert(e.subrange(0, 8) =~= spec_u64_to_le_bytes(self.magic));
        assert(e.subrange(8, 16) =~= spec_u64_to_le_bytes(self.version));
        assert(e.subrange(16, 24) =~= spec_u64_to_le_bytes(self.updated_at));
        assert(e.subrange(24, 32) =~= spec_u64_to_le_bytes(self.count));
    }
}

} // verus!
