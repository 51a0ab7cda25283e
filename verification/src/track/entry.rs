//! One sample of a track, and its compact form.
//!
//! Latitude and longitude are IEEE-754 double precision numbers. They are
//! held as their 64 bit patterns, which is what the file stores; the host
//! converts to and from floating point.

use super::error::TrackFileError;
use super::layout::{
    get_u32, get_u64, put_u32, put_u64, signed32, signed64, to_signed32, to_signed64,
    to_unsigned32, to_unsigned64, u32_at, u64_at, unsigned32, unsigned64,
};
use vstd::bytes::*;
use vstd::prelude::*;
use vstd::std_specs::cmp::PartialEqSpecImpl;

verus! {

/// The bytes that one record takes in a track file. The six fields take 36;
/// the record is filled up with four zero bytes to a multiple of eight.
pub const ENTRY_SIZE: usize = 40;

/// The bit of a double's pattern that holds its sign.
pub const SIGN_BIT: u64 = 0x8000_0000_0000_0000;

/// The pattern of positive infinity. A pattern whose 63 low bits are above
/// it is no number.
pub const INFINITY_BITS: u64 = 0x7ff0_0000_0000_0000;

/// One position sample.
#[derive(Debug, Clone, Copy)]
pub struct TrackPoint {
    /// Milliseconds since the epoch.
    pub ts: i64,
    /// Latitude, as the bits of a double.
    pub lat: u64,
    /// Longitude, as the bits of a double.
    pub lng: u64,
    /// Heading in degrees.
    pub hdg: i32,
    /// Ground speed.
    pub gs: i32,
    /// Altitude.
    pub alt: i32,
}

/// A sample as a reader is sent it: `ts` counts from the sample before, and
/// a field is there only if it differs from the sample before.
#[derive(Debug, Clone, Copy)]
pub struct TrackPointCompact {
    pub ts: i64,
    pub lat: Option<u64>,
    pub lng: Option<u64>,
    pub hdg: Option<i32>,
    pub gs: Option<i32>,
    pub alt: Option<i32>,
}

/// Whether the pattern `bits` is not a number.
pub open spec fn is_nan(bits: u64) -> bool {
    bits % SIGN_BIT > INFINITY_BITS
}

/// Whether the pattern `bits` is one of the two zeros.
pub open spec fn is_zero(bits: u64) -> bool {
    bits % SIGN_BIT == 0
}

/// Equality of two doubles, given by their patterns: what is not a number
/// equals nothing, the two zeros equal each other, and any other number
/// equals only itself.
pub open spec fn same_number(a: u64, b: u64) -> bool {
    &&& !is_nan(a)
    &&& !is_nan(b)
    &&& (a == b || (is_zero(a) && is_zero(b)))
}

/// Equality of two doubles given by their patterns.
pub fn number_eq(a: u64, b: u64) -> (r: bool)
    ensures
        r == same_number(a, b),
{
    let low_a: u64 = a % SIGN_BIT;
    let low_b: u64 = b % SIGN_BIT;
    low_a <= INFINITY_BITS && low_b <= INFINITY_BITS && (a == b || (low_a == 0 && low_b == 0))
}

impl TrackPoint {
    /// Whether two samples are value-equal: all fields but the timestamp
    /// are equal, the coordinates as numbers.
    pub open spec fn same_values(self, other: TrackPoint) -> bool {
        &&& same_number(self.lat, other.lat)
        &&& same_number(self.lng, other.lng)
        &&& self.hdg == other.hdg
        &&& self.gs == other.gs
        &&& self.alt == other.alt
    }

    /// The record of this sample.
    pub open spec fn encoding(self) -> Seq<u8> {
        spec_u64_to_le_bytes(unsigned64(self.ts)) + spec_u64_to_le_bytes(self.lat)
            + spec_u64_to_le_bytes(self.lng) + spec_u32_to_le_bytes(unsigned32(self.hdg))
            + spec_u32_to_le_bytes(unsigned32(self.gs)) + spec_u32_to_le_bytes(
            unsigned32(self.alt),
        ) + seq![0u8, 0u8, 0u8, 0u8]
    }

    /// The sample that a record holds. Bytes past the record are not read,
    /// nor are the four bytes that fill it up.
    pub open spec fn decoded(bytes: Seq<u8>) -> TrackPoint {
        TrackPoint {
            ts: signed64(u64_at(bytes, 0)),
            lat: u64_at(bytes, 8),
            lng: u64_at(bytes, 16),
            hdg: signed32(u32_at(bytes, 24)),
            gs: signed32(u32_at(bytes, 28)),
            alt: signed32(u32_at(bytes, 32)),
        }
    }

    /// Writes the sample as one record.
    pub fn encode(&self) -> (bytes: Vec<u8>)
        ensures
            bytes@ == self.encoding(),
            bytes@.len() == ENTRY_SIZE,
    {
        let mut bytes: Vec<u8> = Vec::new();
        put_u64(&mut bytes, to_unsigned64(self.ts));
        put_u64(&mut bytes, self.lat);
        put_u64(&mut bytes, self.lng);
        put_u32(&mut bytes, to_unsigned32(self.hdg));
        put_u32(&mut bytes, to_unsigned32(self.gs));
        put_u32(&mut bytes, to_unsigned32(self.alt));
        bytes.push(0u8);
        bytes.push(0u8);
        bytes.push(0u8);
        bytes.push(0u8);
        assert(bytes@ =~= self.encoding());
        bytes
    }

    /// Reads a sample from the front of `data`. Fails if and only if `data`
    /// is shorter than a record; the fields are not checked.
    pub fn decode(data: &[u8]) -> (r: Result<TrackPoint, TrackFileError>)
        ensures
            data@.len() >= ENTRY_SIZE ==> r == Ok::<TrackPoint, TrackFileError>(
                TrackPoint::decoded(data@),
            ),
            data@.len() < ENTRY_SIZE ==> r.is_err() && r.unwrap_err().is_insufficient(
                "track entry"@,
                data@.len(),
            ),
    {
        if data.len() < ENTRY_SIZE {
            Err(TrackFileError::InsufficientDataLength("track entry".to_owned(), data.len()))
        } else {
            Ok(
                TrackPoint {
                    ts: to_signed64(get_u64(data, 0)),
                    lat: get_u64(data, 8),
                    lng: get_u64(data, 16),
                    hdg: to_signed32(get_u32(data, 24)),
                    gs: to_signed32(get_u32(data, 28)),
                    alt: to_signed32(get_u32(data, 32)),
                },
            )
        }
    }

    /// A record read back is the sample that was written.
    pub proof fn lemma_round_trip(self)
        ensures
            self.encoding().len() == ENTRY_SIZE,
            TrackPoint::decoded(self.encoding()) == self,
    {
        lemma_auto_spec_u64_to_from_le_bytes();
        lemma_auto_spec_u32_to_from_le_bytes();
        let e = self.encoding();
        assert(e.subrange(0, 8) =~= spec_u64_to_le_bytes(unsigned64(self.ts)));
        assert(e.subrange(8, 16) =~= spec_u64_to_le_bytes(self.lat));
        assert(e.subrange(16, 24) =~= spec_u64_to_le_bytes(self.lng));
        assert(e.subrange(24, 28) =~= spec_u32_to_le_bytes(unsigned32(self.hdg)));
        assert(e.subrange(28, 32) =~= spec_u32_to_le_bytes(unsigned32(self.gs)));
        assert(e.subrange(32, 36) =~= spec_u32_to_le_bytes(unsigned32(self.alt)));
    }
}

impl PartialEq for TrackPoint {
    /// Value equality: the timestamp is left out.
    fn eq(&self, other: &Self) -> (r: bool) {
        number_eq(self.lat, other.lat) && number_eq(self.lng, other.lng) && self.hdg == other.hdg
            && self.gs == other.gs && self.alt == other.alt
    }
}

impl PartialEqSpecImpl for TrackPoint {
    open spec fn obeys_eq_spec() -> bool {
        true
    }

    open spec fn eq_spec(&self, other: &Self) -> bool {
        self.same_values(*other)
    }
}

impl Default for TrackPoint {
    fn default() -> (p: TrackPoint)
        ensures
            p == (TrackPoint { ts: 0, lat: 0, lng: 0, hdg: 0, gs: 0, alt: 0 }),
    {
        TrackPoint { ts: 0, lat: 0, lng: 0, hdg: 0, gs: 0, alt: 0 }
    }
}

} // verus!
