//! The compact form of a track, as readers are sent it.
//!
//! The first sample is whole. Every other sample says how much later it is
//! than the one before, and holds only the fields that differ from the one
//! before.

use super::entry::{number_eq, same_number, TrackPoint, TrackPointCompact};
use vstd::prelude::*;

verus! {

/// The compact form of the first sample of a track: every field is there.
pub open spec fn compact_first(p: TrackPoint) -> TrackPointCompact {
    TrackPointCompact {
        ts: p.ts,
        lat: Some(p.lat),
        lng: Some(p.lng),
        hdg: Some(p.hdg),
        gs: Some(p.gs),
        alt: Some(p.alt),
    }
}

/// The compact form of `p`, which follows `prev`: the time that passed, and
/// the fields that differ, the coordinates compared as numbers.
pub open spec fn compact_next(prev: TrackPoint, p: TrackPoint) -> TrackPointCompact {
    TrackPointCompact {
        ts: (p.ts - prev.ts) as i64,
        lat: if same_number(p.lat, prev.lat) {
            None
        } else {
            Some(p.lat)
        },
        lng: if same_number(p.lng, prev.lng) {
            None
        } else {
            Some(p.lng)
        },
        hdg: if p.hdg == prev.hdg {
            None
        } else {
            Some(p.hdg)
        },
        gs: if p.gs == prev.gs {
            None
        } else {
            Some(p.gs)
        },
        alt: if p.alt == prev.alt {
            None
        } else {
            Some(p.alt)
        },
    }
}

/// The compact form of a track.
pub open spec fn compacted(points: Seq<TrackPoint>) -> Seq<TrackPointCompact> {
    Seq::new(
        points.len(),
        |i: int|
            if i == 0 {
                compact_first(points[0])
            } else {
                compact_next(points[i - 1], points[i])
            },
    )
}

/// Whether the time from each sample to the next fits in 64 bits.
pub open spec fn deltas_fit(points: Seq<TrackPoint>) -> bool {
    forall|i: int|
        0 < i < points.len() ==> i64::MIN <= #[trigger] points[i].ts - points[i - 1].ts
            <= i64::MAX
}

/// The sample that `c` stands for after `prev`: the time adds up, and a
/// field that is not there is that of `prev`.
pub open spec fn restored(prev: TrackPoint, c: TrackPointCompact) -> TrackPoint {
    TrackPoint {
        ts: (prev.ts + c.ts) as i64,
        lat: match c.lat {
            Some(v) => v,
            None => prev.lat,
        },
        lng: match c.lng {
            Some(v) => v,
            None => prev.lng,
        },
        hdg: match c.hdg {
            Some(v) => v,
            None => prev.hdg,
        },
        gs: match c.gs {
            Some(v) => v,
            None => prev.gs,
        },
        alt: match c.alt {
            Some(v) => v,
            None => prev.alt,
        },
    }
}

/// The sample before the first: all zero.
pub open spec fn origin() -> TrackPoint {
    TrackPoint { ts: 0, lat: 0, lng: 0, hdg: 0, gs: 0, alt: 0 }
}

/// The sample that the samples of `track` follow: its last, or the origin.
pub open spec fn last_or_origin(track: Seq<TrackPoint>) -> TrackPoint {
    if track.len() == 0 {
        origin()
    } else {
        track.last()
    }
}

/// The track that a compact track stands for.
pub open spec fn expanded(compact: Seq<TrackPointCompact>) -> Seq<TrackPoint>
    decreases compact.len(),
{
    if compact.len() == 0 {
        Seq::empty()
    } else {
        let before = expanded(compact.drop_last());
        before.push(restored(last_or_origin(before), compact.last()))
    }
}

/// Whether every timestamp of the track that `compact` stands for fits in
/// 64 bits.
pub open spec fn sums_fit(compact: Seq<TrackPointCompact>) -> bool
    decreases compact.len(),
{
    if compact.len() == 0 {
        true
    } else {
        let before = expanded(compact.drop_last());
        &&& sums_fit(compact.drop_last())
        &&& i64::MIN <= last_or_origin(before).ts + compact.last().ts <= i64::MAX
    }
}

/// The compact form of a track. There is none if and only if the time
/// from some sample to the next does not fit in 64 bits.
pub fn compact(points: &Vec<TrackPoint>) -> (r: Option<Vec<TrackPointCompact>>)
    ensures
        deltas_fit(points@) ==> r is Some && r->Some_0@ == compacted(points@),
        !deltas_fit(points@) ==> r is None,
{
    let mut out: Vec<TrackPointCompact> = Vec::new();
    let n: usize = points.len();
    let mut i: usize = 0;
    while i < n
        invariant
            i <= n,
            n == points@.len(),
            out@.len() == i,
            deltas_fit(points@.take(i as int)),
            forall|j: int| 0 <= j < i ==> out@[j] == #[trigger] compacted(points@)[j],
        decreases n - i,
    {
        let p = points[i];
        if i == 0 {
            out.push(
                TrackPointCompact {
                    ts: p.ts,
                    lat: Some(p.lat),
                    lng: Some(p.lng),
                    hdg: Some(p.hdg),
                    gs: Some(p.gs),
                    alt: Some(p.alt),
                },
            );
        } else {
            let prev = points[i - 1];
            let ts = match p.ts.checked_sub(prev.ts) {
                Some(d) => d,
                None => {
                    assert(!(i64::MIN <= points@[i as int].ts - points@[i - 1].ts
                        <= i64::MAX));
                    return None;
                },
            };
            out.push(
                TrackPointCompact {
                    ts,
                    lat: if number_eq(p.lat, prev.lat) {
                        None
                    } else {
                        Some(p.lat)
                    },
                    lng: if number_eq(p.lng, prev.lng) {
                        None
                    } else {
                        Some(p.lng)
                    },
                    hdg: if p.hdg != prev.hdg {
                        Some(p.hdg)
                    } else {
                        None
                    },
                    gs: if p.gs != prev.gs {
                        Some(p.gs)
                    } else {
                        None
                    },
                    alt: if p.alt != prev.alt {
                        Some(p.alt)
                    } else {
                        None
                    },
                },
            );
        }
        proof {
            let next = points@.take(i + 1);
            assert forall|j: int| 0 < j < next.len() implies i64::MIN <= #[trigger] next[j].ts
                - next[j - 1].ts <= i64::MAX by {
                if j < i {
                    assert(points@.take(i as int)[j].ts - points@.take(i as int)[j - 1].ts
                        <= i64::MAX);
                }
            }
        }
        i = i + 1;
    }
    assert(points@.take(n as int) =~= points@);
    assert(out@ =~= compacted(points@));
    Some(out)
}

/// The track that a compact track stands for: the timestamps add up,
/// and a field that is not there is carried on from the sample before
/// (for the first sample, from zero). There is none if and only if a
/// timestamp does not fit in 64 bits.
pub fn expand(compact: &Vec<TrackPointCompact>) -> (r: Option<Vec<TrackPoint>>)
    ensures
        sums_fit(compact@) ==> r is Some && r->Some_0@ == expanded(compact@),
        !sums_fit(compact@) ==> r is None,
{
    let mut out: Vec<TrackPoint> = Vec::new();
    let mut prev = TrackPoint { ts: 0, lat: 0, lng: 0, hdg: 0, gs: 0, alt: 0 };
    let n: usize = compact.len();
    let mut i: usize = 0;
    proof {
        assert(compact@.take(0) =~= Seq::<TrackPointCompact>::empty());
    }
    while i < n
        invariant
            i <= n,
            n == compact@.len(),
            sums_fit(compact@.take(i as int)),
            out@ == expanded(compact@.take(i as int)),
            prev == last_or_origin(out@),
        decreases n - i,
    {
        let c = compact[i];
        proof {
            assert(compact@.take(i + 1).drop_last() =~= compact@.take(i as int));
        }
        let ts = match prev.ts.checked_add(c.ts) {
            Some(t) => t,
            None => {
                proof {
                    assert(!sums_fit(compact@.take(i + 1)));
                    if sums_fit(compact@) {
                        lemma_sums_fit_prefix(compact@, i + 1);
                    }
                }
                return None;
            },
        };
        let p = TrackPoint {
            ts,
            lat: match c.lat {
                Some(v) => v,
                None => prev.lat,
            },
            lng: match c.lng {
                Some(v) => v,
                None => prev.lng,
            },
            hdg: match c.hdg {
                Some(v) => v,
                None => prev.hdg,
            },
            gs: match c.gs {
                Some(v) => v,
                None => prev.gs,
            },
            alt: match c.alt {
                Some(v) => v,
                None => prev.alt,
            },
        };
        out.push(p);
        prev = p;
        i = i + 1;
    }
    assert(compact@.take(n as int) =~= compact@);
    Some(out)
}

/// If the timestamps of a compact track fit, so do those of each part of
/// it from the start.
pub proof fn lemma_sums_fit_prefix(compact: Seq<TrackPointCompact>, k: int)
    requires
        0 <= k <= compact.len(),
        sums_fit(compact),
    ensures
        sums_fit(compact.take(k)),
    decreases compact.len(),
{
    if k == compact.len() {
        assert(compact.take(k) =~= compact);
    } else {
        lemma_sums_fit_prefix(compact.drop_last(), k);
        assert(compact.drop_last().take(k) =~= compact.take(k));
    }
}

} // verus!
