//! The compact form of a track loses nothing.

use super::entry::{same_number, TrackPoint};
use super::compact::{
    compact_first, compact_next, compacted, deltas_fit, expanded, last_or_origin, origin,
    restored, sums_fit,
};
use vstd::prelude::*;

verus! {

/// Whether two patterns are the same number to a reader: the same pattern,
/// or equal as numbers, which the two zeros are.
pub open spec fn alike_number(a: u64, b: u64) -> bool {
    a == b || same_number(a, b)
}

/// Whether two samples are the same to a reader: equal in every field, the
/// coordinates up to the sign of a zero.
pub open spec fn alike(a: TrackPoint, b: TrackPoint) -> bool {
    &&& a.ts == b.ts
    &&& alike_number(a.lat, b.lat)
    &&& alike_number(a.lng, b.lng)
    &&& a.hdg == b.hdg
    &&& a.gs == b.gs
    &&& a.alt == b.alt
}

/// Whether two patterns are the two zeros, one each.
pub open spec fn zeros_of_two_signs(a: u64, b: u64) -> bool {
    same_number(a, b) && a != b
}

/// Whether somewhere in the track a coordinate goes from one zero to the
/// other between a sample and the next. The compact form does not show
/// that: as numbers the two are equal.
pub open spec fn zero_changes_sign(points: Seq<TrackPoint>) -> bool {
    exists|i: int|
        0 < i < points.len() && (#[trigger] zeros_of_two_signs(points[i - 1].lat, points[i].lat)
            || zeros_of_two_signs(points[i - 1].lng, points[i].lng))
}

/// Where no zero changes its sign, none does between the samples `i - 1`
/// and `i`.
proof fn lemma_no_change_at(points: Seq<TrackPoint>, i: int)
    requires
        !zero_changes_sign(points),
        0 < i < points.len(),
    ensures
        !zeros_of_two_signs(points[i - 1].lat, points[i].lat),
        !zeros_of_two_signs(points[i - 1].lng, points[i].lng),
{
    let lat = zeros_of_two_signs(points[i - 1].lat, points[i].lat);
    let lng = zeros_of_two_signs(points[i - 1].lng, points[i].lng);
    if lat || lng {
        assert(0 < i < points.len() && (zeros_of_two_signs(points[i - 1].lat, points[i].lat)
            || zeros_of_two_signs(points[i - 1].lng, points[i].lng)));
        assert(zero_changes_sign(points));
    }
}

/// The compact form of a track without its last sample is the compact form
/// of the track without its last.
pub proof fn lemma_compacted_drop_last(points: Seq<TrackPoint>)
    requires
        points.len() > 0,
    ensures
        compacted(points).drop_last() == compacted(points.drop_last()),
        points.len() == 1 ==> compacted(points).last() == compact_first(points[0]),
        points.len() > 1 ==> compacted(points).last() == compact_next(
            points[points.len() - 2],
            points.last(),
        ),
{
    assert(compacted(points).drop_last() =~= compacted(points.drop_last()));
}

/// A track put in compact form and expanded again is the track that it
/// was, to a reader: each sample is there with its timestamp and its
/// fields, a zero coordinate possibly with the other sign. Where no
/// coordinate goes from one zero to the other between two samples, it is
/// the very same track.
pub proof fn lemma_compact_is_lossless(points: Seq<TrackPoint>)
    requires
        deltas_fit(points),
    ensures
        sums_fit(compacted(points)),
        expanded(compacted(points)).len() == points.len(),
        forall|i: int|
            0 <= i < points.len() ==> alike(#[trigger] expanded(compacted(points))[i], points[i]),
        !zero_changes_sign(points) ==> expanded(compacted(points)) == points,
    decreases points.len(),
{
    if points.len() == 0 {
        assert(expanded(compacted(points)) =~= points);
    } else {
        let n = points.len() as int;
        let shorter = points.drop_last();
        let p = points.last();
        assert(deltas_fit(shorter)) by {
            assert forall|i: int| 0 < i < shorter.len() implies i64::MIN
                <= #[trigger] shorter[i].ts - shorter[i - 1].ts <= i64::MAX by {
                assert(points[i].ts - points[i - 1].ts <= i64::MAX);
            }
        }
        lemma_compact_is_lossless(shorter);
        lemma_compacted_drop_last(points);
        let before = expanded(compacted(shorter));
        let c = compacted(points).last();
        let back = restored(last_or_origin(before), c);
        assert(expanded(compacted(points)) == before.push(back));
        if n == 1 {
            assert(last_or_origin(before) == origin());
            assert(back == p);
        } else {
            let prev = points[n - 2];
            assert(shorter[n - 2] == prev);
            assert(alike(before[n - 2], prev));
            assert(i64::MIN <= points[n - 1].ts - points[n - 2].ts <= i64::MAX);
            assert(alike(back, p));
        }
        assert forall|i: int| 0 <= i < points.len() implies alike(
            #[trigger] expanded(compacted(points))[i],
            points[i],
        ) by {
            if i < n - 1 {
                assert(expanded(compacted(points))[i] == before[i]);
                assert(shorter[i] == points[i]);
            }
        }
        if !zero_changes_sign(points) {
            assert(!zero_changes_sign(shorter)) by {
                if zero_changes_sign(shorter) {
                    let i = choose|i: int|
                        0 < i < shorter.len() && (#[trigger] zeros_of_two_signs(
                            shorter[i - 1].lat,
                            shorter[i].lat,
                        ) || zeros_of_two_signs(shorter[i - 1].lng, shorter[i].lng));
                    assert(shorter[i - 1] == points[i - 1] && shorter[i] == points[i]);
                    lemma_no_change_at(points, i);
                }
            }
            assert(before == shorter);
            if n > 1 {
                lemma_no_change_at(points, n - 1);
                assert(back == p);
            }
            assert(before.push(back) =~= points);
        }
    }
}

/// The other way: where a coordinate goes from one zero to the other
/// between two samples, the expanded track is not the very same track.
pub proof fn lemma_zero_sign_is_lost(points: Seq<TrackPoint>)
    requires
        deltas_fit(points),
        zero_changes_sign(points),
    ensures
        expanded(compacted(points)) != points,
    decreases points.len(),
{
    let n = points.len() as int;
    let shorter = points.drop_last();
    assert(deltas_fit(shorter)) by {
        assert forall|i: int| 0 < i < shorter.len() implies i64::MIN <= #[trigger] shorter[i].ts
            - shorter[i - 1].ts <= i64::MAX by {
            assert(points[i].ts - points[i - 1].ts <= i64::MAX);
        }
    }
    lemma_compacted_drop_last(points);
    let before = expanded(compacted(shorter));
    let back = restored(last_or_origin(before), compacted(points).last());
    assert(expanded(compacted(points)) == before.push(back));
    if expanded(compacted(points)) == points {
        assert(before =~= shorter) by {
            assert(before.push(back).drop_last() =~= before);
        }
        assert(back == points.last());
        if zero_changes_sign(shorter) {
            lemma_zero_sign_is_lost(shorter);
        } else {
            let i = choose|i: int|
                0 < i < points.len() && (#[trigger] zeros_of_two_signs(
                    points[i - 1].lat,
                    points[i].lat,
                ) || zeros_of_two_signs(points[i - 1].lng, points[i].lng));
            if i < n - 1 {
                assert(shorter[i - 1] == points[i - 1] && shorter[i] == points[i]);
                lemma_no_change_at(shorter, i);
            } else {
                assert(before.last() == points[n - 2]);
            }
        }
    }
}

} // verus!
