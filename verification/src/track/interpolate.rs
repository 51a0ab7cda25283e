//! Resampling of a track at one sample a second.
//!
//! The curve through the samples is drawn by the host, which works in
//! floating point. This module names the instants at which the host is to
//! read the curve, and puts the track together from what the host read.

use super::entry::TrackPoint;
use vstd::prelude::*;

verus! {

/// The milliseconds between two instants of the grid.
pub const STEP_MS: i64 = 1000;

/// The first whole second whose instant, in milliseconds, fits in 64 bits.
pub const FIRST_SECOND: i64 = -9_223_372_036_854_775;

/// What the five curves give at one instant, the last three as whole
/// numbers.
#[derive(Debug, Clone, Copy)]
pub struct Sample {
    pub lat: u64,
    pub lng: u64,
    pub hdg: i32,
    pub gs: i32,
    pub alt: i32,
}

/// The whole second in which `ts` lies: `ts` divided by a thousand,
/// rounded down.
pub open spec fn second_of(ts: i64) -> int {
    ts as int / 1000
}

/// The second of the first instant of the grid. It is that of the first
/// sample; only where its instant would not fit in 64 bits it is the
/// second after, since that instant lies before the first sample, where no
/// curve has a value.
pub open spec fn first_second(points: Seq<TrackPoint>) -> int {
    if second_of(points.first().ts) < FIRST_SECOND {
        FIRST_SECOND as int
    } else {
        second_of(points.first().ts)
    }
}

/// The instants at which a track of three samples or more is resampled: one
/// every thousand milliseconds, from the whole second of the first sample
/// up to, and without, the whole second of the last. A shorter track is
/// not resampled.
pub open spec fn grid(points: Seq<TrackPoint>) -> Seq<i64> {
    if points.len() < 3 || second_of(points.last().ts) <= first_second(points) {
        Seq::empty()
    } else {
        Seq::new(
            (second_of(points.last().ts) - first_second(points)) as nat,
            |i: int| ((first_second(points) + i) * 1000) as i64,
        )
    }
}

/// The sample of the resampled track at the instant `ts`.
pub open spec fn point_at(ts: i64, s: Sample) -> TrackPoint {
    TrackPoint { ts, lat: s.lat, lng: s.lng, hdg: s.hdg, gs: s.gs, alt: s.alt }
}

/// The samples at the instants `grid`, where `samples[i]` is what the
/// curves gave at `grid[i]`. An instant at which a curve had no value, or
/// for which nothing was handed in, is left out.
pub open spec fn resampled(grid: Seq<i64>, samples: Seq<Option<Sample>>) -> Seq<TrackPoint>
    decreases grid.len(),
{
    if grid.len() == 0 {
        Seq::empty()
    } else {
        let i = grid.len() - 1;
        let before = resampled(grid.drop_last(), samples);
        if i < samples.len() && samples[i] is Some {
            before.push(point_at(grid[i], samples[i]->Some_0))
        } else {
            before
        }
    }
}

/// The resampled track: a track of fewer than three samples as it is; of
/// any other the samples on the grid, and then its last sample as it is.
pub open spec fn interpolated(points: Seq<TrackPoint>, samples: Seq<Option<Sample>>) -> Seq<
    TrackPoint,
> {
    if points.len() < 3 {
        points
    } else {
        resampled(grid(points), samples).push(points.last())
    }
}

/// `ts` divided by a thousand, rounded down.
pub fn whole_second(ts: i64) -> (k: i64)
    ensures
        k == second_of(ts),
{
    if ts >= 0 {
        ts / STEP_MS
    } else {
        let m: i64 = -(ts + 1);
        -(m / STEP_MS) - 1
    }
}

/// The instants at which the host is to read the curves through `points`.
pub fn sample_times(points: &Vec<TrackPoint>) -> (times: Vec<i64>)
    ensures
        times@ == grid(points@),
{
    let mut times: Vec<i64> = Vec::new();
    let n: usize = points.len();
    if n < 3 {
        return times;
    }
    let first: i64 = whole_second(points[0].ts);
    let start: i64 = if first < FIRST_SECOND {
        FIRST_SECOND
    } else {
        first
    };
    let end: i64 = whole_second(points[n - 1].ts);
    assert(start == first_second(points@));
    assert(end == second_of(points@.last().ts));
    let mut k: i64 = start;
    while k < end
        invariant
            FIRST_SECOND <= start <= k,
            start < end ==> k <= end,
            start >= end ==> k == start,
            end <= 9_223_372_036_854_775,
            times@.len() == k - start,
            forall|i: int| 0 <= i < times@.len() ==> times@[i] == (start + i) * 1000,
        decreases end - k,
    {
        times.push(k * STEP_MS);
        k = k + 1;
    }
    proof {
        let g = grid(points@);
        if start < end {
            assert(k == end);
            assert(g.len() == end - start);
            assert forall|i: int| 0 <= i < g.len() implies times@[i] == g[i] by {
                assert(FIRST_SECOND <= start + i < 9_223_372_036_854_775);
                assert(g[i] == ((start + i) * 1000) as i64);
            }
        } else {
            assert(k == start);
            assert(g.len() == 0);
        }
        assert(times@ =~= g);
    }
    times
}

/// The resampled track, from the samples and from what the host read off
/// the curves at the instants of [`sample_times`], in their order.
pub fn interpolate_track(points: &Vec<TrackPoint>, samples: &Vec<Option<Sample>>) -> (out: Vec<
    TrackPoint,
>)
    ensures
        out@ == interpolated(points@, samples@),
{
    let n: usize = points.len();
    if n < 3 {
        return points.clone();
    }
    let times = sample_times(points);
    let mut out: Vec<TrackPoint> = Vec::new();
    let mut i: usize = 0;
    while i < times.len()
        invariant
            i <= times@.len(),
            out@ == resampled(times@.take(i as int), samples@),
        decreases times@.len() - i,
    {
        assert(times@.take(i + 1).drop_last() =~= times@.take(i as int));
        if i < samples.len() {
            match samples[i] {
                Some(s) => {
                    out.push(
                        TrackPoint {
                            ts: times[i],
                            lat: s.lat,
                            lng: s.lng,
                            hdg: s.hdg,
                            gs: s.gs,
                            alt: s.alt,
                        },
                    );
                },
                None => {},
            }
        }
        i = i + 1;
    }
    assert(times@.take(i as int) =~= times@);
    out.push(points[n - 1]);
    out
}

/// Every sample of `resampled` lies on an instant of the grid.
pub proof fn lemma_resampled_on_grid(grid: Seq<i64>, samples: Seq<Option<Sample>>)
    ensures
        resampled(grid, samples).len() <= grid.len(),
        forall|i: int|
            0 <= i < resampled(grid, samples).len() ==> grid.contains(
                #[trigger] resampled(grid, samples)[i].ts,
            ),
    decreases grid.len(),
{
    if grid.len() > 0 {
        let before = grid.drop_last();
        lemma_resampled_on_grid(before, samples);
        let r = resampled(grid, samples);
        assert forall|i: int| 0 <= i < r.len() implies grid.contains(#[trigger] r[i].ts) by {
            if i < resampled(before, samples).len() {
                let t = resampled(before, samples)[i].ts;
                assert(before.contains(t));
                let j = choose|j: int| 0 <= j < before.len() && before[j] == t;
                assert(grid[j] == t);
            } else {
                assert(grid[grid.len() - 1] == r[i].ts);
            }
        }
    }
}

/// A track of three samples or more, resampled, ends with its last sample
/// as it was; and every sample before that lies on a whole second. So the
/// first sample of the result lies on a whole second wherever the curves
/// had a value at some instant of the grid.
pub proof fn lemma_interpolated_ends(points: Seq<TrackPoint>, samples: Seq<Option<Sample>>)
    requires
        points.len() >= 3,
    ensures
        interpolated(points, samples).len() >= 1,
        interpolated(points, samples).last() == points.last(),
        forall|i: int|
            0 <= i < interpolated(points, samples).len() - 1 ==> (#[trigger] interpolated(
                points,
                samples,
            )[i]).ts % 1000 == 0,
        interpolated(points, samples).len() > 1 ==> interpolated(points, samples).first().ts
            % 1000 == 0,
{
    let g = grid(points);
    let r = resampled(g, samples);
    lemma_resampled_on_grid(g, samples);
    assert forall|i: int| 0 <= i < r.len() implies (#[trigger] r[i]).ts % 1000 == 0 by {
        let t = r[i].ts;
        assert(g.contains(t));
        let j = choose|j: int| 0 <= j < g.len() && g[j] == t;
        let k = first_second(points) + j;
        assert(g[j] == (k * 1000) as i64);
        assert(FIRST_SECOND <= k < second_of(points.last().ts));
        assert((k * 1000) % 1000 == 0) by (nonlinear_arith);
    }
    assert forall|i: int| 0 <= i < interpolated(points, samples).len() - 1 implies (
    #[trigger] interpolated(points, samples)[i]).ts % 1000 == 0 by {
        assert(interpolated(points, samples)[i] == r[i]);
    }
}

/// Whether each timestamp is later than the one before.
pub open spec fn increasing(points: Seq<TrackPoint>) -> bool {
    forall|i: int, j: int| 0 <= i < j < points.len() ==> points[i].ts < points[j].ts
}

/// On instants that grow, the resampled samples are in the order of their
/// timestamps.
pub proof fn lemma_resampled_in_order(grid: Seq<i64>, samples: Seq<Option<Sample>>)
    requires
        forall|i: int, j: int| 0 <= i < j < grid.len() ==> grid[i] < grid[j],
    ensures
        increasing(resampled(grid, samples)),
    decreases grid.len(),
{
    if grid.len() > 0 {
        let before = grid.drop_last();
        lemma_resampled_in_order(before, samples);
        lemma_resampled_on_grid(before, samples);
        let r = resampled(grid, samples);
        let rb = resampled(before, samples);
        assert forall|i: int, j: int| 0 <= i < j < r.len() implies r[i].ts < r[j].ts by {
            if j < rb.len() {
                assert(r[i] == rb[i] && r[j] == rb[j]);
            } else {
                assert(r[i] == rb[i]);
                assert(before.contains(rb[i].ts));
                let k = choose|k: int| 0 <= k < before.len() && before[k] == rb[i].ts;
                assert(grid[k] < grid[grid.len() - 1]);
            }
        }
    }
}

/// A track of three samples or more, resampled, is in the order of its
/// timestamps: each sample on the grid is later than the one before, and
/// the last sample of the track is later than all of them.
pub proof fn lemma_interpolated_in_order(points: Seq<TrackPoint>, samples: Seq<Option<Sample>>)
    requires
        points.len() >= 3,
    ensures
        increasing(interpolated(points, samples)),
{
    let g = grid(points);
    let r = resampled(g, samples);
    let first = first_second(points);
    let last = second_of(points.last().ts);
    assert forall|i: int, j: int| 0 <= i < j < g.len() implies g[i] < g[j] by {
        assert(FIRST_SECOND <= first + i < first + j < last);
    }
    lemma_resampled_in_order(g, samples);
    lemma_resampled_on_grid(g, samples);
    let out = interpolated(points, samples);
    assert forall|i: int, j: int| 0 <= i < j < out.len() implies out[i].ts < out[j].ts by {
        if j < r.len() {
            assert(out[i] == r[i] && out[j] == r[j]);
        } else {
            assert(out[i] == r[i]);
            assert(g.contains(r[i].ts));
            let k = choose|k: int| 0 <= k < g.len() && g[k] == r[i].ts;
            assert(FIRST_SECOND <= first + k < last);
            assert(g[k] == (first + k) * 1000);
            assert(last * 1000 <= points.last().ts);
        }
    }
}

/// A track of fewer than three samples is resampled to itself.
pub proof fn lemma_interpolated_short(points: Seq<TrackPoint>, samples: Seq<Option<Sample>>)
    requires
        points.len() < 3,
    ensures
        interpolated(points, samples) == points,
{
}

} // verus!
