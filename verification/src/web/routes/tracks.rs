//! What the track routes take and answer.

use crate::text::{decimal, push_decimal};
use crate::track::entry::{TrackPoint, TrackPointCompact};
use vstd::prelude::*;
use vstd::string::StringExecFns;

verus! {

/// One sample of a request, with the track it belongs to.
#[derive(Debug)]
pub struct PointDef {
    pub track_id: String,
    pub point: TrackPoint,
}

/// The samples to add, in the order in which they are added.
#[derive(Debug)]
pub struct UpdateTracksRequest {
    pub data: Vec<PointDef>,
}

/// The answer to samples that were all added.
#[derive(Debug)]
pub struct StatusResponse {
    pub status: String,
}

/// A track as it is answered.
#[derive(Debug)]
pub struct TrackResponse {
    pub track_id: String,
    pub points: Vec<TrackPoint>,
    pub count: usize,
}

/// A track as it is answered, in compact form.
#[derive(Debug)]
pub struct TrackCompactResponse {
    pub track_id: String,
    pub points: Vec<TrackPointCompact>,
    pub count: usize,
}

/// The number of different identifiers in `ids`: one for each that did not
/// occur before.
pub open spec fn distinct(ids: Seq<Seq<char>>) -> nat
    decreases ids.len(),
{
    if ids.len() == 0 {
        0
    } else {
        distinct(ids.drop_last()) + if ids.drop_last().contains(ids.last()) {
            0nat
        } else {
            1nat
        }
    }
}

/// The track identifiers of a request, in its order.
pub open spec fn ids_of(data: Seq<PointDef>) -> Seq<Seq<char>> {
    Seq::new(data.len(), |i: int| data[i].track_id@)
}

/// The words of the answer to `points` samples in `tracks` tracks.
pub open spec fn status_text(points: nat, tracks: nat) -> Seq<char> {
    decimal(points) + " points received, "@ + decimal(tracks) + " tracks updated"@
}

impl UpdateTracksRequest {
    /// The number of different tracks that the request names.
    pub fn track_count(&self) -> (n: usize)
        ensures
            n == distinct(ids_of(self.data@)),
    {
        let ghost ids = ids_of(self.data@);
        let mut n: usize = 0;
        let mut i: usize = 0;
        proof {
            assert(ids.take(0) =~= Seq::<Seq<char>>::empty());
        }
        while i < self.data.len()
            invariant
                i <= self.data@.len(),
                ids == ids_of(self.data@),
                n == distinct(ids.take(i as int)),
                n <= i,
            decreases self.data@.len() - i,
        {
            let mut seen: bool = false;
            let mut j: usize = 0;
            while j < i
                invariant
                    j <= i < self.data@.len(),
                    ids == ids_of(self.data@),
                    seen == ids.take(j as int).contains(ids[i as int]),
                decreases i - j,
            {
                if self.data[j].track_id == self.data[i].track_id {
                    seen = true;
                }
                proof {
                    let a = ids.take(j as int);
                    let b = ids.take(j + 1);
                    assert(b =~= a.push(ids[j as int]));
                    if a.contains(ids[i as int]) {
                        let k = choose|k: int| 0 <= k < a.len() && a[k] == ids[i as int];
                        assert(b[k] == ids[i as int]);
                    }
                    if ids[j as int] == ids[i as int] {
                        assert(b[j as int] == ids[i as int]);
                    }
                    if b.contains(ids[i as int]) {
                        let k = choose|k: int| 0 <= k < b.len() && b[k] == ids[i as int];
                        if k < j {
                            assert(a[k] == ids[i as int]);
                        }
                    }
                }
                j = j + 1;
            }
            proof {
                assert(ids.take(i + 1).drop_last() =~= ids.take(i as int));
                assert(ids.take(i + 1).last() == ids[i as int]);
            }
            if !seen {
                n = n + 1;
            }
            i = i + 1;
        }
        assert(ids.take(i as int) =~= ids);
        n
    }

    /// The answer to this request once every sample of it was added.
    pub fn status(&self) -> (r: StatusResponse)
        ensures
            r.status@ == status_text(self.data@.len(), distinct(ids_of(self.data@))),
    {
        StatusResponse::new(self.data.len(), self.track_count())
    }
}

impl StatusResponse {
    /// The answer to `points` samples added to `tracks` tracks.
    pub fn new(points: usize, tracks: usize) -> (r: StatusResponse)
        ensures
            r.status@ == status_text(points as nat, tracks as nat),
    {
        let mut status = String::new();
        push_decimal(&mut status, points as u128);
        status.append(" points received, ");
        push_decimal(&mut status, tracks as u128);
        status.append(" tracks updated");
        StatusResponse { status }
    }
}

impl TrackResponse {
    /// The answer that holds `points` as the track `track_id`.
    pub fn new(track_id: &str, points: Vec<TrackPoint>) -> (r: TrackResponse)
        ensures
            r.track_id@ == track_id@,
            r.points@ == points@,
            r.count == points@.len(),
    {
        let count = points.len();
        TrackResponse { track_id: track_id.to_owned(), points, count }
    }
}

impl TrackCompactResponse {
    /// The answer that holds `points` as the track `track_id`.
    pub fn new(track_id: &str, points: Vec<TrackPointCompact>) -> (r: TrackCompactResponse)
        ensures
            r.track_id@ == track_id@,
            r.points@ == points@,
            r.count == points@.len(),
    {
        let count = points.len();
        TrackCompactResponse { track_id: track_id.to_owned(), points, count }
    }
}

/// The number of different identifiers is the size of the set of them.
pub proof fn lemma_distinct_is_set_size(ids: Seq<Seq<char>>)
    ensures
        distinct(ids) == ids.to_set().len(),
    decreases ids.len(),
{
    broadcast use vstd::seq_lib::group_seq_properties;
    broadcast use vstd::set::group_set_axioms;

    if ids.len() == 0 {
        assert(ids.to_set() =~= Set::<Seq<char>>::empty());
    } else {
        let rest = ids.drop_last();
        lemma_distinct_is_set_size(rest);
        rest.lemma_push_to_set_commute(ids.last());
        assert(rest.push(ids.last()) =~= ids);
        vstd::seq_lib::seq_to_set_is_finite(rest);
        if rest.contains(ids.last()) {
            assert(rest.to_set().contains(ids.last()));
            assert(rest.to_set().insert(ids.last()) =~= rest.to_set());
        } else {
            assert(!rest.to_set().contains(ids.last()));
        }
    }
}

} // verus!
