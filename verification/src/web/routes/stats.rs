//! The counters as a monitoring system reads them.

use crate::text::{decimal, push_decimal};
use crate::track::metafile::MetaBlock;
use vstd::prelude::*;
use vstd::string::StringExecFns;

verus! {

/// The text that stands before the number of tracks.
pub open spec fn track_gauge() -> Seq<char> {
    "# HELP tracked_track_count number of tracks currently stored\n# TYPE tracked_track_count gauge\ntracked_track_count "@
}

/// The text that stands between the number of tracks and the number of
/// samples.
pub open spec fn point_gauge() -> Seq<char> {
    "\n\n# HELP tracked_point_count number of points currently stored in all track files\n# TYPE tracked_point_count gauge\ntracked_point_count "@
}

/// The two gauges in the text exposition format, each with its help and
/// type lines, a blank line between them.
pub open spec fn metrics_text(block: MetaBlock) -> Seq<char> {
    track_gauge() + decimal(block.track_count as nat) + point_gauge() + decimal(
        block.point_count as nat,
    ) + "\n"@
}

/// The counters as two gauges.
pub fn metrics(block: &MetaBlock) -> (text: String)
    ensures
        text@ == metrics_text(*block),
{
    let mut text = String::from_str(
        "# HELP tracked_track_count number of tracks currently stored\n# TYPE tracked_track_count gauge\ntracked_track_count ",
    );
    push_decimal(&mut text, block.track_count as u128);
    text.append(
        "\n\n# HELP tracked_point_count number of points currently stored in all track files\n# TYPE tracked_point_count gauge\ntracked_point_count ",
    );
    push_decimal(&mut text, block.point_count as u128);
    text.append("\n");
    text
}

} // verus!
