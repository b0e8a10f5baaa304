//! The fixed banner line for each depth on arrival.

use vstd::prelude::*;

verus! {

/// The message that announces a depth, one fixed line per terrace.
pub fn depth_message(depth: u32) -> (r: &'static str)
    ensures
        depth == 1 ==> r@ == "The Asphodel Meadows. First terrace."@,
        depth == 2 ==> r@ == "Deeper. The flowers grow wilder."@,
        depth == 3 ==> r@ == "The middle meadows. The shades here are restless."@,
        depth == 4 ==> r@ == "The grey deepens. The dead press closer."@,
        depth == 5 ==> r@ == "The deep meadows. Few shades wander willingly here."@,
        depth == 6 ==> r@ == "Near the bottom. The air trembles."@,
        depth == 7 ==> r@ == "The final terrace. Beyond this: Elysium, or oblivion."@,
        depth == 0 || depth > 7 ==> r@ == "Deeper still."@,
{
    match depth {
        1 => "The Asphodel Meadows. First terrace.",
        2 => "Deeper. The flowers grow wilder.",
        3 => "The middle meadows. The shades here are restless.",
        4 => "The grey deepens. The dead press closer.",
        5 => "The deep meadows. Few shades wander willingly here.",
        6 => "Near the bottom. The air trembles.",
        7 => "The final terrace. Beyond this: Elysium, or oblivion.",
        _ => "Deeper still.",
    }
}

} // verus!
