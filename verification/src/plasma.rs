//! Timing for the plasma field.

use vstd::prelude::*;

verus! {

pub const PLASMA_STYLE: &'static str = "plasma";

/// Milliseconds between plasma frames.
pub fn plasma_frame_delay() -> (millis: u64)
    ensures
        millis == 40,
{
    40
}


/// Frames in one full plasma cycle.
pub const CYCLE_FRAMES: usize = 1200;

/// The frame after `frame`, looping every cycle.
pub fn next_plasma_frame(frame: usize) -> (next: usize)
    requires
        frame < usize::MAX,
    ensures
        next == (frame + 1) % (CYCLE_FRAMES as int),
{
    (frame + 1) % CYCLE_FRAMES
}

} // verus!
