//! Timing for the Chladni plate patterns.

use vstd::prelude::*;

verus! {

pub const CHLADNI_STYLE: &'static str = "chladni";

/// Milliseconds between Chladni frames.
pub fn chladni_frame_delay() -> (millis: u64)
    ensures
        millis == 40,
{
    40
}


/// Frames each plate mode takes to blend into the next.
pub const MODE_FRAMES: usize = 180;

/// The plate modes `(m, n)` the pattern cycles through.
pub open spec fn plate_modes() -> Seq<(usize, usize)> {
    seq![(1usize, 2usize), (1, 3), (2, 3), (2, 5), (3, 5)]
}

/// At `frame` of the loop: the mode being left and the mode being blended in.
pub fn blended_modes(frame: usize) -> (modes: ((usize, usize), (usize, usize)))
    requires
        frame < 5 * MODE_FRAMES,
    ensures
        modes.0 == plate_modes()[(frame / MODE_FRAMES) as int],
        modes.1 == plate_modes()[((frame / MODE_FRAMES + 1) % 5) as int],
{
    let modes: Vec<(usize, usize)> = vec![(1, 2), (1, 3), (2, 3), (2, 5), (3, 5)];
    assert(modes@ =~= plate_modes());
    let mode = frame / MODE_FRAMES;
    (modes[mode], modes[(mode + 1) % 5])
}

/// The frame after `frame`, looping after every mode has been blended once.
pub fn next_chladni_frame(frame: usize) -> (next: usize)
    requires
        frame < usize::MAX,
    ensures
        next == (frame + 1) % (5 * MODE_FRAMES as int),
{
    (frame + 1) % (5 * MODE_FRAMES)
}

} // verus!
