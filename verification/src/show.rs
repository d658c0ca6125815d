//! The end of a show: how many frames are still shown once the game repeats.

use vstd::prelude::*;

verus! {

/// What one update of a show does with `frame`, the colors of the
/// generation before the step, given how many frames were left before the
/// update and whether the game is cycling after the step.
///
/// The frame is shown as long as frames are left. The count of frames left
/// goes down by one with each update made while the game is cycling. An
/// update that finds no frame left and the game cycling has nothing to
/// count down from, and is left out.
pub fn next_frame(frame: Vec<Vec<[u8; 4]>>, frames_left: usize, is_cycling: bool) -> (update: (
    Option<Vec<Vec<[u8; 4]>>>,
    usize,
))
    requires
        is_cycling ==> frames_left > 0,
    ensures
        update.0 == (if frames_left == 0 {
            None
        } else {
            Some(frame)
        }),
        update.1 == frames_left - (if is_cycling {
            1int
        } else {
            0int
        }),
{
    let shown = if frames_left == 0 {
        None
    } else {
        Some(frame)
    };
    let left = if is_cycling {
        frames_left - 1
    } else {
        frames_left
    };
    (shown, left)
}

} // verus!
