//! The playback engine's decision layer: the commands the control
//! surface sends, and the seek arithmetic the engine runs when it
//! drains them. The audio callback itself lives with the host audio
//! layer; everything it decides is computed here.

pub mod playback_context;

use crate::queue::queue_items::QueueItem;
use vstd::prelude::*;

verus! {

/// A command from the control surface. Volume values are in level
/// units, where 100 is the default full level.
pub enum PlaybackAction {
    Playing,
    Paused,
    /// Toggle between playing and paused.
    PlayPause,
    /// Number of seconds to go back.
    Rewind(u64),
    /// Number of seconds to skip.
    FastForward(u64),
    /// Number of seconds into the track to go to.
    GoTo(u64),
    /// Append to the queue without interrupting playback.
    Que(QueueItem),
    /// Play the item now, replacing the queue.
    Play(QueueItem),
    /// Set the volume level; 100 is the default.
    SetVolume(i64),
    /// Change the volume level by the given amount.
    ChangeVolume(i64),
}

/// The sample the playhead stands on: what was played of the track.
pub open spec fn spec_current_sample(length: u64, left: u64) -> int {
    length - left
}

/// Where a fast-forward of `seconds` lands: the target sample, or the
/// end of the track when the jump would overshoot — an overshooting
/// fast-forward is treated as end-of-track, so the engine advances.
pub fn seek_forward_target(length: u64, left: u64, seconds: u64, sample_rate: u64) -> (r: u64)
    requires
        left <= length,
    ensures
        spec_current_sample(length, left) + seconds * sample_rate <= length ==> r
            == spec_current_sample(length, left) + seconds * sample_rate,
        spec_current_sample(length, left) + seconds * sample_rate > length ==> r == length,
{
    let current = length - left;
    proof {
        assert((seconds as int) * (sample_rate as int) + current
            <= 0xffffffffffffffffffffffffffffffffint) by (nonlinear_arith)
            requires
                seconds <= 0xffffffffffffffffu64,
                sample_rate <= 0xffffffffffffffffu64,
                current <= 0xffffffffffffffffu64,
        ;
    }
    let jump = (seconds as u128) * (sample_rate as u128);
    let target = (current as u128) + jump;
    if target <= length as u128 {
        target as u64
    } else {
        length
    }
}

/// Where a rewind of `seconds` lands: the target sample, stopping at
/// the start of the track.
pub fn seek_rewind_target(length: u64, left: u64, seconds: u64, sample_rate: u64) -> (r: u64)
    requires
        left <= length,
    ensures
        spec_current_sample(length, left) >= seconds * sample_rate ==> r == spec_current_sample(
            length,
            left,
        ) - seconds * sample_rate,
        spec_current_sample(length, left) < seconds * sample_rate ==> r == 0,
{
    let current = length - left;
    proof {
        assert((seconds as int) * (sample_rate as int) < 0x100000000000000000000000000000000int)
            by (nonlinear_arith)
            requires
                seconds <= 0xffffffffffffffffu64,
                sample_rate <= 0xffffffffffffffffu64,
        ;
    }
    let jump = (seconds as u128) * (sample_rate as u128);
    if (current as u128) >= jump {
        current - (jump as u64)
    } else {
        0
    }
}

/// The target sample of a go-to command: seconds times the rate,
/// clamped to the end of the track.
pub fn seek_goto_target(length: u64, seconds: u64, sample_rate: u64) -> (r: u64)
    ensures
        seconds * sample_rate <= length ==> r == seconds * sample_rate,
        seconds * sample_rate > length ==> r == length,
{
    proof {
        assert((seconds as int) * (sample_rate as int) < 0x100000000000000000000000000000000int)
            by (nonlinear_arith)
            requires
                seconds <= 0xffffffffffffffffu64,
                sample_rate <= 0xffffffffffffffffu64,
        ;
    }
    let jump = (seconds as u128) * (sample_rate as u128);
    if jump <= length as u128 {
        jump as u64
    } else {
        length
    }
}

} // verus!
