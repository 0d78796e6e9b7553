//! The playback context and the seek arithmetic of the command loop.

use rmusic::playback::playback_context::PlaybackContext;
use rmusic::playback::{seek_forward_target, seek_goto_target, seek_rewind_target, PlaybackAction};

/// Setting a negative volume leaves the level at zero.
#[test]
fn volume_clamp() {
    let mut ctx = PlaybackContext::new();
    ctx.update_volume_level(-5);
    assert_eq!(ctx.volume_level(), 0);
}

#[test]
fn volume_changes_clamp_at_zero() {
    let mut ctx = PlaybackContext::new();
    assert_eq!(ctx.volume_level(), 100);
    ctx.change_volume_level(-30);
    assert_eq!(ctx.volume_level(), 70);
    ctx.change_volume_level(-200);
    assert_eq!(ctx.volume_level(), 0);
    ctx.change_volume_level(15);
    assert_eq!(ctx.volume_level(), 15);
}

#[test]
fn context_tracks_playback_state() {
    let mut ctx = PlaybackContext::new();
    ctx.set_track("/music/a.opus".to_string(), 480000, 48000);
    assert_eq!(ctx.length(), 480000);
    assert_eq!(ctx.left(), 480000);
    assert_eq!(ctx.current_track(), Some("/music/a.opus".to_string()));
    ctx.update_left(240000);
    assert_eq!(ctx.played(), 240000);
    assert_eq!(ctx.played_sec(), 5);
    assert_eq!(ctx.left_sec(), 5);
    assert_eq!(ctx.length_sec(), 10);
}

#[test]
fn context_without_rate_reports_zero_seconds() {
    let ctx = PlaybackContext::new();
    assert_eq!(ctx.played_sec(), 0);
    assert_eq!(ctx.length_sec(), 0);
    assert_eq!(ctx.left_sec(), 0);
}

/// A pause, a seek, a resume: the commands carry through the decision
/// layer so the engine lands at the requested second with the right
/// number of samples left.
#[test]
fn pause_seek_play_lands_at_target() {
    let mut ctx = PlaybackContext::new();
    ctx.set_track("/music/a.opus".to_string(), 4_800_000, 48000);
    let mut playing = true;
    for action in [
        PlaybackAction::Paused,
        PlaybackAction::GoTo(60),
        PlaybackAction::Playing,
    ] {
        match action {
            PlaybackAction::Paused => playing = false,
            PlaybackAction::Playing => playing = true,
            PlaybackAction::GoTo(seconds) => {
                let target = seek_goto_target(ctx.length(), seconds, ctx.sample_rate() as u64);
                assert_eq!(target, 60 * 48000);
                ctx.update_left(ctx.length() - target);
            }
            _ => {}
        }
    }
    assert!(playing);
    assert_eq!(ctx.left(), ctx.length() - 60 * 48000);
}

#[test]
fn forward_clamps_to_track_end() {
    // 10 seconds in, 100 seconds long at 48 kHz.
    let length = 100 * 48000u64;
    let left = 90 * 48000u64;
    assert_eq!(seek_forward_target(length, left, 5, 48000), 15 * 48000);
    // Overshooting is treated as end-of-track.
    assert_eq!(seek_forward_target(length, left, 1000, 48000), length);
    assert_eq!(seek_forward_target(0, 0, 1000, 48000), 0);
}

#[test]
fn rewind_stops_at_start() {
    let length = 100 * 48000u64;
    let left = 90 * 48000u64;
    assert_eq!(seek_rewind_target(length, left, 4, 48000), 6 * 48000);
    assert_eq!(seek_rewind_target(length, left, 60, 48000), 0);
}

#[test]
fn goto_clamps_to_length() {
    assert_eq!(seek_goto_target(480000, 5, 48000), 240000);
    assert_eq!(seek_goto_target(480000, 100, 48000), 480000);
}
