//! What the player does on a media-control event (play, pause, next, ...).

use vstd::prelude::*;

verus! {

/// A media-control event from the desktop.
#[derive(Debug, PartialEq, Eq, Structural, Clone, Copy)]
pub enum MediaEvent {
    Play,
    Pause,
    Toggle,
    Next,
    Previous,
}

/// What the player does in answer to an event.
#[derive(Debug, PartialEq, Eq, Structural, Clone, Copy)]
pub enum PlayerCommand {
    /// Pause (`true`) or resume (`false`) the running player.
    SetPause(bool),
    /// Resume a paused player, pause a playing one.
    TogglePause,
    /// Go on to the next track.
    PlayNext,
    /// Seek back to the start of the track; where that fails, go to the
    /// previous track.
    RestartTrack,
    /// Go back to the previous track.
    PlayPrevious,
}

/// How far into a track "previous" restarts the track rather than going back.
pub const RESTART_THRESHOLD_NANOS: u128 = 4_000_000_000;

/// The command for `event`, `elapsed_nanos` into the current track: after
/// the first four seconds "previous" restarts the track, before them it
/// goes back a track.
pub fn command_for(event: MediaEvent, elapsed_nanos: u128) -> (r: PlayerCommand)
    ensures
        r == match event {
            MediaEvent::Play => PlayerCommand::SetPause(false),
            MediaEvent::Pause => PlayerCommand::SetPause(true),
            MediaEvent::Toggle => PlayerCommand::TogglePause,
            MediaEvent::Next => PlayerCommand::PlayNext,
            MediaEvent::Previous => if elapsed_nanos > RESTART_THRESHOLD_NANOS {
                PlayerCommand::RestartTrack
            } else {
                PlayerCommand::PlayPrevious
            },
        },
{
    match event {
        MediaEvent::Play => PlayerCommand::SetPause(false),
        MediaEvent::Pause => PlayerCommand::SetPause(true),
        MediaEvent::Toggle => PlayerCommand::TogglePause,
        MediaEvent::Next => PlayerCommand::PlayNext,
        MediaEvent::Previous => if elapsed_nanos > RESTART_THRESHOLD_NANOS {
            PlayerCommand::RestartTrack
        } else {
            PlayerCommand::PlayPrevious
        },
    }
}

} // verus!
