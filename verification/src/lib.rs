//! Playback queue, synced-lyrics parsing, tempo search and display logic of
//! a small music player, with their contracts.

pub mod controls;
pub mod display;
pub mod lyrics;
pub mod metronome;
pub mod paths;
pub mod queue;
pub mod tempo;
pub mod text;
pub mod track;

pub use controls::{command_for, MediaEvent, PlayerCommand};
pub use display::{format_time, time_label};
pub use lyrics::{lrc_path_for, parse_timestamp, LyricLine, Lyrics};
pub use metronome::{apply_tempo_to_ui, beat_index, TempoDisplay};
pub use queue::{PlayRequest, Queue, QueueError, TrackId};
pub use tempo::{find_tempo, is_tempo_key, JsonMember, JsonValue};
pub use track::{TagReading, TrackInfo};
