//! The beat that a track is on, and what the metronome display shows.

use vstd::prelude::*;

verus! {

/// The most nanoseconds that a `std::time::Duration` holds.
pub const MAX_DURATION_NANOS: u128 = 18446744073709551615999999999u128;

/// Nanoseconds in a minute.
pub const NANOS_PER_MINUTE: u128 = 60_000_000_000u128;

/// A usable tempo: present and above zero.
pub open spec fn beats_per_minute(tempo: Option<u32>) -> Option<u32> {
    match tempo {
        Some(bpm) => if bpm > 0 {
            Some(bpm)
        } else {
            None
        },
        None => None,
    }
}

/// The beat within the measure at `elapsed_nanos` into a track: the number of
/// whole beats so far, modulo the beats per measure; -1 where the track has no
/// usable tempo.
pub open spec fn spec_beat_index(elapsed_nanos: u128, tempo: Option<u32>, beats_per_measure: u8) -> int {
    match beats_per_minute(tempo) {
        Some(bpm) => (elapsed_nanos * bpm / (NANOS_PER_MINUTE as int)) % (beats_per_measure as int),
        None => -1,
    }
}

/// The beat within the measure that playback is on, counted from 0, or -1
/// where the track has no usable tempo.
pub fn beat_index(elapsed_nanos: u128, tempo: Option<u32>, beats_per_measure: u8) -> (r: i32)
    requires
        elapsed_nanos <= MAX_DURATION_NANOS,
        beats_per_minute(tempo) is Some ==> beats_per_measure > 0,
    ensures
        r == spec_beat_index(elapsed_nanos, tempo, beats_per_measure),
{
    let bpm = match tempo {
        Some(b) => if b > 0 {
            b
        } else {
            return -1;
        },
        None => {
            return -1;
        },
    };
    let b: u128 = bpm as u128;
    assert(elapsed_nanos * b <= MAX_DURATION_NANOS * 4294967295) by (nonlinear_arith)
        requires
            elapsed_nanos <= MAX_DURATION_NANOS,
            b <= 4294967295,
    ;
    let beats = elapsed_nanos * b / NANOS_PER_MINUTE;
    let idx = beats % (beats_per_measure as u128);
    idx as i32
}

/// What the metronome display shows for a track's tempo.
#[derive(Debug, PartialEq, Eq, Structural, Clone, Copy)]
pub struct TempoDisplay {
    pub has_tempo: bool,
    pub tempo: i32,
    pub duration_between_beats: i64,
}

/// `bpm` read as an `i32`, as `bpm as i32` does (two's complement).
pub open spec fn tempo_as_i32(bpm: u32) -> int {
    if bpm <= i32::MAX {
        bpm as int
    } else {
        bpm - 4294967296
    }
}

/// The metronome settings for a tempo: with a usable tempo, the tempo and
/// the whole milliseconds in one beat (60000 / bpm: what
/// `Duration::from_secs_f64(60.0 / bpm).as_millis()` comes to, since that
/// conversion rounds to the nearest nanosecond); otherwise no tempo, 0, 0.
pub fn apply_tempo_to_ui(tempo: Option<u32>) -> (r: TempoDisplay)
    ensures
        match beats_per_minute(tempo) {
            Some(bpm) => {
                &&& r.has_tempo
                &&& r.tempo == tempo_as_i32(bpm)
                &&& r.duration_between_beats == 60000int / (bpm as int)
            },
            None => r == TempoDisplay { has_tempo: false, tempo: 0, duration_between_beats: 0 },
        },
{
    match tempo {
        Some(bpm) => if bpm > 0 {
            let t: i32 = if bpm <= 2147483647 {
                bpm as i32
            } else {
                ((bpm as i64) - 4294967296) as i32
            };
            let ms: i64 = (60000u32 / bpm) as i64;
            return TempoDisplay { has_tempo: true, tempo: t, duration_between_beats: ms };
        },
        None => {},
    }
    TempoDisplay { has_tempo: false, tempo: 0, duration_between_beats: 0 }
}


/// The beat index is -1 exactly when the track has no usable tempo, and
/// otherwise a beat of the measure: from 0 up to the beats per measure.
pub proof fn lemma_beat_index_range(elapsed_nanos: u128, tempo: Option<u32>, beats_per_measure: u8)
    requires
        beats_per_minute(tempo) is Some ==> beats_per_measure > 0,
    ensures
        beats_per_minute(tempo) is None <==> spec_beat_index(elapsed_nanos, tempo, beats_per_measure)
            == -1,
        beats_per_minute(tempo) is Some ==> 0 <= spec_beat_index(
            elapsed_nanos,
            tempo,
            beats_per_measure,
        ) < beats_per_measure,
{
}

} // verus!
