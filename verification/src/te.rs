//! The track that a conversion produces.
//!
//! Times are in steps of a ten-thousandth of a millisecond. Their
//! duplicates in seconds are in steps of a ten-millionth of a second, which
//! are as long, so that a time and its duplicate hold the same count. The
//! dominant tempo is in thousandths of a beat per minute.

use vstd::prelude::*;

verus! {

/// A JSON value, as `serde_json` holds it. Nothing is known of its content
/// here.
#[verifier::external_type_specification]
#[verifier::external_body]
pub struct ExJsonValue(serde_json::Value);

/// A track together with its song.
#[derive(Default, Debug, Clone, PartialEq)]
pub struct TeMap {
    pub data: MapData,
    pub audio: Vec<u8>,
}

/// The description of a track.
#[derive(Default, Debug, Clone, PartialEq)]
pub struct MapData {
    pub mapper_name: String,
    pub audio_file_name: String,
    pub thumbnail_file_name: String,
    pub song_file_name: String,
    pub display_name: String,
    pub artist: String,
    pub difficulty_name: String,
    /// Where the song preview starts, in ten-millionths of a second.
    pub preview_time_seconds: i64,
    /// The dominant tempo.
    pub bpm: i64,
    pub difficulty_settings: DifficultySettings,
    /// Where the first beat falls, in whole milliseconds.
    pub first_beat_offset_in_ms: i64,
    /// The changes of tempo after the start.
    pub timing_points: Vec<TimingPoint>,
    pub right_disc_notes: String,
    pub left_disc_notes: String,
    pub song_events: Vec<SongEvent>,
    /// The highlighted stretches.
    pub special_sections: Vec<SpecialSection>,
    pub breaks: Vec<Break>,
    pub additional_difficulties: Vec<serde_json::Value>,
}

/// How a track plays. All three are in steps.
#[derive(Default, Debug, Clone, Copy, PartialEq, Eq, Structural)]
pub struct DifficultySettings {
    /// Seconds between a note's appearance and its hit.
    pub note_appear_time: i64,
    pub rotation_speed: i64,
    pub health_drain_per_second: i64,
}

impl DifficultySettings {
    /// The settings that every converted track gets: notes appear half a
    /// second ahead, the discs turn at 125, and health drains at 5 a
    /// second.
    pub fn standard() -> (settings: DifficultySettings)
        ensures
            settings == (DifficultySettings {
                note_appear_time: 5_000,
                rotation_speed: 1_250_000,
                health_drain_per_second: 50_000,
            }),
    {
        DifficultySettings {
            note_appear_time: 5_000,
            rotation_speed: 1_250_000,
            health_drain_per_second: 50_000,
        }
    }
}

/// A change of tempo.
#[derive(Default, Debug, Clone, Copy, PartialEq, Eq, Structural)]
pub struct TimingPoint {
    pub time: i64,
    /// The length of a beat from here on, in steps of a millisecond. The
    /// tempo is `60000 / ms_per_beat` beats per minute; the record keeps
    /// the beat length so that the quotient is not rounded.
    pub ms_per_beat: i32,
    /// `time`, in ten-millionths of a second.
    pub time_in_sec: i64,
}

/// Something that happens at a point of the song.
#[derive(Default, Debug, Clone, PartialEq)]
pub struct SongEvent {
    pub time: i64,
    pub color_change: bool,
    pub color_change_event: ColorChangeEvent,
    pub particles: bool,
    pub particles_event: ParticlesEvent,
    pub special_section: bool,
}

/// A change of colour.
#[derive(Default, Debug, Clone, PartialEq)]
pub struct ColorChangeEvent {
    pub color: String,
    pub transition_time: i64,
    pub one_shot: bool,
    pub hold_duration: i64,
    pub transition_back_time: i64,
}

/// A burst of particles.
#[derive(Default, Debug, Clone, PartialEq)]
pub struct ParticlesEvent {
    pub duration: i64,
    pub particles: Option<String>,
}

/// A highlighted stretch.
#[derive(Default, Debug, Clone, Copy, PartialEq, Eq, Structural)]
pub struct SpecialSection {
    pub start_time: i64,
    pub end_time: i64,
    /// `start_time`, in ten-millionths of a second.
    pub start_time_in_sec: i64,
    /// `end_time`, in ten-millionths of a second.
    pub end_time_in_sec: i64,
}

/// A stretch without notes.
#[derive(Default, Debug, Clone, Copy, PartialEq, Eq, Structural)]
pub struct Break {
    pub start_time: i64,
    pub end_time: i64,
    /// `start_time`, in ten-millionths of a second.
    pub start_time_in_sec: i64,
    /// `end_time`, in ten-millionths of a second.
    pub end_time_in_sec: i64,
}

} // verus!
