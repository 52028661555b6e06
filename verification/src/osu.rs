//! The beatmap that is converted: its tempo timeline, its hit objects and
//! the few other values the conversion reads.

use crate::error::ConvertError;
use crate::kiai::find_kiai_intervals;
use crate::kiai::kiai_intervals;
use crate::tempo::find_dominant_bpm;
use crate::tempo::has_any_tempo;
use crate::tempo::is_dominant;
use crate::tempo::ordered;
use vstd::prelude::*;

verus! {

/// A marker on the tempo timeline.
///
/// A positive `ms_per_beat` defines the tempo from `offset` on. A negative
/// one leaves the tempo alone and scales the slider velocity instead: it is
/// `-100 / multiplier` milliseconds. Zero does neither.
#[derive(Clone, Copy, Debug, PartialEq, Eq, Structural)]
pub struct TimingPoint {
    /// Milliseconds from the start of the song, in steps.
    pub offset: i64,
    /// Milliseconds per beat, in steps.
    pub ms_per_beat: i32,
    /// Whether the highlighted ("kiai") mode is on from here.
    pub kiai_mode: bool,
}

/// A single tap.
#[derive(Clone, Copy, Debug, PartialEq, Eq, Structural)]
pub struct HitCircle {
    /// Whole milliseconds from the start of the song.
    pub time: i32,
    pub new_combo: bool,
    /// Bit 0 normal, bit 1 whistle, bit 2 finish, bit 3 clap.
    pub hitsound: i32,
}

/// A note that is held along a path.
#[derive(Clone, Copy, Debug, PartialEq, Eq, Structural)]
pub struct Slider {
    /// Whole milliseconds from the start of the song.
    pub time: i32,
    pub new_combo: bool,
    /// Length of the path in pixels, in steps.
    pub pixel_length: u32,
    /// How many times the path is travelled.
    pub repeat: i32,
}

/// A note that is spun until `end_time`.
#[derive(Clone, Copy, Debug, PartialEq, Eq, Structural)]
pub struct Spinner {
    /// Whole milliseconds from the start of the song.
    pub time: i32,
    pub new_combo: bool,
    /// Whole milliseconds from the start of the song.
    pub end_time: i32,
}

/// A note that is held until `end_time`.
#[derive(Clone, Copy, Debug, PartialEq, Eq, Structural)]
pub struct HoldNote {
    /// Whole milliseconds from the start of the song.
    pub time: i32,
    pub new_combo: bool,
    /// Whole milliseconds from the start of the song.
    pub end_time: i32,
}

/// One of the four kinds of hit object.
#[derive(Clone, Copy, Debug, PartialEq, Eq, Structural)]
pub enum HitObject {
    HitCircle(HitCircle),
    Slider(Slider),
    Spinner(Spinner),
    HoldNote(HoldNote),
}

impl HitObject {
    /// When the object is hit, in whole milliseconds.
    pub open spec fn spec_time(&self) -> i32 {
        match *self {
            HitObject::HitCircle(o) => o.time,
            HitObject::Slider(o) => o.time,
            HitObject::Spinner(o) => o.time,
            HitObject::HoldNote(o) => o.time,
        }
    }

    /// Whether the object starts a new combo.
    pub open spec fn spec_new_combo(&self) -> bool {
        match *self {
            HitObject::HitCircle(o) => o.new_combo,
            HitObject::Slider(o) => o.new_combo,
            HitObject::Spinner(o) => o.new_combo,
            HitObject::HoldNote(o) => o.new_combo,
        }
    }

    /// When the object is hit, in whole milliseconds.
    #[verifier::when_used_as_spec(spec_time)]
    pub fn time(&self) -> (t: i32)
        ensures
            t == self.spec_time(),
    {
        match self {
            HitObject::HitCircle(o) => o.time,
            HitObject::Slider(o) => o.time,
            HitObject::Spinner(o) => o.time,
            HitObject::HoldNote(o) => o.time,
        }
    }

    /// Whether the object starts a new combo.
    #[verifier::when_used_as_spec(spec_new_combo)]
    pub fn new_combo(&self) -> (b: bool)
        ensures
            b == self.spec_new_combo(),
    {
        match self {
            HitObject::HitCircle(o) => o.new_combo,
            HitObject::Slider(o) => o.new_combo,
            HitObject::Spinner(o) => o.new_combo,
            HitObject::HoldNote(o) => o.new_combo,
        }
    }
}

/// What a beatmap says of its song file.
#[derive(Clone, Debug, PartialEq, Eq)]
pub struct GeneralSection {
    pub audio_filename: String,
    /// Where the song preview starts, in whole milliseconds.
    pub preview_time: i32,
}

/// Who made what.
#[derive(Clone, Debug, PartialEq, Eq)]
pub struct MetadataSection {
    pub title: String,
    pub artist: String,
    /// The mapper.
    pub creator: String,
    /// The name of the difficulty.
    pub version: String,
}

/// Difficulty modifiers.
#[derive(Clone, Copy, Debug, PartialEq, Eq, Structural)]
pub struct DifficultySection {
    /// The global slider velocity scale, in steps: at `1.0` a slider
    /// covers 100 pixels per beat.
    pub slider_multiplier: u32,
}

/// A parsed beatmap.
#[derive(Clone, Debug, PartialEq, Eq)]
pub struct Beatmap {
    pub general: GeneralSection,
    pub metadata: MetadataSection,
    pub difficulty: DifficultySection,
    /// Ascending by offset.
    pub timing_points: Vec<TimingPoint>,
    /// Ascending by time.
    pub hit_objects: Vec<HitObject>,
}

/// A beatmap together with its song.
#[derive(Clone, Debug, PartialEq, Eq)]
pub struct OsuMap {
    pub data: Beatmap,
    pub audio: Vec<u8>,
}

impl OsuMap {
    /// The tempo that covers the most time of the song, in thousandths of
    /// a beat per minute; among tempi that cover the same time, the
    /// largest.
    ///
    /// Fails exactly when the timeline holds no tempo-defining point, as
    /// an empty one does.
    pub fn find_most_used_bpm(&self) -> (r: Result<i64, ConvertError>)
        requires
            ordered(self.data.timing_points@),
        ensures
            r is Ok <==> has_any_tempo(self.data.timing_points@),
            match r {
                Ok(key) => is_dominant(self.data.timing_points@, key as int),
                Err(e) => e == ConvertError::EmptyTimeline,
            },
    {
        find_dominant_bpm(&self.data.timing_points)
    }

    /// The highlighted stretches of the song as pairs of start and end
    /// offset, in order.
    pub fn find_kiai(&self) -> (intervals: Vec<(i64, i64)>)
        ensures
            intervals@ == kiai_intervals(self.data.timing_points@),
    {
        find_kiai_intervals(&self.data.timing_points)
    }
}

} // verus!
