//! The conversion of a beatmap into a track.
//!
//! The track takes its dominant tempo, its tempo changes and its
//! highlighted stretches from the timeline, its two lanes of notes from
//! the hit objects, and its names from the beatmap's metadata.

use crate::error::ConvertError;
use crate::fixed::div_trunc;
use crate::fixed::whole_part;
use crate::kiai::find_kiai_intervals;
use crate::kiai::kiai_intervals;
use crate::lanes::encode_lanes;
use crate::lanes::lane_notes;
use crate::lanes::lane_text;
use crate::lanes::render_lane;
use crate::lanes::Note;
use crate::lanes::Rules;
use crate::osu;
use crate::osu::OsuMap;
use crate::te;
use crate::te::DifficultySettings;
use crate::te::MapData;
use crate::te::SpecialSection;
use crate::te::TeMap;
use crate::tempo::find_dominant_bpm;
use crate::tempo::has_any_tempo;
use crate::tempo::is_dominant;
use crate::tempo::is_tempo;
use crate::tempo::ordered;
use vstd::prelude::*;

verus! {

/// What becomes of a spinner.
#[derive(Clone, Copy, Debug, PartialEq, Eq, Structural)]
pub enum SpinnerBehaviour {
    /// It is left out.
    Ignore,
    /// It becomes a hold in both lanes.
    Both,
    /// It becomes a hold in the lane that is active.
    Current,
}

/// The tempo change that a tempo-defining point becomes: its offset, in
/// milliseconds and in seconds, and its beat length.
pub open spec fn marker_of(p: osu::TimingPoint) -> te::TimingPoint {
    te::TimingPoint { time: p.offset, ms_per_beat: p.ms_per_beat, time_in_sec: p.offset }
}

/// The tempo changes of the tempo-defining points among `points`.
pub open spec fn markers_of(points: Seq<osu::TimingPoint>) -> Seq<te::TimingPoint> {
    points.filter(|p: osu::TimingPoint| is_tempo(p)).map_values(|p: osu::TimingPoint| marker_of(p))
}

/// The tempo changes of a track: one for each tempo-defining point of the
/// timeline but the first point, which is left out whatever it is.
pub open spec fn tempo_markers(points: Seq<osu::TimingPoint>) -> Seq<te::TimingPoint> {
    if points.len() == 0 {
        Seq::empty()
    } else {
        markers_of(points.subrange(1, points.len() as int))
    }
}

/// The section of a highlighted stretch: its bounds, in milliseconds and
/// in seconds.
pub open spec fn section_of(interval: (i64, i64)) -> SpecialSection {
    SpecialSection {
        start_time: interval.0,
        end_time: interval.1,
        start_time_in_sec: interval.0,
        end_time_in_sec: interval.1,
    }
}

/// The sections of the highlighted stretches, in order.
pub open spec fn sections_of(intervals: Seq<(i64, i64)>) -> Seq<SpecialSection> {
    intervals.map_values(|interval: (i64, i64)| section_of(interval))
}

/// Whether `data` describes the track of `beatmap` under `rules` and
/// `settings`.
pub open spec fn describes(
    data: MapData,
    beatmap: osu::Beatmap,
    rules: Rules,
    settings: DifficultySettings,
) -> bool {
    let points = beatmap.timing_points@;
    let objects = beatmap.hit_objects@;
    let multiplier = beatmap.difficulty.slider_multiplier as int;
    &&& data.mapper_name@ == beatmap.metadata.creator@
    &&& data.audio_file_name@ == beatmap.general.audio_filename@
    &&& data.thumbnail_file_name@ == "thumb.png"@
    &&& data.song_file_name@ == beatmap.metadata.title@ + ".song"@
    &&& data.display_name@ == beatmap.metadata.title@
    &&& data.artist@ == beatmap.metadata.artist@
    &&& data.difficulty_name@ == beatmap.metadata.version@
    &&& data.preview_time_seconds == beatmap.general.preview_time * 10_000
    &&& is_dominant(points, data.bpm as int)
    &&& data.difficulty_settings == settings
    &&& points.len() > 0
    &&& data.first_beat_offset_in_ms == div_trunc(points[0].offset as int, 10_000)
    &&& data.timing_points@ == tempo_markers(points)
    &&& data.left_disc_notes@ == lane_text(
        lane_notes(objects, points, multiplier, rules, true, objects.len() as int),
    )
    &&& data.right_disc_notes@ == lane_text(
        lane_notes(objects, points, multiplier, rules, false, objects.len() as int),
    )
    &&& data.song_events@.len() == 0
    &&& data.special_sections@ == sections_of(kiai_intervals(points))
    &&& data.breaks@.len() == 0
    &&& data.additional_difficulties@.len() == 0
}

/// How many of the points define a tempo.
pub open spec fn tempo_count(points: Seq<osu::TimingPoint>) -> nat
    decreases points.len(),
{
    if points.len() == 0 {
        0
    } else {
        tempo_count(points.drop_last()) + if is_tempo(points.last()) {
            1nat
        } else {
            0nat
        }
    }
}

/// There is one tempo change for each tempo-defining point, in the order
/// of the points: that of a tempo-defining point stands where as many
/// changes go before it as tempo-defining points go before the point.
pub proof fn lemma_markers_of(points: Seq<osu::TimingPoint>)
    ensures
        markers_of(points).len() == tempo_count(points),
        forall|i: int|
            0 <= i < points.len() && is_tempo(#[trigger] points[i]) ==> tempo_count(points.take(i))
                < tempo_count(points) && markers_of(points)[tempo_count(points.take(i)) as int]
                == marker_of(points[i]),
    decreases points.len(),
{
    reveal(Seq::filter);
    let keep = |p: osu::TimingPoint| is_tempo(p);
    if points.len() > 0 {
        let front = points.drop_last();
        let last = points.last();
        lemma_markers_of(front);
        assert(points.filter(keep) == if is_tempo(last) {
            front.filter(keep).push(last)
        } else {
            front.filter(keep)
        });
        assert(markers_of(points) =~= if is_tempo(last) {
            markers_of(front).push(marker_of(last))
        } else {
            markers_of(front)
        });
        assert forall|i: int| 0 <= i < points.len() && is_tempo(#[trigger] points[i]) implies tempo_count(
            points.take(i),
        ) < tempo_count(points) && markers_of(points)[tempo_count(points.take(i)) as int]
            == marker_of(points[i]) by {
            if i == points.len() - 1 {
                assert(points.take(i) =~= front);
            } else {
                assert(points.take(i) =~= front.take(i));
                assert(is_tempo(front[i]));
            }
        }
    }
}

/// The tempo changes of a track are those of the tempo-defining points
/// behind the first point, in their order.
pub proof fn lemma_tempo_markers(points: Seq<osu::TimingPoint>)
    requires
        points.len() > 0,
    ensures
        tempo_markers(points).len() == tempo_count(points.subrange(1, points.len() as int)),
        forall|i: int|
            1 <= i < points.len() && is_tempo(#[trigger] points[i]) ==> tempo_count(
                points.subrange(1, i),
            ) < tempo_markers(points).len() && tempo_markers(points)[tempo_count(
                points.subrange(1, i),
            ) as int] == marker_of(points[i]),
{
    let rest = points.subrange(1, points.len() as int);
    lemma_markers_of(rest);
    assert forall|i: int| 1 <= i < points.len() && is_tempo(#[trigger] points[i]) implies tempo_count(
        points.subrange(1, i),
    ) < tempo_markers(points).len() && tempo_markers(points)[tempo_count(
        points.subrange(1, i),
    ) as int] == marker_of(points[i]) by {
        assert(rest[i - 1] == points[i]);
        assert(is_tempo(rest[i - 1]));
        assert(rest.take(i - 1) =~= points.subrange(1, i));
    }
}

/// The sections of an ordered timeline do not overlap and ascend, by their
/// bounds in milliseconds and by those in seconds alike: each ends no
/// earlier than it starts, and starts no earlier than the one before it
/// ends.
pub proof fn lemma_sections_disjoint_ascending(points: Seq<osu::TimingPoint>)
    requires
        ordered(points),
    ensures
        forall|k: int|
            0 <= k < sections_of(kiai_intervals(points)).len() ==> {
                let section = #[trigger] sections_of(kiai_intervals(points))[k];
                section.start_time <= section.end_time && section.start_time_in_sec
                    <= section.end_time_in_sec
            },
        forall|k: int, l: int|
            0 <= k < l < sections_of(kiai_intervals(points)).len() ==> {
                let first = #[trigger] sections_of(kiai_intervals(points))[k];
                let second = #[trigger] sections_of(kiai_intervals(points))[l];
                first.end_time <= second.start_time && first.end_time_in_sec
                    <= second.start_time_in_sec
            },
{
    let intervals = kiai_intervals(points);
    let sections = sections_of(intervals);
    crate::kiai::lemma_kiai_disjoint_ascending(points);
    assert forall|k: int| 0 <= k < sections.len() implies {
        let section = #[trigger] sections[k];
        section.start_time <= section.end_time && section.start_time_in_sec
            <= section.end_time_in_sec
    } by {
        assert(intervals[k].0 <= intervals[k].1);
    }
    assert forall|k: int, l: int| 0 <= k < l < sections.len() implies {
        let first = #[trigger] sections[k];
        let second = #[trigger] sections[l];
        first.end_time <= second.start_time && first.end_time_in_sec <= second.start_time_in_sec
    } by {
        assert(intervals[k].1 <= intervals[l].0);
    }
}

/// The tempo change that a tempo-defining point becomes.
pub fn make_marker(p: &osu::TimingPoint) -> (marker: te::TimingPoint)
    ensures
        marker == marker_of(*p),
{
    te::TimingPoint { time: p.offset, ms_per_beat: p.ms_per_beat, time_in_sec: p.offset }
}

/// The tempo changes of a track.
pub fn project_timing_points(points: &Vec<osu::TimingPoint>) -> (markers: Vec<te::TimingPoint>)
    ensures
        markers@ == tempo_markers(points@),
{
    let n: usize = points.len();
    let mut markers: Vec<te::TimingPoint> = Vec::new();
    if n == 0 {
        return markers;
    }
    let mut i: usize = 1;
    assert(markers@ =~= markers_of(points@.subrange(1, 1)));
    while i < n
        invariant
            n == points.len(),
            1 <= i <= n,
            markers@ == markers_of(points@.subrange(1, i as int)),
        decreases n - i,
    {
        let p: &osu::TimingPoint = &points[i];
        proof {
            let grown = points@.subrange(1, i as int + 1);
            assert(grown.drop_last() =~= points@.subrange(1, i as int));
            assert(grown.last() == points@[i as int]);
        }
        if p.ms_per_beat > 0 {
            markers.push(make_marker(p));
        }
        proof {
            let before = points@.subrange(1, i as int);
            let grown = points@.subrange(1, i as int + 1);
            let keep = |p: osu::TimingPoint| is_tempo(p);
            reveal(Seq::filter);
            assert(grown.filter(keep) == if is_tempo(points@[i as int]) {
                before.filter(keep).push(points@[i as int])
            } else {
                before.filter(keep)
            });
            assert(markers_of(grown) =~= if is_tempo(points@[i as int]) {
                markers_of(before).push(marker_of(points@[i as int]))
            } else {
                markers_of(before)
            });
        }
        i += 1;
    }
    markers
}

/// The section of a highlighted stretch.
pub fn make_section(start: i64, end: i64) -> (section: SpecialSection)
    ensures
        section == section_of((start, end)),
{
    SpecialSection { start_time: start, end_time: end, start_time_in_sec: start, end_time_in_sec: end }
}

/// The sections of the highlighted stretches of a timeline.
pub fn special_sections(points: &Vec<osu::TimingPoint>) -> (sections: Vec<SpecialSection>)
    ensures
        sections@ == sections_of(kiai_intervals(points@)),
{
    let intervals: Vec<(i64, i64)> = find_kiai_intervals(points);
    let mut sections: Vec<SpecialSection> = Vec::new();
    let mut k: usize = 0;
    while k < intervals.len()
        invariant
            k <= intervals.len(),
            sections@ == sections_of(intervals@.take(k as int)),
        decreases intervals.len() - k,
    {
        let interval: (i64, i64) = intervals[k];
        sections.push(make_section(interval.0, interval.1));
        assert(intervals@.take(k as int + 1) =~= intervals@.take(k as int).push(interval));
        assert(sections@ =~= sections_of(intervals@.take(k as int + 1)));
        k += 1;
    }
    assert(intervals@.take(k as int) =~= intervals@);
    sections
}

/// Puts a track together from a beatmap, with the given settings.
///
/// Fails when the timeline holds no tempo-defining point, as an empty one
/// does.
pub fn assemble(osu_map: &OsuMap, rules: &Rules, settings: DifficultySettings) -> (r: Result<
    TeMap,
    ConvertError,
>)
    requires
        ordered(osu_map.data.timing_points@),
    ensures
        r is Ok <==> has_any_tempo(osu_map.data.timing_points@),
        match r {
            Ok(track) => describes(track.data, osu_map.data, *rules, settings) && track.audio@
                == osu_map.audio@,
            Err(e) => e == ConvertError::EmptyTimeline,
        },
{
    let beatmap: &osu::Beatmap = &osu_map.data;
    let points: &Vec<osu::TimingPoint> = &beatmap.timing_points;
    let bpm: i64 = match find_dominant_bpm(points) {
        Ok(bpm) => bpm,
        Err(e) => {
            return Err(e);
        },
    };
    assert(points@.len() > 0);
    let lanes: (Vec<Note>, Vec<Note>) = encode_lanes(
        &beatmap.hit_objects,
        points,
        beatmap.difficulty.slider_multiplier,
        rules,
    );
    let mut song_file_name: String = beatmap.metadata.title.clone();
    song_file_name.append(".song");
    let audio: Vec<u8> = osu_map.audio.clone();
    assert(audio@ =~= osu_map.audio@);
    let data = MapData {
        mapper_name: beatmap.metadata.creator.clone(),
        audio_file_name: beatmap.general.audio_filename.clone(),
        thumbnail_file_name: String::from_str("thumb.png"),
        song_file_name,
        display_name: beatmap.metadata.title.clone(),
        artist: beatmap.metadata.artist.clone(),
        difficulty_name: beatmap.metadata.version.clone(),
        preview_time_seconds: (beatmap.general.preview_time as i64) * 10_000,
        bpm,
        difficulty_settings: settings,
        first_beat_offset_in_ms: whole_part(points[0].offset),
        timing_points: project_timing_points(points),
        right_disc_notes: render_lane(&lanes.1),
        left_disc_notes: render_lane(&lanes.0),
        song_events: Vec::new(),
        special_sections: special_sections(points),
        breaks: Vec::new(),
        additional_difficulties: Vec::new(),
    };
    Ok(TeMap { data, audio })
}

/// Converts a beatmap into a track.
///
/// A slider becomes a hold where it is longer than `slider_beat_limit`
/// beats (in steps) by more than one step. A hit circle is reversed where
/// its hitsound has all the bits of `reverse_hitsound_mask`, unless the
/// mask is zero.
///
/// Fails when the timeline holds no tempo-defining point, as an empty one
/// does.
pub fn convert(
    osu_map: &OsuMap,
    slider_beat_limit: i32,
    reverse_hitsound_mask: i32,
    spinner_behaviour: SpinnerBehaviour,
) -> (r: Result<TeMap, ConvertError>)
    requires
        ordered(osu_map.data.timing_points@),
    ensures
        r is Ok <==> has_any_tempo(osu_map.data.timing_points@),
        match r {
            Ok(track) => describes(
                track.data,
                osu_map.data,
                (Rules { slider_beat_limit, reverse_hitsound_mask, spinner_behaviour }),
                (DifficultySettings {
                    note_appear_time: 5_000,
                    rotation_speed: 1_250_000,
                    health_drain_per_second: 50_000,
                }),
            ) && track.audio@ == osu_map.audio@,
            Err(e) => e == ConvertError::EmptyTimeline,
        },
{
    let rules = Rules { slider_beat_limit, reverse_hitsound_mask, spinner_behaviour };
    assemble(osu_map, &rules, DifficultySettings::standard())
}

} // verus!
