use osu2te::convert::convert;
use osu2te::convert::SpinnerBehaviour;
use osu2te::error::ConvertError;
use osu2te::lanes::encode_lanes;
use osu2te::lanes::render_lane;
use osu2te::lanes::Rules;
use osu2te::osu::Beatmap;
use osu2te::osu::DifficultySection;
use osu2te::osu::GeneralSection;
use osu2te::osu::HitCircle;
use osu2te::osu::HitObject;
use osu2te::osu::MetadataSection;
use osu2te::osu::OsuMap;
use osu2te::osu::Slider;
use osu2te::osu::Spinner;
use osu2te::osu::TimingPoint;

const STEP: i64 = 10_000;

fn point(offset_ms: i64, ms_per_beat: i32, kiai_mode: bool) -> TimingPoint {
    TimingPoint { offset: offset_ms * STEP, ms_per_beat: ms_per_beat * 10_000, kiai_mode }
}

fn circle(time: i32, new_combo: bool, hitsound: i32) -> HitObject {
    HitObject::HitCircle(HitCircle { time, new_combo, hitsound })
}

fn map_of(timing_points: Vec<TimingPoint>, hit_objects: Vec<HitObject>) -> OsuMap {
    OsuMap {
        data: Beatmap {
            general: GeneralSection { audio_filename: String::from("audio.mp3"), preview_time: 0 },
            metadata: MetadataSection {
                title: String::from("Title"),
                artist: String::from("Artist"),
                creator: String::from("Mapper"),
                version: String::from("Hard"),
            },
            difficulty: DifficultySection { slider_multiplier: 10_000 },
            timing_points,
            hit_objects,
        },
        audio: vec![1, 2, 3],
    }
}

#[test]
fn single_circle_lands_in_the_left_lane() {
    let map = map_of(vec![point(0, 500, false)], vec![circle(100, false, 0)]);
    let track = convert(&map, 5_000, 0, SpinnerBehaviour::Both).unwrap();
    assert_eq!(track.data.bpm, 120_000);
    assert!(track.data.timing_points.is_empty());
    assert_eq!(track.data.left_disc_notes, "100:0:0");
    assert_eq!(track.data.right_disc_notes, "");
}

#[test]
fn new_combo_moves_the_second_circle_to_the_right_lane() {
    let map =
        map_of(vec![point(0, 500, false)], vec![circle(0, false, 0), circle(200, true, 0)]);
    let track = convert(&map, 5_000, 0, SpinnerBehaviour::Both).unwrap();
    assert_eq!(track.data.left_disc_notes, "0:0:0");
    assert_eq!(track.data.right_disc_notes, "200:0:0");
}

#[test]
fn long_slider_becomes_a_hold() {
    let slider =
        HitObject::Slider(Slider { time: 0, new_combo: false, pixel_length: 1_000_000, repeat: 1 });
    let map = map_of(vec![point(0, 500, false)], vec![slider]);
    let track = convert(&map, 5_000, 0, SpinnerBehaviour::Both).unwrap();
    assert_eq!(track.data.left_disc_notes, "0:2:0|500:3:0");
    assert_eq!(track.data.right_disc_notes, "");
}

#[test]
fn kiai_section_between_on_and_off() {
    let map = map_of(
        vec![point(0, 500, false), point(1000, 500, true), point(2000, 500, false)],
        vec![],
    );
    assert_eq!(map.find_kiai(), vec![(1000 * STEP, 2000 * STEP)]);
    let track = convert(&map, 5_000, 0, SpinnerBehaviour::Both).unwrap();
    assert_eq!(track.data.special_sections.len(), 1);
    let section = track.data.special_sections[0];
    assert_eq!(section.start_time, 1000 * STEP);
    assert_eq!(section.end_time, 2000 * STEP);
    // One second is ten million steps of a second.
    assert_eq!(section.start_time_in_sec, 10_000_000);
    assert_eq!(section.end_time_in_sec, 20_000_000);
}

#[test]
fn spinner_with_both_enters_both_lanes() {
    let spinner = HitObject::Spinner(Spinner { time: 500, new_combo: true, end_time: 1500 });
    let rules = Rules {
        slider_beat_limit: 5_000,
        reverse_hitsound_mask: 0,
        spinner_behaviour: SpinnerBehaviour::Both,
    };
    let points = vec![point(0, 500, false)];
    let (left, right) = encode_lanes(&vec![spinner], &points, 10_000, &rules);
    assert_eq!(render_lane(&left), "500:2:0|1500:3:0");
    assert_eq!(render_lane(&right), "500:2:0|1500:3:0");
}

#[test]
fn empty_timeline_is_an_error() {
    let map = map_of(vec![], vec![circle(100, false, 0)]);
    assert_eq!(convert(&map, 5_000, 0, SpinnerBehaviour::Both), Err(ConvertError::EmptyTimeline));
    assert_eq!(map.find_most_used_bpm(), Err(ConvertError::EmptyTimeline));
    assert!(map.find_kiai().is_empty());
}

#[test]
fn timeline_without_tempo_is_an_error() {
    let map = map_of(vec![point(0, -100, false), point(500, -50, true)], vec![]);
    assert_eq!(convert(&map, 5_000, 0, SpinnerBehaviour::Both), Err(ConvertError::EmptyTimeline));
    assert_eq!(
        ConvertError::EmptyTimeline.message(),
        "the beatmap has no tempo-defining timing point"
    );
}
