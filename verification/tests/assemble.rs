use osu2te::convert::assemble;
use osu2te::convert::convert;
use osu2te::convert::project_timing_points;
use osu2te::convert::special_sections;
use osu2te::convert::SpinnerBehaviour;
use osu2te::lanes::Rules;
use osu2te::osu::Beatmap;
use osu2te::osu::DifficultySection;
use osu2te::osu::GeneralSection;
use osu2te::osu::HitCircle;
use osu2te::osu::HitObject;
use osu2te::osu::MetadataSection;
use osu2te::osu::OsuMap;
use osu2te::osu::Slider;
use osu2te::osu::TimingPoint;
use osu2te::te::DifficultySettings;
use osu2te::te::MapData;
use osu2te::te::SpecialSection;
use osu2te::te::TimingPoint as TimingMarker;
use osu2te::thumb::square_crop;
use osu2te::thumb::CropRect;

fn point(offset: i64, ms_per_beat: i32, kiai_mode: bool) -> TimingPoint {
    TimingPoint { offset, ms_per_beat, kiai_mode }
}

fn sample() -> OsuMap {
    OsuMap {
        data: Beatmap {
            general: GeneralSection {
                audio_filename: String::from("song.mp3"),
                preview_time: 12_345,
            },
            metadata: MetadataSection {
                title: String::from("Night Rabbit"),
                artist: String::from("MISATO"),
                creator: String::from("Sotarks"),
                version: String::from("Insane"),
            },
            difficulty: DifficultySection { slider_multiplier: 14_000 },
            timing_points: vec![
                point(-15_000, 4_000_000, false),
                point(100_000_000, -500_000, true),
                point(200_000_000, 3_333_333, true),
                point(200_001_234, 0, false),
                point(300_000_000, 4_000_000, false),
            ],
            hit_objects: vec![
                HitObject::HitCircle(HitCircle { time: 0, new_combo: true, hitsound: 2 }),
                HitObject::Slider(Slider {
                    time: 10_000,
                    new_combo: true,
                    pixel_length: 2_800_000,
                    repeat: 2,
                }),
            ],
        },
        audio: vec![9, 8, 7, 6],
    }
}

#[test]
fn names_pass_through() {
    let track = convert(&sample(), 5_000, 2, SpinnerBehaviour::Both).unwrap();
    let data = &track.data;
    assert_eq!(data.mapper_name, "Sotarks");
    assert_eq!(data.audio_file_name, "song.mp3");
    assert_eq!(data.thumbnail_file_name, "thumb.png");
    assert_eq!(data.song_file_name, "Night Rabbit.song");
    assert_eq!(data.display_name, "Night Rabbit");
    assert_eq!(data.artist, "MISATO");
    assert_eq!(data.difficulty_name, "Insane");
    // 12.345 s in ten-millionths.
    assert_eq!(data.preview_time_seconds, 123_450_000);
    assert_eq!(track.audio, vec![9, 8, 7, 6]);
    assert!(data.song_events.is_empty());
    assert!(data.breaks.is_empty());
    assert!(data.additional_difficulties.is_empty());
}

#[test]
fn track_takes_tempo_sections_and_lanes_from_the_beatmap() {
    let track = convert(&sample(), 5_000, 2, SpinnerBehaviour::Both).unwrap();
    let data = &track.data;
    // 150 bpm covers 20 001.5 ms, 180 bpm covers 10 000 ms.
    assert_eq!(data.bpm, 150_000);
    assert_eq!(data.first_beat_offset_in_ms, -1);
    assert_eq!(data.timing_points.len(), 2);
    assert_eq!(
        data.timing_points,
        vec![
            TimingMarker { time: 200_000_000, ms_per_beat: 3_333_333, time_in_sec: 200_000_000 },
            TimingMarker { time: 300_000_000, ms_per_beat: 4_000_000, time_in_sec: 300_000_000 },
        ]
    );
    assert_eq!(
        data.special_sections,
        vec![SpecialSection {
            start_time: 100_000_000,
            end_time: 200_001_234,
            start_time_in_sec: 100_000_000,
            end_time_in_sec: 200_001_234,
        }]
    );
    // 280 px at 140 px per beat and twice the velocity: one beat of 400 ms, twice.
    assert_eq!(data.right_disc_notes, "0:1:0");
    assert_eq!(data.left_disc_notes, "10000:2:0|10800:3:0");
}

#[test]
fn settings_are_the_standard_ones_unless_given() {
    let track = convert(&sample(), 5_000, 2, SpinnerBehaviour::Both).unwrap();
    assert_eq!(
        track.data.difficulty_settings,
        DifficultySettings {
            note_appear_time: 5_000,
            rotation_speed: 1_250_000,
            health_drain_per_second: 50_000,
        }
    );
    assert_eq!(track.data.difficulty_settings, DifficultySettings::standard());
    let own = DifficultySettings {
        note_appear_time: 1,
        rotation_speed: 2,
        health_drain_per_second: 3,
    };
    let rules = Rules {
        slider_beat_limit: 5_000,
        reverse_hitsound_mask: 2,
        spinner_behaviour: SpinnerBehaviour::Both,
    };
    let given = assemble(&sample(), &rules, own).unwrap();
    assert_eq!(given.data.difficulty_settings, own);
    let mut expected = track.data.clone();
    expected.difficulty_settings = own;
    assert_eq!(given.data, expected);
}

#[test]
fn first_point_is_never_a_tempo_change() {
    let points = vec![point(0, 5_000_000, false)];
    assert!(project_timing_points(&points).is_empty());
    assert!(project_timing_points(&vec![]).is_empty());
    let velocity_first = vec![point(0, -1_000_000, false), point(5, 5_000_000, false)];
    let markers = project_timing_points(&velocity_first);
    assert_eq!(markers, vec![TimingMarker { time: 5, ms_per_beat: 5_000_000, time_in_sec: 5 }]);
}

#[test]
fn sections_carry_their_bounds_in_seconds() {
    let points = vec![point(-2_500, 5_000_000, true), point(1_499, 5_000_000, false)];
    assert_eq!(
        special_sections(&points),
        vec![SpecialSection {
            start_time: -2_500,
            end_time: 1_499,
            start_time_in_sec: -2_500,
            end_time_in_sec: 1_499,
        }]
    );
}

#[test]
fn tempo_change_keeps_its_beat_length_and_time_unrounded() {
    // 1234.56 ms and a beat of 350 ms: neither 60000 / 350 nor 1.23456 s
    // has four decimals.
    let points = vec![point(0, 5_000_000, false), point(12_345_600, 3_500_000, false)];
    assert_eq!(
        project_timing_points(&points),
        vec![TimingMarker { time: 12_345_600, ms_per_beat: 3_500_000, time_in_sec: 12_345_600 }]
    );
}

#[test]
fn default_records_are_empty() {
    let data = MapData::default();
    assert_eq!(data.bpm, 0);
    assert_eq!(data.left_disc_notes, "");
    assert_eq!(data.difficulty_settings.rotation_speed, 0);
    assert!(data.timing_points.is_empty());
}

#[test]
fn thumbnail_is_cropped_to_the_square_in_the_middle() {
    assert_eq!(square_crop(1920, 1080), CropRect { x: 420, y: 0, width: 1080, height: 1080 });
    assert_eq!(square_crop(101, 100), CropRect { x: 0, y: 0, width: 100, height: 100 });
    assert_eq!(square_crop(100, 100), CropRect { x: 0, y: 0, width: 100, height: 100 });
    assert_eq!(square_crop(u32::MAX, 0), CropRect { x: 2_147_483_647, y: 0, width: 0, height: 0 });
}
