use osu2te::convert::SpinnerBehaviour;
use osu2te::names::archive_name;
use osu2te::names::data_uri;
use osu2te::names::data_uri_of;
use osu2te::names::download_url;
use osu2te::names::folder_name;
use osu2te::names::is_beatmap_file;
use osu2te::request::check_request;
use osu2te::request::hitsound_mask;
use osu2te::request::parse_request;
use osu2te::request::pick_difficulty;
use osu2te::request::spinner_behaviour;
use osu2te::request::Request;
use osu2te::request::RequestError;
use osu2te::request::UrlParts;
use osu2te::scan::find_last_piece;
use osu2te::scan::has_part;
use osu2te::scan::has_prefix;
use osu2te::scan::has_suffix;
use osu2te::scan::last_number;
use osu2te::scan::parse_number;
use osu2te::scan::text_contains;
use osu2te::scan::text_ends_with;
use osu2te::scan::text_equals;
use osu2te::scan::text_number;
use osu2te::scan::text_starts_with;

fn parts(domain: Option<&str>, path: &str, fragment: Option<&str>) -> UrlParts {
    UrlParts {
        domain: domain.map(String::from),
        path: String::from(path),
        fragment: fragment.map(String::from),
    }
}

#[test]
fn numbers_are_read_as_the_standard_library_reads_them() {
    let samples = [
        "0",
        "7",
        "007",
        "+7",
        "+",
        "",
        "-7",
        "-0",
        "++7",
        "7+",
        " 7",
        "7 ",
        "1_000",
        "12a",
        "a12",
        "１２",
        "18446744073709551615",
        "18446744073709551616",
        "+18446744073709551615",
        "018446744073709551615",
        "99999999999999999999",
        "184467440737095516150",
        "1844674407370955161a",
    ];
    for s in samples {
        assert_eq!(text_number(s), s.parse::<u64>().ok(), "{:?}", s);
    }
    assert_eq!(text_number("42"), Some(42));
    assert_eq!(text_number("18446744073709551615"), Some(u64::MAX));
    assert_eq!(text_number("18446744073709551616"), None);
    assert_eq!(parse_number(b"ab12", 2), Some(12));
    assert_eq!(parse_number(b"ab12", 4), None);
    assert_eq!(parse_number(b"ab+12", 2), Some(12));
}

#[test]
fn last_piece_follows_the_last_separator() {
    assert_eq!(find_last_piece(b"osu/123", b'/'), 4);
    assert_eq!(find_last_piece(b"123", b'/'), 0);
    assert_eq!(find_last_piece(b"a/b/", b'/'), 4);
    assert_eq!(find_last_piece(b"", b'/'), 0);
    assert_eq!(last_number("osu/123", b'/'), Some(123));
    assert_eq!(last_number("123", b'/'), Some(123));
    assert_eq!(last_number("osu/123/", b'/'), None);
    assert_eq!(last_number("taiko/1/2", b'/'), Some(2));
    assert_eq!(last_number("", b'/'), None);
    for s in ["osu/123", "123", "osu/123/", "", "/", "a//7", "x/+9"] {
        assert_eq!(
            last_number(s, b'/'),
            s.split('/').last().and_then(|piece| piece.parse().ok()),
            "{:?}",
            s
        );
    }
}

#[test]
fn prefixes_suffixes_and_parts_are_found() {
    let samples = ["", "a", "ab", "abc", "song.osu", ".osu", "osu", "x.osu.bak", "/beatmapsets/1"];
    for s in samples {
        for t in samples {
            assert_eq!(text_starts_with(s, t), s.starts_with(t), "{:?} {:?}", s, t);
            assert_eq!(text_ends_with(s, t), s.ends_with(t), "{:?} {:?}", s, t);
            assert_eq!(text_contains(s, t), s.contains(t), "{:?} {:?}", s, t);
            assert_eq!(text_equals(s, t), s == t, "{:?} {:?}", s, t);
        }
    }
    assert!(has_prefix(b"abc", b""));
    assert!(has_suffix(b"abc", b""));
    assert!(has_part(b"", b""));
    assert!(has_part(b"abcabd", b"abd"));
    assert!(!has_part(b"abcabd", b"abe"));
    assert!(text_contains("夜啼く兎", "啼く"));
}

#[test]
fn beatmap_files_end_in_osu() {
    assert!(is_beatmap_file("MISATO - Song (Sotarks) [Hard].osu"));
    assert!(is_beatmap_file(".osu"));
    assert!(!is_beatmap_file("audio.mp3"));
    assert!(!is_beatmap_file("song.osu.bak"));
    assert!(!is_beatmap_file("song.OSU"));
    assert!(!is_beatmap_file("osu"));
}

#[test]
fn mask_has_one_bit_for_each_hitsound() {
    assert_eq!(hitsound_mask(false, false, false, false), 0);
    assert_eq!(hitsound_mask(true, false, false, false), 1);
    assert_eq!(hitsound_mask(false, true, false, false), 2);
    assert_eq!(hitsound_mask(false, false, true, false), 4);
    assert_eq!(hitsound_mask(false, false, false, true), 8);
    assert_eq!(hitsound_mask(true, true, true, true), 15);
    assert_eq!(hitsound_mask(false, true, false, true), 0b1010);
}

#[test]
fn spinner_behaviour_goes_by_name() {
    assert_eq!(spinner_behaviour("ignore"), SpinnerBehaviour::Ignore);
    assert_eq!(spinner_behaviour("current"), SpinnerBehaviour::Current);
    assert_eq!(spinner_behaviour("both"), SpinnerBehaviour::Both);
    assert_eq!(spinner_behaviour(""), SpinnerBehaviour::Both);
    assert_eq!(spinner_behaviour("Ignore"), SpinnerBehaviour::Both);
    assert_eq!(spinner_behaviour("ignored"), SpinnerBehaviour::Both);
}

#[test]
fn request_is_read_from_the_parts_of_an_address() {
    let good = parts(Some("osu.ppy.sh"), "/beatmapsets/123", Some("osu/456"));
    assert_eq!(check_request(&good), Ok(Request { set_id: 123, map_id: 456 }));
    let other_site = parts(Some("example.com"), "/beatmapsets/123", Some("osu/456"));
    assert_eq!(check_request(&other_site), Err(RequestError::UnsupportedUrl));
    let no_domain = parts(None, "/beatmapsets/123", Some("osu/456"));
    assert_eq!(check_request(&no_domain), Err(RequestError::UnsupportedUrl));
    let other_page = parts(Some("osu.ppy.sh"), "/beatmaps/123", Some("osu/456"));
    assert_eq!(check_request(&other_page), Err(RequestError::UnsupportedUrl));
    let short_path = parts(Some("osu.ppy.sh"), "/beatmapsets", Some("osu/4"));
    assert_eq!(check_request(&short_path), Err(RequestError::UnsupportedUrl));
    let no_number = parts(Some("osu.ppy.sh"), "/beatmapsets/abc", Some("osu/456"));
    assert_eq!(check_request(&no_number), Err(RequestError::BadSetId));
    let no_segment = parts(Some("osu.ppy.sh"), "/beatmapsets/", Some("osu/456"));
    assert_eq!(check_request(&no_segment), Err(RequestError::BadSetId));
    let not_last = parts(Some("osu.ppy.sh"), "/beatmapsets/123/", Some("osu/456"));
    assert_eq!(check_request(&not_last), Err(RequestError::BadSetId));
    let deeper = parts(Some("osu.ppy.sh"), "/beatmapsets/123/456", Some("osu/7"));
    assert_eq!(check_request(&deeper), Ok(Request { set_id: 456, map_id: 7 }));
    let no_fragment = parts(Some("osu.ppy.sh"), "/beatmapsets/123", None);
    assert_eq!(check_request(&no_fragment), Err(RequestError::NoDifficulty));
    let no_map = parts(Some("osu.ppy.sh"), "/beatmapsets/123", Some("osu/"));
    assert_eq!(check_request(&no_map), Err(RequestError::NoDifficulty));
    let both_bad = parts(Some("osu.ppy.sh"), "/beatmapsets/x", None);
    assert_eq!(check_request(&both_bad), Err(RequestError::BadSetId));
    let bare = parts(Some("osu.ppy.sh"), "/beatmapsets/1", Some("2"));
    assert_eq!(check_request(&bare), Ok(Request { set_id: 1, map_id: 2 }));
}

#[test]
fn last_segment_is_what_follows_the_last_slash() {
    for path in ["/beatmapsets/123", "/beatmapsets/", "/beatmapsets/1/2", "/", "/a//", "/+7"] {
        let segments = path.strip_prefix('/').map(|rest| rest.split('/'));
        assert_eq!(
            last_number(path, b'/'),
            segments.and_then(Iterator::last).and_then(|segment| segment.parse().ok()),
            "{:?}",
            path
        );
    }
}

#[test]
fn request_is_read_from_an_address() {
    assert_eq!(
        parse_request("https://osu.ppy.sh/beatmapsets/813569#osu/1706210"),
        Ok(Request { set_id: 813569, map_id: 1706210 })
    );
    assert_eq!(
        parse_request("https://osu.ppy.sh/beatmapsets/813569?x=1#taiko/7"),
        Ok(Request { set_id: 813569, map_id: 7 })
    );
    assert_eq!(parse_request("not an address"), Err(RequestError::InvalidUrl));
    assert_eq!(parse_request(""), Err(RequestError::InvalidUrl));
    assert_eq!(
        parse_request("https://example.com/beatmapsets/1#osu/2"),
        Err(RequestError::UnsupportedUrl)
    );
    assert_eq!(
        parse_request("https://127.0.0.1/beatmapsets/1#osu/2"),
        Err(RequestError::UnsupportedUrl)
    );
    assert_eq!(
        parse_request("https://osu.ppy.sh/beatmaps/1#osu/2"),
        Err(RequestError::UnsupportedUrl)
    );
    assert_eq!(
        parse_request("https://osu.ppy.sh/beatmapsets/1/discussion#osu/2"),
        Err(RequestError::BadSetId)
    );
    assert_eq!(
        parse_request("https://osu.ppy.sh/beatmapsets/813569"),
        Err(RequestError::NoDifficulty)
    );
    assert_eq!(
        parse_request("https://osu.ppy.sh/beatmapsets/813569#osu"),
        Err(RequestError::NoDifficulty)
    );
}

#[test]
fn difficulty_is_picked_by_its_number() {
    assert_eq!(pick_difficulty(&vec![5, 7, 9, 7], 7), Some(1));
    assert_eq!(pick_difficulty(&vec![5, 7, 9], 8), None);
    assert_eq!(pick_difficulty(&vec![], 8), None);
    // Only the low 32 bits count, read as a signed number.
    assert_eq!(pick_difficulty(&vec![1, 7], 0x1_0000_0007), Some(1));
    assert_eq!(pick_difficulty(&vec![1, -1], 0xffff_ffff), Some(1));
    assert_eq!(pick_difficulty(&vec![i32::MIN], 0x8000_0000), Some(0));
    assert_eq!(pick_difficulty(&vec![i32::MAX], 0x7fff_ffff), Some(0));
    assert_eq!(pick_difficulty(&vec![0], u64::MAX), None);
    for id in [0u64, 7, 0x7fff_ffff, 0x8000_0000, 0xffff_ffff, 0x1_0000_0000, u64::MAX] {
        assert_eq!(pick_difficulty(&vec![id as i32], id), Some(0));
    }
}

#[test]
fn names_are_put_together() {
    assert_eq!(folder_name("MISATO", "Night Rabbit", "Sotarks"), "MISATO Night Rabbit (Sotarks)");
    assert_eq!(folder_name("", "", ""), "  ()");
    assert_eq!(
        archive_name("MISATO", "Night Rabbit", "Sotarks"),
        "MISATO Night Rabbit (Sotarks).zip"
    );
    assert_eq!(download_url(813569), "https://chimu.moe/d/813569");
    assert_eq!(download_url(0), "https://chimu.moe/d/0");
    assert_eq!(download_url(u64::MAX), "https://chimu.moe/d/18446744073709551615");
}

#[test]
fn data_address_carries_the_base64_text() {
    assert_eq!(data_uri_of("aGk="), "data:application/octet-stream;base64,aGk=");
    assert_eq!(
        data_uri(&vec![b'h', b'i']),
        Some(String::from("data:application/octet-stream;base64,aGk="))
    );
    assert_eq!(
        data_uri(&vec![]),
        Some(String::from("data:application/octet-stream;base64,"))
    );
    assert_eq!(
        data_uri(&vec![0xfb, 0xff, 0xfe]),
        Some(String::from("data:application/octet-stream;base64,+//+"))
    );
}
