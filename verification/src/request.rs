//! What the user asks for: which beatmap to convert, and how.
//!
//! A beatmap is named by the address of its page,
//! `https://osu.ppy.sh/beatmapsets/{set}#osu/{map}`: the last segment of
//! the path is the number of the set, and the number behind the last `/`
//! of the fragment is that of the difficulty. The segments of a path are
//! the pieces between the `/` behind its leading `/`, so the last of them
//! is what follows the last `/` of the path.

use crate::convert::SpinnerBehaviour;
use crate::scan::last_number;
use crate::scan::last_piece;
use crate::scan::number_of;
use crate::scan::starts_with;
use crate::scan::text_equals;
use crate::scan::text_starts_with;
use std::str::FromStr;
use vstd::prelude::*;
use vstd::string::StringSliceAdditionalSpecFns;
use vstd::utf8::encode_utf8;

verus! {

/// The parts of an address that a request is read from.
#[derive(Clone, Debug, PartialEq, Eq)]
pub struct UrlParts {
    /// The host, where it is a domain name.
    pub domain: Option<String>,
    pub path: String,
    /// What follows the `#`, where there is one.
    pub fragment: Option<String>,
}

/// The parts of an address as plain text.
pub struct UrlText {
    pub domain: Option<Seq<char>>,
    pub path: Seq<char>,
    pub fragment: Option<Seq<char>>,
}

/// The text of an optional part.
pub open spec fn text_of(part: Option<String>) -> Option<Seq<char>> {
    match part {
        Some(s) => Some(s@),
        None => None,
    }
}

impl View for UrlParts {
    type V = UrlText;

    open spec fn view(&self) -> UrlText {
        UrlText {
            domain: text_of(self.domain),
            path: self.path@,
            fragment: text_of(self.fragment),
        }
    }
}

/// The beatmap that is asked for.
#[derive(Clone, Copy, Debug, PartialEq, Eq, Structural)]
pub struct Request {
    pub set_id: u64,
    pub map_id: u64,
}

/// Why an address names no beatmap.
#[derive(Clone, Copy, Debug, PartialEq, Eq, Structural)]
pub enum RequestError {
    /// The text is no address.
    InvalidUrl,
    /// The address is not that of a page of a beatmap set.
    UnsupportedUrl,
    /// The last segment of the path is no number.
    BadSetId,
    /// The fragment names no difficulty.
    NoDifficulty,
}

/// The parts that the `url` crate reads from an address, or none where it
/// takes the text for no address.
pub uninterp spec fn url_parts_of(text: Seq<char>) -> Option<UrlText>;

/// Whether the address is that of a page of a beatmap set.
pub open spec fn is_beatmap_page(parts: UrlText) -> bool {
    &&& parts.domain matches Some(domain) && encode_utf8(domain) == "osu.ppy.sh".spec_bytes()
    &&& starts_with(encode_utf8(parts.path), "/beatmapsets/".spec_bytes())
}

/// The number of the set that the address names: the last segment of the
/// path, which is what follows its last `/`.
pub open spec fn set_id_of(parts: UrlText) -> Option<u64> {
    number_of(last_piece(encode_utf8(parts.path), 47))
}

/// The number of the difficulty that the address names: the number behind
/// the last `/` of the fragment.
pub open spec fn map_id_of(parts: UrlText) -> Option<u64> {
    match parts.fragment {
        Some(fragment) => number_of(last_piece(encode_utf8(fragment), 47)),
        None => None,
    }
}

/// The request that an address with these parts makes.
pub open spec fn request_of(parts: UrlText) -> Result<Request, RequestError> {
    if !is_beatmap_page(parts) {
        Err(RequestError::UnsupportedUrl)
    } else {
        match set_id_of(parts) {
            None => Err(RequestError::BadSetId),
            Some(set_id) => match map_id_of(parts) {
                None => Err(RequestError::NoDifficulty),
                Some(map_id) => Ok(Request { set_id, map_id }),
            },
        }
    }
}

/// The request that the address `text` makes.
pub open spec fn request_in(text: Seq<char>) -> Result<Request, RequestError> {
    match url_parts_of(text) {
        Some(parts) => request_of(parts),
        None => Err(RequestError::InvalidUrl),
    }
}

/// The mask of the chosen hitsounds: bit 0 normal, bit 1 whistle, bit 2
/// finish, bit 3 clap.
pub open spec fn mask_of(normal: bool, whistle: bool, finish: bool, clap: bool) -> int {
    (if normal {
        1int
    } else {
        0int
    }) + (if whistle {
        2int
    } else {
        0int
    }) + (if finish {
        4int
    } else {
        0int
    }) + (if clap {
        8int
    } else {
        0int
    })
}

/// The behaviour that a name stands for: `ignore`, `current`, and anything
/// else for both lanes.
pub open spec fn behaviour_of(name: Seq<u8>) -> SpinnerBehaviour {
    if name == "ignore".spec_bytes() {
        SpinnerBehaviour::Ignore
    } else if name == "current".spec_bytes() {
        SpinnerBehaviour::Current
    } else {
        SpinnerBehaviour::Both
    }
}

/// The number of a difficulty as beatmaps hold it: the low 32 bits, read
/// as a signed number.
pub open spec fn short_id(map_id: u64) -> int {
    let low = map_id as int % 0x1_0000_0000;
    if low >= 0x8000_0000 {
        low - 0x1_0000_0000
    } else {
        low
    }
}

/// Takes an address apart with the `url` crate: `Url::from_str` parses
/// it, and `domain`, `path` and `fragment` give the parts. The outcome is
/// claimed to depend on the text alone, and nothing more.
#[verifier::external_body]
fn read_url(text: &str) -> (parts: Option<UrlParts>)
    ensures
        match parts {
            Some(parts) => url_parts_of(text@) == Some(parts@),
            None => url_parts_of(text@).is_none(),
        },
{
    let url = url::Url::from_str(text).ok()?;
    Some(
        UrlParts {
            domain: url.domain().map(String::from),
            path: String::from(url.path()),
            fragment: url.fragment().map(String::from),
        },
    )
}

/// The request that an address with these parts makes.
pub fn check_request(parts: &UrlParts) -> (r: Result<Request, RequestError>)
    ensures
        r == request_of(parts@),
{
    let on_site: bool = match &parts.domain {
        Some(domain) => text_equals(domain.as_str(), "osu.ppy.sh"),
        None => false,
    };
    if !on_site || !text_starts_with(parts.path.as_str(), "/beatmapsets/") {
        return Err(RequestError::UnsupportedUrl);
    }
    let set_id: Option<u64> = last_number(parts.path.as_str(), 47);
    let map_id: Option<u64> = match &parts.fragment {
        Some(fragment) => last_number(fragment.as_str(), 47),
        None => None,
    };
    match set_id {
        None => Err(RequestError::BadSetId),
        Some(set_id) => match map_id {
            None => Err(RequestError::NoDifficulty),
            Some(map_id) => Ok(Request { set_id, map_id }),
        },
    }
}

/// The request that the address `text` makes. The address is taken apart
/// by the `url` crate; what its parts ask for is decided by
/// [`check_request`].
pub fn parse_request(text: &str) -> (r: Result<Request, RequestError>)
    ensures
        r == request_in(text@),
{
    match read_url(text) {
        Some(parts) => check_request(&parts),
        None => Err(RequestError::InvalidUrl),
    }
}

/// The mask of the chosen hitsounds.
pub fn hitsound_mask(normal: bool, whistle: bool, finish: bool, clap: bool) -> (mask: i32)
    ensures
        mask == mask_of(normal, whistle, finish, clap),
        0 <= mask <= 15,
{
    let mut mask: i32 = 0;
    if normal {
        mask = mask + 1;
    }
    if whistle {
        mask = mask + 2;
    }
    if finish {
        mask = mask + 4;
    }
    if clap {
        mask = mask + 8;
    }
    mask
}

/// The behaviour that a name stands for.
pub fn spinner_behaviour(name: &str) -> (behaviour: SpinnerBehaviour)
    ensures
        behaviour == behaviour_of(name.spec_bytes()),
{
    if text_equals(name, "ignore") {
        SpinnerBehaviour::Ignore
    } else if text_equals(name, "current") {
        SpinnerBehaviour::Current
    } else {
        SpinnerBehaviour::Both
    }
}

/// The first of the beatmaps, given by their numbers, that is the
/// difficulty asked for.
pub fn pick_difficulty(beatmap_ids: &Vec<i32>, map_id: u64) -> (r: Option<usize>)
    ensures
        match r {
            Some(at) => at < beatmap_ids.len() && beatmap_ids[at as int] == short_id(map_id)
                && forall|k: int| 0 <= k < at ==> beatmap_ids[k] != short_id(map_id),
            None => forall|k: int| 0 <= k < beatmap_ids.len() ==> beatmap_ids[k] != short_id(map_id),
        },
{
    let low: u64 = map_id % 0x1_0000_0000;
    let wanted: i64 = if low >= 0x8000_0000 {
        (low as i64) - 0x1_0000_0000
    } else {
        low as i64
    };
    let mut at: usize = 0;
    while at < beatmap_ids.len()
        invariant
            at <= beatmap_ids.len(),
            wanted == short_id(map_id),
            forall|k: int| 0 <= k < at ==> beatmap_ids[k] != wanted,
        decreases beatmap_ids.len() - at,
    {
        if beatmap_ids[at] as i64 == wanted {
            return Some(at);
        }
        at += 1;
    }
    None
}

} // verus!
