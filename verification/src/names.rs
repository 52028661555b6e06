//! The names and addresses that go with a track: where its beatmap set is
//! fetched from, what its folder and its archive are called, and the
//! address that hands the archive to the browser.

use crate::scan::ends_with;
use crate::scan::text_ends_with;
use crate::text::decimal_digits;
use crate::text::push_digits;
use vstd::prelude::*;
use vstd::string::StringSliceAdditionalSpecFns;

verus! {

/// The standard base64 text, with padding, of some bytes, as the `base64`
/// crate writes it.
pub uninterp spec fn base64_text(bytes: Seq<u8>) -> Seq<char>;

/// Whether the base64 text of `len` bytes has a length that fits in
/// `usize`: four characters for every three bytes or part of them.
pub open spec fn encodable(len: int) -> bool {
    (len / 3) * 4 + (if len % 3 > 0 {
        4int
    } else {
        0int
    }) <= usize::MAX
}

/// The name of the folder and of the archive of a track, without an
/// extension: `artist title (mapper)`.
pub open spec fn folder_name_of(artist: Seq<char>, title: Seq<char>, mapper: Seq<char>) -> Seq<
    char,
> {
    artist + " "@ + title + " ("@ + mapper + ")"@
}

/// The base64 text of `content`, from `base64::encode`. It fails where the
/// text would be longer than `usize` can count, so such content is left
/// out.
#[verifier::external_body]
fn encode_base64(content: &Vec<u8>) -> (text: String)
    requires
        encodable(content.len() as int),
    ensures
        text@ == base64_text(content@),
{
    base64::encode(content)
}

/// The name of the folder of a track.
pub fn folder_name(artist: &str, title: &str, mapper: &str) -> (name: String)
    ensures
        name@ == folder_name_of(artist@, title@, mapper@),
{
    let mut name = String::new();
    name.append(artist);
    name.append(" ");
    name.append(title);
    name.append(" (");
    name.append(mapper);
    name.append(")");
    assert(name@ =~= folder_name_of(artist@, title@, mapper@));
    name
}

/// The name of the archive of a track.
pub fn archive_name(artist: &str, title: &str, mapper: &str) -> (name: String)
    ensures
        name@ == folder_name_of(artist@, title@, mapper@) + ".zip"@,
{
    let mut name: String = folder_name(artist, title, mapper);
    name.append(".zip");
    name
}

/// Whether a file of this name holds a beatmap: its name ends in `.osu`.
pub fn is_beatmap_file(name: &str) -> (b: bool)
    ensures
        b == ends_with(name.spec_bytes(), ".osu".spec_bytes()),
{
    text_ends_with(name, ".osu")
}

/// The address that the beatmap set `set_id` is fetched from.
pub fn download_url(set_id: u64) -> (url: String)
    ensures
        url@ == "https://chimu.moe/d/"@ + decimal_digits(set_id as nat),
{
    let mut url: String = String::from_str("https://chimu.moe/d/");
    push_digits(&mut url, set_id);
    url
}

/// The address that carries `encoded`, the base64 text of a file, as its
/// content.
pub fn data_uri_of(encoded: &str) -> (uri: String)
    ensures
        uri@ == "data:application/octet-stream;base64,"@ + encoded@,
{
    let mut uri: String = String::from_str("data:application/octet-stream;base64,");
    uri.append(encoded);
    uri
}

/// The address that carries `content` as its content. There is none where
/// the content is too long to be encoded.
pub fn data_uri(content: &Vec<u8>) -> (uri: Option<String>)
    ensures
        match uri {
            Some(uri) => encodable(content.len() as int) && uri@
                == "data:application/octet-stream;base64,"@ + base64_text(content@),
            None => !encodable(content.len() as int),
        },
{
    let len: usize = content.len();
    let groups: usize = len / 3;
    let rest: usize = if len % 3 > 0 {
        4
    } else {
        0
    };
    if groups > (usize::MAX - rest) / 4 {
        return None;
    }
    let encoded: String = encode_base64(content);
    Some(data_uri_of(encoded.as_str()))
}

} // verus!
