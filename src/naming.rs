//! Names and paths under which tracks and playlists appear on the device.
use vstd::prelude::*;

use crate::text::{lower_of, to_lower, to_upper, upper_of};

verus! {

/// The audio files the scanner accepts: names whose lower-case form ends in `.mp3`.
pub open spec fn ends_with_mp3(s: Seq<char>) -> bool {
    s.len() >= 4 && s[s.len() - 4] == '.' && s[s.len() - 3] == 'm' && s[s.len() - 2] == 'p' && s[s.len()
        - 1] == '3'
}

/// Whether a file name is accepted as an audio file.
pub open spec fn is_audio_name(name: Seq<char>) -> bool {
    ends_with_mp3(lower_of(name))
}

/// The device path of a track before it is upper-cased.
pub open spec fn device_path_text(artist: Seq<char>, album: Seq<char>, file_name: Seq<char>) -> Seq<
    char,
> {
    "0:/music/"@ + artist + "/"@ + album + "/"@ + file_name
}

/// The device-absolute path under which a track is referenced by playlists.
pub open spec fn device_path_of(artist: Seq<char>, album: Seq<char>, file_name: Seq<char>) -> Seq<
    char,
> {
    upper_of(device_path_text(artist, album, file_name))
}

/// The text of a playlist file: each path followed by a line break.
pub open spec fn playlist_text(paths: Seq<Seq<char>>) -> Seq<char>
    decreases paths.len(),
{
    if paths.len() == 0 {
        Seq::empty()
    } else {
        playlist_text(paths.drop_last()) + paths.last() + "\n"@
    }
}

/// Tells from the lower-case form of a file name whether it ends in `.mp3`.
pub fn ends_with_mp3_folded(folded: &str) -> (r: bool)
    ensures
        r == ends_with_mp3(folded@),
{
    let n: usize = folded.unicode_len();
    if n < 4 {
        return false;
    }
    folded.get_char(n - 4) == '.' && folded.get_char(n - 3) == 'm' && folded.get_char(n - 2) == 'p'
        && folded.get_char(n - 1) == '3'
}

/// Whether a file name has the supported audio extension, compared without case.
pub fn is_audio_file_name(name: &str) -> (r: bool)
    ensures
        r == is_audio_name(name@),
{
    let folded = to_lower(name);
    ends_with_mp3_folded(folded.as_str())
}

/// `0:/music/<artist>/<album>/<file name>`, as written before upper-casing.
pub fn device_path_lower(artist: &str, album: &str, file_name: &str) -> (r: String)
    ensures
        r@ == device_path_text(artist@, album@, file_name@),
{
    let mut s = String::from_str("0:/music/");
    s.append(artist);
    s.append("/");
    s.append(album);
    s.append("/");
    s.append(file_name);
    s
}

/// The upper-cased device path `0:/MUSIC/<ARTIST>/<ALBUM>/<FILE NAME>` of a track.
pub fn device_path(artist: &str, album: &str, file_name: &str) -> (r: String)
    ensures
        r@ == device_path_of(artist@, album@, file_name@),
{
    let text = device_path_lower(artist, album, file_name);
    to_upper(text.as_str())
}

/// The file name of a generated playlist: `<name>.m3u8`.
pub fn playlist_file_name(name: &str) -> (r: String)
    ensures
        r@ == name@ + ".m3u8"@,
{
    let mut s = String::from_str(name);
    s.append(".m3u8");
    s
}

/// The contents of a playlist file: one device path per line.
pub fn playlist_content(paths: &Vec<String>) -> (r: String)
    ensures
        r@ == playlist_text(paths@.map_values(|p: String| p@)),
{
    let mut s = String::new();
    let mut i: usize = 0;
    while i < paths.len()
        invariant
            i <= paths.len(),
            s@ == playlist_text(paths@.subrange(0, i as int).map_values(|p: String| p@)),
        decreases paths.len() - i,
    {
        proof {
            let prev = paths@.subrange(0, i as int).map_values(|p: String| p@);
            let next = paths@.subrange(0, i + 1).map_values(|p: String| p@);
            assert(next.drop_last() =~= prev);
            assert(next.last() == paths@[i as int]@);
        }
        s.append(paths[i].as_str());
        s.append("\n");
        i = i + 1;
    }
    assert(paths@.subrange(0, paths.len() as int) =~= paths@);
    s
}

} // verus!
