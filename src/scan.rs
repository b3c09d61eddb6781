//! The scan of the local playlist tree into an upload plan and playlists.
use vstd::prelude::*;

use crate::naming::{device_path, device_path_of, is_audio_file_name, is_audio_name};
use crate::plan::{plan_insert, plan_of, ArtistView, Track, TrackView, UploadPlan};
use crate::sanitize::{adjust_file_name, sanitized};

verus! {

/// The tags read from one file; a field is `None` where the tag is absent.
pub struct TagInfo {
    pub artist: Option<String>,
    pub album: Option<String>,
    pub title: Option<String>,
}

/// One file found inside a playlist folder.
pub struct ScannedFile {
    /// The file's name, or `None` where it is not valid Unicode.
    pub file_name: Option<String>,
    pub path: String,
    pub size: u64,
    pub modified: i64,
    /// The file's tags, or `None` where they could not be read.
    pub tags: Option<TagInfo>,
}

/// One entry of the playlist root: a playlist folder, or something else.
pub struct ScannedEntry {
    pub name: String,
    pub is_dir: bool,
    pub files: Vec<ScannedFile>,
}

/// A playlist: its name and the device paths of its tracks, in scan order.
pub struct Playlist {
    pub name: String,
    pub paths: Vec<String>,
}

/// What a scan produces.
pub struct LibraryScan {
    pub plan: UploadPlan,
    pub playlists: Vec<Playlist>,
}

/// The name a file goes by: its own, or `Unknown.mp3` where it has none.
pub open spec fn file_name_of(f: ScannedFile) -> Seq<char> {
    match f.file_name {
        Some(n) => n@,
        None => "Unknown.mp3"@,
    }
}

/// A tag value, or the placeholder `Unknown` where it is absent.
pub open spec fn tag_or_unknown(t: Option<String>) -> Seq<char> {
    match t {
        Some(s) => s@,
        None => "Unknown"@,
    }
}

/// A file becomes a track when its name has the audio extension and its tags
/// could be read.
pub open spec fn file_accepted(f: ScannedFile) -> bool {
    is_audio_name(file_name_of(f)) && f.tags is Some
}

/// The track made from an accepted file.
pub open spec fn track_of(f: ScannedFile) -> TrackView {
    TrackView {
        path: f.path@,
        artist: sanitized(tag_or_unknown(f.tags->0.artist)),
        album: sanitized(tag_or_unknown(f.tags->0.album)),
        file_name: file_name_of(f),
        size: f.size,
        modified: f.modified,
    }
}

/// The tracks of one playlist folder, in scan order.
pub open spec fn folder_tracks(files: Seq<ScannedFile>) -> Seq<TrackView>
    decreases files.len(),
{
    if files.len() == 0 {
        Seq::empty()
    } else if file_accepted(files.last()) {
        folder_tracks(files.drop_last()).push(track_of(files.last()))
    } else {
        folder_tracks(files.drop_last())
    }
}

/// The entries of the playlist root that are folders, in scan order.
pub open spec fn playlist_folders(entries: Seq<ScannedEntry>) -> Seq<ScannedEntry>
    decreases entries.len(),
{
    if entries.len() == 0 {
        Seq::empty()
    } else if entries.last().is_dir {
        playlist_folders(entries.drop_last()).push(entries.last())
    } else {
        playlist_folders(entries.drop_last())
    }
}

/// All tracks of the tree, playlist after playlist, in scan order.
pub open spec fn library_tracks(entries: Seq<ScannedEntry>) -> Seq<TrackView>
    decreases entries.len(),
{
    if entries.len() == 0 {
        Seq::empty()
    } else if entries.last().is_dir {
        library_tracks(entries.drop_last()) + folder_tracks(entries.last().files@)
    } else {
        library_tracks(entries.drop_last())
    }
}

/// The device path of a track.
pub open spec fn track_device_path(t: TrackView) -> Seq<char> {
    device_path_of(t.artist, t.album, t.file_name)
}

/// The device paths of a sequence of tracks.
pub open spec fn device_paths(ts: Seq<TrackView>) -> Seq<Seq<char>> {
    ts.map_values(|t: TrackView| track_device_path(t))
}

/// The device paths listed by a playlist.
pub open spec fn playlist_paths(p: Playlist) -> Seq<Seq<char>> {
    p.paths@.map_values(|s: String| s@)
}

fn default_unknown(t: &Option<String>) -> (r: String)
    ensures
        r@ == tag_or_unknown(*t),
{
    match t {
        Some(s) => s.clone(),
        None => String::from_str("Unknown"),
    }
}

fn file_name_or_default(f: &ScannedFile) -> (r: String)
    ensures
        r@ == file_name_of(*f),
{
    match &f.file_name {
        Some(n) => n.clone(),
        None => String::from_str("Unknown.mp3"),
    }
}

/// Scans one playlist folder: adds each accepted file to the plan and
/// returns the device paths of the accepted files.
fn scan_folder(plan: &mut UploadPlan, files: &Vec<ScannedFile>) -> (r: Vec<String>)
    requires
        old(plan).wf(),
    ensures
        final(plan).wf(),
        final(plan)@ == plan_of_from(old(plan)@, folder_tracks(files@)),
        r@.map_values(|s: String| s@) == device_paths(folder_tracks(files@)),
{
    let ghost start = plan@;
    let mut paths: Vec<String> = Vec::new();
    let mut j: usize = 0;
    while j < files.len()
        invariant
            j <= files.len(),
            plan.wf(),
            plan@ == plan_of_from(start, folder_tracks(files@.subrange(0, j as int))),
            paths@.map_values(|s: String| s@) == device_paths(
                folder_tracks(files@.subrange(0, j as int)),
            ),
        decreases files.len() - j,
    {
        let f = &files[j];
        let ghost prefix = files@.subrange(0, j as int);
        let ghost next = files@.subrange(0, j + 1);
        proof {
            assert(next.drop_last() =~= prefix);
            assert(next.last() == *f);
        }
        let file_name = file_name_or_default(f);
        if is_audio_file_name(file_name.as_str()) {
            match &f.tags {
                Some(tags) => {
                    let artist = adjust_file_name(default_unknown(&tags.artist));
                    let album = adjust_file_name(default_unknown(&tags.album));
                    let p = device_path(artist.as_str(), album.as_str(), file_name.as_str());
                    let t = Track {
                        path: f.path.clone(),
                        artist,
                        album,
                        file_name,
                        size: f.size,
                        modified: f.modified,
                    };
                    let ghost tv = t@;
                    assert(tv == track_of(*f));
                    plan.add_track(t);
                    let ghost old_paths = paths@;
                    assert(p@ == track_device_path(tv));
                    paths.push(p);
                    proof {
                        lemma_plan_of_from_push(start, folder_tracks(prefix), tv);
                        assert(folder_tracks(next) == folder_tracks(prefix).push(tv));
                        assert(paths@ == old_paths.push(p));
                        assert(old_paths.map_values(|s: String| s@).len() == folder_tracks(prefix).len());
                        assert forall|k: int| 0 <= k < paths@.len() implies paths@.map_values(|s: String| s@)[k]
                            == device_paths(folder_tracks(next))[k] by {
                            if k < old_paths.len() {
                                assert(old_paths.map_values(|s: String| s@)[k] == device_paths(
                                    folder_tracks(prefix),
                                )[k]);
                            }
                        }
                        assert(paths@.map_values(|s: String| s@) =~= device_paths(
                            folder_tracks(next),
                        ));
                    }
                },
                None => {
                    assert(folder_tracks(next) == folder_tracks(prefix));
                },
            }
        } else {
            assert(folder_tracks(next) == folder_tracks(prefix));
        }
        j = j + 1;
    }
    assert(files@.subrange(0, files.len() as int) =~= files@);
    paths
}

/// A plan after the tracks are added in order to a given plan.
pub open spec fn plan_of_from(start: Seq<ArtistView>, ts: Seq<TrackView>) -> Seq<ArtistView>
    decreases ts.len(),
{
    if ts.len() == 0 {
        start
    } else {
        plan_insert(plan_of_from(start, ts.drop_last()), ts.last())
    }
}

proof fn lemma_plan_of_from_push(start: Seq<ArtistView>, ts: Seq<TrackView>, t: TrackView)
    ensures
        plan_of_from(start, ts.push(t)) == plan_insert(plan_of_from(start, ts), t),
{
    assert(ts.push(t).drop_last() =~= ts);
}

proof fn lemma_plan_of_from_concat(
    start: Seq<ArtistView>,
    a: Seq<TrackView>,
    b: Seq<TrackView>,
)
    ensures
        plan_of_from(plan_of_from(start, a), b) == plan_of_from(start, a + b),
    decreases b.len(),
{
    if b.len() == 0 {
        assert(a + b =~= a);
    } else {
        lemma_plan_of_from_concat(start, a, b.drop_last());
        assert((a + b).drop_last() =~= a + b.drop_last());
        assert((a + b).last() == b.last());
    }
}

proof fn lemma_plan_of_is_from_empty(ts: Seq<TrackView>)
    ensures
        plan_of(ts) == plan_of_from(Seq::empty(), ts),
    decreases ts.len(),
{
    if ts.len() > 0 {
        lemma_plan_of_is_from_empty(ts.drop_last());
    }
}

/// Scans the playlist root: each folder entry is a playlist; entries that
/// are not folders are skipped. Within a playlist, a file whose name lacks
/// the audio extension or whose tags could not be read is skipped.
pub fn scan_library(entries: &Vec<ScannedEntry>) -> (r: LibraryScan)
    ensures
        r.plan.wf(),
        r.plan@ == plan_of(library_tracks(entries@)),
        r.playlists@.len() == playlist_folders(entries@).len(),
        forall|k: int|
            0 <= k < r.playlists@.len() ==> (#[trigger] r.playlists@[k]).name@
                == playlist_folders(entries@)[k].name@ && playlist_paths(r.playlists@[k])
                == device_paths(folder_tracks(playlist_folders(entries@)[k].files@)),
{
    let mut plan = UploadPlan::new();
    let mut playlists: Vec<Playlist> = Vec::new();
    let mut i: usize = 0;
    while i < entries.len()
        invariant
            i <= entries.len(),
            plan.wf(),
            plan@ == plan_of_from(Seq::empty(), library_tracks(entries@.subrange(0, i as int))),
            playlists@.len() == playlist_folders(entries@.subrange(0, i as int)).len(),
            forall|k: int|
                0 <= k < playlists@.len() ==> (#[trigger] playlists@[k]).name@ == playlist_folders(
                    entries@.subrange(0, i as int),
                )[k].name@ && playlist_paths(playlists@[k]) == device_paths(
                    folder_tracks(playlist_folders(entries@.subrange(0, i as int))[k].files@),
                ),
        decreases entries.len() - i,
    {
        let e = &entries[i];
        let ghost prefix = entries@.subrange(0, i as int);
        let ghost next = entries@.subrange(0, i + 1);
        proof {
            assert(next.drop_last() =~= prefix);
            assert(next.last() == *e);
        }
        if e.is_dir {
            let ghost before = plan@;
            let paths = scan_folder(&mut plan, &e.files);
            let ghost pl = Playlist { name: e.name, paths };
            playlists.push(Playlist { name: e.name.clone(), paths });
            proof {
                lemma_plan_of_from_concat(
                    Seq::empty(),
                    library_tracks(prefix),
                    folder_tracks(e.files@),
                );
                assert(playlist_folders(next) == playlist_folders(prefix).push(*e));
                let k = playlists@.len() - 1;
                assert(playlist_paths(playlists@[k]) == device_paths(folder_tracks(e.files@)));
            }
        } else {
            assert(playlist_folders(next) == playlist_folders(prefix));
        }
        i = i + 1;
    }
    proof {
        assert(entries@.subrange(0, entries.len() as int) =~= entries@);
        lemma_plan_of_is_from_empty(library_tracks(entries@));
    }
    LibraryScan { plan, playlists }
}

} // verus!
