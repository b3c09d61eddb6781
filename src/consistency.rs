//! Properties that relate the scanner, the plan and the rebuild walk.
use vstd::prelude::*;

use crate::device::{
    album_start, albums_wipe, artist_start, entry_wipe, AlbumListing, next_step_spec, track_start, wipe_sequence, MusicEntry,
    RebuildStep,
};
use crate::naming::device_path_of;
use crate::plan::{album_insert, plan_insert, plan_of, ArtistView, TrackView};
use crate::scan::{
    device_paths, folder_tracks, library_tracks, playlist_folders, track_device_path, ScannedEntry,
};

verus! {

/// The step reached from `s` after `n` further steps, each of which succeeds.
pub open spec fn walk(p: Seq<ArtistView>, s: RebuildStep, n: nat) -> RebuildStep
    decreases n,
{
    if n == 0 {
        s
    } else {
        walk(p, next_step_spec(p, s, true), (n - 1) as nat)
    }
}

/// The step that creates the folder of artist `a`.
pub open spec fn artist_step(a: int) -> RebuildStep {
    RebuildStep::Artist { artist: a as usize }
}

/// The step that creates the folder of album `b` of artist `a`.
pub open spec fn album_step(a: int, b: int) -> RebuildStep {
    RebuildStep::Album { artist: a as usize, album: b as usize }
}

/// The step that uploads track `i` of album `b` of artist `a`.
pub open spec fn track_step(a: int, b: int, i: int) -> RebuildStep {
    RebuildStep::Track { artist: a as usize, album: b as usize, track: i as usize }
}

/// Every count of the plan fits in a `usize`, as it does for a plan held in memory.
pub open spec fn plan_bounded(p: Seq<ArtistView>) -> bool {
    &&& p.len() <= usize::MAX
    &&& forall|a: int| 0 <= a < p.len() ==> (#[trigger] p[a].albums).len() <= usize::MAX
    &&& forall|a: int, b: int|
        0 <= a < p.len() && 0 <= b < p[a].albums.len() ==> (#[trigger] p[a].albums[b].tracks).len()
            <= usize::MAX
}

/// Track `i` of album `b` of artist `a` exists in the plan.
pub open spec fn track_at(p: Seq<ArtistView>, a: int, b: int, i: int) -> bool {
    &&& 0 <= a < p.len()
    &&& 0 <= b < p[a].albums.len()
    &&& 0 <= i < p[a].albums[b].tracks.len()
}

/// The plan holds the track under its own artist and album.
pub open spec fn in_plan(p: Seq<ArtistView>, t: TrackView) -> bool {
    exists|a: int, b: int, i: int|
        track_at(p, a, b, i) && p[a].name == t.artist && p[a].albums[b].name == t.album
            && #[trigger] p[a].albums[b].tracks[i] == t
}

proof fn lemma_walk_add(p: Seq<ArtistView>, s: RebuildStep, n: nat, m: nat)
    ensures
        walk(p, s, n + m) == walk(p, walk(p, s, n), m),
    decreases n,
{
    if n > 0 {
        lemma_walk_add(p, next_step_spec(p, s, true), (n - 1) as nat, m);
        assert((n + m - 1) as nat == (n - 1) as nat + m);
    }
}

proof fn lemma_walk_tracks(p: Seq<ArtistView>, a: int, b: int, t: nat)
    requires
        plan_bounded(p),
        0 <= a < p.len(),
        0 <= b < p[a].albums.len(),
        t <= p[a].albums[b].tracks.len(),
    ensures
        walk(p, album_step(a, b), t + 1) == track_start(p, a, b, t as int),
    decreases t,
{
    let s = album_step(a, b);
    if t == 0 {
        assert(walk(p, s, 1) == walk(p, next_step_spec(p, s, true), 0));
    } else {
        lemma_walk_tracks(p, a, b, (t - 1) as nat);
        lemma_walk_add(p, s, t, 1);
        let u = track_start(p, a, b, t - 1);
        assert(u == RebuildStep::Track { artist: a as usize, album: b as usize, track: (t - 1) as usize });
        assert(walk(p, u, 1) == walk(p, next_step_spec(p, u, true), 0));
    }
}

proof fn lemma_walk_albums(p: Seq<ArtistView>, a: int, b: nat)
    requires
        plan_bounded(p),
        0 <= a < p.len(),
        b <= p[a].albums.len(),
    ensures
        exists|n: nat| walk(p, artist_step(a), n) == album_start(p, a, b as int),
    decreases b,
{
    let s = artist_step(a);
    if b == 0 {
        assert(walk(p, s, 1) == walk(p, next_step_spec(p, s, true), 0));
    } else {
        lemma_walk_albums(p, a, (b - 1) as nat);
        let n = choose|n: nat| walk(p, s, n) == album_start(p, a, b - 1);
        let len = p[a].albums[b - 1].tracks.len();
        assert(p[a].albums[b - 1].tracks.len() <= usize::MAX);
        lemma_walk_tracks(p, a, b - 1, len);
        lemma_walk_add(p, s, n, len + 1);
        assert(walk(p, s, n + len + 1) == album_start(p, a, b as int));
    }
}

proof fn lemma_walk_artists(p: Seq<ArtistView>, a: nat)
    requires
        plan_bounded(p),
        a <= p.len(),
    ensures
        exists|n: nat| walk(p, artist_start(p, 0), n) == artist_start(p, a as int),
    decreases a,
{
    if a == 0 {
        assert(walk(p, artist_start(p, 0), 0) == artist_start(p, 0));
    } else {
        lemma_walk_artists(p, (a - 1) as nat);
        let n = choose|n: nat| walk(p, artist_start(p, 0), n) == artist_start(p, a - 1);
        lemma_walk_albums(p, a - 1, p[a - 1].albums.len());
        let s = artist_step(a - 1);
        let m = choose|m: nat| walk(p, s, m) == album_start(p, a - 1, p[a - 1].albums.len() as int);
        lemma_walk_add(p, artist_start(p, 0), n, m);
        assert(walk(p, artist_start(p, 0), n + m) == artist_start(p, a as int));
    }
}

/// When every folder creation and upload succeeds, the rebuild walk reaches
/// the upload of every track of the plan.
pub proof fn lemma_rebuild_reaches_every_track(p: Seq<ArtistView>, a: int, b: int, i: int)
    requires
        plan_bounded(p),
        track_at(p, a, b, i),
    ensures
        exists|n: nat| walk(p, artist_start(p, 0), n) == track_step(a, b, i),
{
    lemma_walk_artists(p, a as nat);
    let n = choose|n: nat| walk(p, artist_start(p, 0), n) == artist_start(p, a);
    lemma_walk_albums(p, a, b as nat);
    let s = artist_step(a);
    let m = choose|m: nat| walk(p, s, m) == album_start(p, a, b);
    lemma_walk_tracks(p, a, b, i as nat);
    lemma_walk_add(p, artist_start(p, 0), n, m);
    lemma_walk_add(p, artist_start(p, 0), n + m, (i + 1) as nat);
    assert(walk(p, artist_start(p, 0), n + m + (i + 1) as nat) == track_step(a, b, i));
}

proof fn lemma_insert_keeps(p: Seq<ArtistView>, t: TrackView, u: TrackView)
    requires
        in_plan(p, u),
    ensures
        in_plan(plan_insert(p, t), u),
{
    let (a, b, i) = choose|a: int, b: int, i: int|
        track_at(p, a, b, i) && p[a].name == u.artist && p[a].albums[b].name == u.album
            && #[trigger] p[a].albums[b].tracks[i] == u;
    let q = plan_insert(p, t);
    if exists|x: int| 0 <= x < p.len() && p[x].name == t.artist {
        let x = choose|x: int| 0 <= x < p.len() && p[x].name == t.artist;
        if x == a {
            let albums = p[a].albums;
            if exists|y: int| 0 <= y < albums.len() && albums[y].name == t.album {
                let y = choose|y: int| 0 <= y < albums.len() && albums[y].name == t.album;
                assert(q[a].albums[b].tracks[i] == u);
            } else {
                assert(q[a].albums[b].tracks[i] == u);
            }
            assert(track_at(q, a, b, i));
        } else {
            assert(q[a].albums[b].tracks[i] == u);
        }
    } else {
        assert(q[a].albums[b].tracks[i] == u);
    }
    assert(track_at(q, a, b, i));
}

proof fn lemma_insert_adds(p: Seq<ArtistView>, t: TrackView)
    ensures
        in_plan(plan_insert(p, t), t),
{
    let q = plan_insert(p, t);
    if exists|x: int| 0 <= x < p.len() && p[x].name == t.artist {
        let x = choose|x: int| 0 <= x < p.len() && p[x].name == t.artist;
        let albums = p[x].albums;
        if exists|y: int| 0 <= y < albums.len() && albums[y].name == t.album {
            let y = choose|y: int| 0 <= y < albums.len() && albums[y].name == t.album;
            let i = albums[y].tracks.len() as int;
            assert(q[x].albums[y].tracks[i] == t);
            assert(track_at(q, x, y, i));
        } else {
            let y = albums.len() as int;
            assert(q[x].albums == album_insert(albums, t));
            assert(q[x].albums[y].tracks[0] == t);
            assert(track_at(q, x, y, 0));
        }
    } else {
        let x = p.len() as int;
        assert(q[x].albums[0].tracks[0] == t);
        assert(track_at(q, x, 0, 0));
    }
}

proof fn lemma_plan_of_holds(ts: Seq<TrackView>, m: int)
    requires
        0 <= m < ts.len(),
    ensures
        in_plan(plan_of(ts), ts[m]),
    decreases ts.len(),
{
    let prev = ts.drop_last();
    if m == ts.len() - 1 {
        lemma_insert_adds(plan_of(prev), ts.last());
    } else {
        lemma_plan_of_holds(prev, m);
        lemma_insert_keeps(plan_of(prev), ts.last(), ts[m]);
    }
}

proof fn lemma_folder_tracks_in_library(entries: Seq<ScannedEntry>, k: int, m: int)
    requires
        0 <= k < playlist_folders(entries).len(),
        0 <= m < folder_tracks(playlist_folders(entries)[k].files@).len(),
    ensures
        library_tracks(entries).contains(folder_tracks(playlist_folders(entries)[k].files@)[m]),
    decreases entries.len(),
{
    let prev = entries.drop_last();
    let t = folder_tracks(playlist_folders(entries)[k].files@)[m];
    if entries.last().is_dir {
        let last = folder_tracks(entries.last().files@);
        if k == playlist_folders(prev).len() {
            assert(library_tracks(entries)[library_tracks(prev).len() + m] == t);
        } else {
            lemma_folder_tracks_in_library(prev, k, m);
            let j = choose|j: int| 0 <= j < library_tracks(prev).len() && library_tracks(prev)[j] == t;
            assert(library_tracks(entries)[j] == t);
        }
    } else {
        lemma_folder_tracks_in_library(prev, k, m);
    }
}

/// Every device path listed in a playlist of a scan is the device path of a
/// track that the plan holds under folders of the same artist and album
/// names, and the rebuild walk, when every step succeeds, reaches the upload
/// of that track.
pub proof fn lemma_playlist_paths_are_uploaded(entries: Seq<ScannedEntry>, k: int, m: int)
    requires
        plan_bounded(plan_of(library_tracks(entries))),
        0 <= k < playlist_folders(entries).len(),
        0 <= m < folder_tracks(playlist_folders(entries)[k].files@).len(),
    ensures
        ({
            let p = plan_of(library_tracks(entries));
            let path = device_paths(folder_tracks(playlist_folders(entries)[k].files@))[m];
            exists|a: int, b: int, i: int, n: nat|
                #![trigger track_at(p, a, b, i), walk(p, artist_start(p, 0), n)]
                track_at(p, a, b, i) && path == device_path_of(
                    p[a].name,
                    p[a].albums[b].name,
                    p[a].albums[b].tracks[i].file_name,
                ) && walk(p, artist_start(p, 0), n) == track_step(a, b, i)
        }),
{
    let p = plan_of(library_tracks(entries));
    let ts = library_tracks(entries);
    let t = folder_tracks(playlist_folders(entries)[k].files@)[m];
    lemma_folder_tracks_in_library(entries, k, m);
    let j = choose|j: int| 0 <= j < ts.len() && ts[j] == t;
    lemma_plan_of_holds(ts, j);
    let (a, b, i) = choose|a: int, b: int, i: int|
        track_at(p, a, b, i) && p[a].name == t.artist && p[a].albums[b].name == t.album
            && #[trigger] p[a].albums[b].tracks[i] == t;
    lemma_rebuild_reaches_every_track(p, a, b, i);
    let n = choose|n: nat| walk(p, artist_start(p, 0), n) == track_step(a, b, i);
    assert(track_at(p, a, b, i) && device_paths(folder_tracks(playlist_folders(entries)[k].files@))[m]
        == device_path_of(p[a].name, p[a].albums[b].name, p[a].albums[b].tracks[i].file_name));
}

proof fn lemma_albums_wipe_holds(albums: Seq<AlbumListing>, j: int)
    requires
        0 <= j < albums.len(),
    ensures
        albums_wipe(albums).contains(albums[j].id),
        forall|t: int|
            0 <= t < albums[j].track_ids@.len() ==> albums_wipe(albums).contains(
                #[trigger] albums[j].track_ids@[t],
            ),
    decreases albums.len(),
{
    let prev = albums.drop_last();
    let w = albums_wipe(albums);
    let last = albums.last().track_ids@.push(albums.last().id);
    assert(w == albums_wipe(prev) + last);
    if j == albums.len() - 1 {
        assert(w[(albums_wipe(prev).len() + albums.last().track_ids@.len()) as int] == albums[j].id);
        assert forall|t: int| 0 <= t < albums[j].track_ids@.len() implies w.contains(
            #[trigger] albums[j].track_ids@[t],
        ) by {
            assert(w[albums_wipe(prev).len() + t] == albums[j].track_ids@[t]);
        }
    } else {
        lemma_albums_wipe_holds(prev, j);
        let x = choose|x: int|
            0 <= x < albums_wipe(prev).len() && albums_wipe(prev)[x] == albums[j].id;
        assert(w[x] == albums[j].id);
        assert forall|t: int| 0 <= t < albums[j].track_ids@.len() implies w.contains(
            #[trigger] albums[j].track_ids@[t],
        ) by {
            assert(albums_wipe(prev).contains(prev[j].track_ids@[t]));
            let y = choose|y: int|
                0 <= y < albums_wipe(prev).len() && albums_wipe(prev)[y] == prev[j].track_ids@[t];
            assert(w[y] == albums[j].track_ids@[t]);
        }
    }
}

proof fn lemma_concat_contains<T>(a: Seq<T>, b: Seq<T>, x: T)
    requires
        a.contains(x) || b.contains(x),
    ensures
        (a + b).contains(x),
{
    if a.contains(x) {
        let i = choose|i: int| 0 <= i < a.len() && a[i] == x;
        assert((a + b)[i] == x);
    } else {
        let i = choose|i: int| 0 <= i < b.len() && b[i] == x;
        assert((a + b)[a.len() + i] == x);
    }
}

/// The wipe deletes every entry found under `Music`, every album found in
/// an artist folder, and every track found in an album, whatever the
/// device held before.
pub proof fn lemma_wipe_removes_everything(entries: Seq<MusicEntry>, k: int)
    requires
        0 <= k < entries.len(),
    ensures
        wipe_sequence(entries).contains(entries[k].id),
        entries[k].is_folder ==> forall|j: int|
            0 <= j < entries[k].albums@.len() ==> wipe_sequence(entries).contains(
                #[trigger] entries[k].albums@[j].id,
            ),
        entries[k].is_folder ==> forall|j: int, t: int|
            0 <= j < entries[k].albums@.len() && 0 <= t < entries[k].albums@[j].track_ids@.len()
                ==> wipe_sequence(entries).contains(#[trigger] entries[k].albums@[j].track_ids@[t]),
    decreases entries.len(),
{
    let prev = entries.drop_last();
    let w = wipe_sequence(entries);
    assert(w == wipe_sequence(prev) + entry_wipe(entries.last()));
    if k == entries.len() - 1 {
        let e = entries[k];
        let ew = entry_wipe(e);
        assert(ew[ew.len() - 1] == e.id);
        lemma_concat_contains(wipe_sequence(prev), ew, e.id);
        if e.is_folder {
            assert forall|j: int| 0 <= j < e.albums@.len() implies w.contains(
                #[trigger] e.albums@[j].id,
            ) by {
                lemma_albums_wipe_holds(e.albums@, j);
                lemma_concat_contains(albums_wipe(e.albums@), seq![e.id], e.albums@[j].id);
                assert(ew == albums_wipe(e.albums@) + seq![e.id]);
                lemma_concat_contains(wipe_sequence(prev), ew, e.albums@[j].id);
            }
            assert forall|j: int, t: int|
                0 <= j < e.albums@.len() && 0 <= t < e.albums@[j].track_ids@.len() implies w.contains(
                #[trigger] e.albums@[j].track_ids@[t],
            ) by {
                lemma_albums_wipe_holds(e.albums@, j);
                let x = e.albums@[j].track_ids@[t];
                assert(albums_wipe(e.albums@).contains(x));
                lemma_concat_contains(albums_wipe(e.albums@), seq![e.id], x);
                assert(ew == albums_wipe(e.albums@) + seq![e.id]);
                lemma_concat_contains(wipe_sequence(prev), ew, x);
            }
        }
    } else {
        lemma_wipe_removes_everything(prev, k);
        assert(prev[k] == entries[k]);
        lemma_concat_contains(wipe_sequence(prev), entry_wipe(entries.last()), entries[k].id);
        if entries[k].is_folder {
            assert forall|j: int| 0 <= j < entries[k].albums@.len() implies w.contains(
                #[trigger] entries[k].albums@[j].id,
            ) by {
                assert(wipe_sequence(prev).contains(prev[k].albums@[j].id));
                lemma_concat_contains(
                    wipe_sequence(prev),
                    entry_wipe(entries.last()),
                    entries[k].albums@[j].id,
                );
            }
            assert forall|j: int, t: int|
                0 <= j < entries[k].albums@.len() && 0 <= t < entries[k].albums@[j].track_ids@.len()
                    implies w.contains(#[trigger] entries[k].albums@[j].track_ids@[t]) by {
                assert(wipe_sequence(prev).contains(prev[k].albums@[j].track_ids@[t]));
                lemma_concat_contains(
                    wipe_sequence(prev),
                    entry_wipe(entries.last()),
                    entries[k].albums@[j].track_ids@[t],
                );
            }
        }
    }
}

/// The track at a position of the plan.
pub open spec fn track_of_plan(p: Seq<ArtistView>, a: int, b: int, i: int) -> TrackView {
    p[a].albums[b].tracks[i]
}

/// Each track sits under folders named by its own artist and album.
pub open spec fn plan_consistent(p: Seq<ArtistView>) -> bool {
    forall|a: int, b: int, i: int|
        #[trigger] track_at(p, a, b, i) ==> p[a].name == track_of_plan(p, a, b, i).artist
            && p[a].albums[b].name == track_of_plan(p, a, b, i).album
}

/// No two positions of the plan hold tracks of one device path.
pub open spec fn plan_paths_unique(p: Seq<ArtistView>) -> bool {
    forall|a1: int, b1: int, i1: int, a2: int, b2: int, i2: int|
        #![trigger track_at(p, a1, b1, i1), track_at(p, a2, b2, i2)]
        track_at(p, a1, b1, i1) && track_at(p, a2, b2, i2) && track_device_path(
            track_of_plan(p, a1, b1, i1),
        ) == track_device_path(track_of_plan(p, a2, b2, i2)) ==> a1 == a2 && b1 == b2 && i1 == i2
}

/// Every track of the plan is one of the given tracks.
pub open spec fn plan_within(p: Seq<ArtistView>, ts: Seq<TrackView>) -> bool {
    forall|a: int, b: int, i: int| #[trigger] track_at(p, a, b, i) ==> ts.contains(track_of_plan(p, a, b, i))
}

/// No two of the tracks share a device path.
pub open spec fn device_paths_distinct(ts: Seq<TrackView>) -> bool {
    forall|x: int, y: int|
        0 <= x < ts.len() && 0 <= y < ts.len() && x != y ==> track_device_path(#[trigger] ts[x])
            != track_device_path(#[trigger] ts[y])
}

proof fn lemma_insert_frame(p: Seq<ArtistView>, t: TrackView)
    ensures
        ({
            let q = plan_insert(p, t);
            exists|x: int, y: int, z: int|
                #![trigger track_at(q, x, y, z)]
                track_at(q, x, y, z) && track_of_plan(q, x, y, z) == t && q[x].name == t.artist
                    && q[x].albums[y].name == t.album && !track_at(p, x, y, z) && forall|
                    a: int,
                    b: int,
                    i: int,
                | #[trigger] track_at(q, a, b, i) && !(a == x && b == y && i == z) ==> track_at(
                    p,
                    a,
                    b,
                    i,
                ) && track_of_plan(q, a, b, i) == track_of_plan(p, a, b, i) && q[a].name == p[a].name
                    && q[a].albums[b].name == p[a].albums[b].name
        }),
{
    let q = plan_insert(p, t);
    if exists|x: int| 0 <= x < p.len() && p[x].name == t.artist {
        let x = choose|x: int| 0 <= x < p.len() && p[x].name == t.artist;
        let albums = p[x].albums;
        if exists|y: int| 0 <= y < albums.len() && albums[y].name == t.album {
            let y = choose|y: int| 0 <= y < albums.len() && albums[y].name == t.album;
            let z = albums[y].tracks.len() as int;
            assert(track_at(q, x, y, z) && track_of_plan(q, x, y, z) == t);
            assert forall|a: int, b: int, i: int|
                #[trigger] track_at(q, a, b, i) && !(a == x && b == y && i == z) implies track_at(
                p,
                a,
                b,
                i,
            ) && track_of_plan(q, a, b, i) == track_of_plan(p, a, b, i) && q[a].name == p[a].name
                && q[a].albums[b].name == p[a].albums[b].name by {}
        } else {
            let y = albums.len() as int;
            assert(q[x].albums == album_insert(albums, t));
            assert(track_at(q, x, y, 0) && track_of_plan(q, x, y, 0) == t);
            assert forall|a: int, b: int, i: int|
                #[trigger] track_at(q, a, b, i) && !(a == x && b == y && i == 0) implies track_at(
                p,
                a,
                b,
                i,
            ) && track_of_plan(q, a, b, i) == track_of_plan(p, a, b, i) && q[a].name == p[a].name
                && q[a].albums[b].name == p[a].albums[b].name by {}
        }
    } else {
        let x = p.len() as int;
        assert(track_at(q, x, 0, 0) && track_of_plan(q, x, 0, 0) == t);
        assert forall|a: int, b: int, i: int|
            #[trigger] track_at(q, a, b, i) && !(a == x && b == 0 && i == 0) implies track_at(
            p,
            a,
            b,
            i,
        ) && track_of_plan(q, a, b, i) == track_of_plan(p, a, b, i) && q[a].name == p[a].name
            && q[a].albums[b].name == p[a].albums[b].name by {}
    }
}

proof fn lemma_plan_of_unique(ts: Seq<TrackView>)
    requires
        device_paths_distinct(ts),
    ensures
        plan_consistent(plan_of(ts)),
        plan_within(plan_of(ts), ts),
        plan_paths_unique(plan_of(ts)),
    decreases ts.len(),
{
    if ts.len() == 0 {
        return;
    }
    let prev = ts.drop_last();
    let t = ts.last();
    assert forall|x: int, y: int|
        0 <= x < prev.len() && 0 <= y < prev.len() && x != y implies track_device_path(
        #[trigger] prev[x],
    ) != track_device_path(#[trigger] prev[y]) by {
        assert(prev[x] == ts[x] && prev[y] == ts[y]);
    }
    lemma_plan_of_unique(prev);
    let p = plan_of(prev);
    let q = plan_of(ts);
    assert(q == plan_insert(p, t));
    lemma_insert_frame(p, t);
    let (x, y, z) = choose|x: int, y: int, z: int|
        #![trigger track_at(q, x, y, z)]
        track_at(q, x, y, z) && track_of_plan(q, x, y, z) == t && q[x].name == t.artist
            && q[x].albums[y].name == t.album && !track_at(p, x, y, z) && forall|a: int, b: int, i: int|
            #[trigger] track_at(q, a, b, i) && !(a == x && b == y && i == z) ==> track_at(p, a, b, i)
                && track_of_plan(q, a, b, i) == track_of_plan(p, a, b, i) && q[a].name == p[a].name
                && q[a].albums[b].name == p[a].albums[b].name;
    assert forall|a: int, b: int, i: int| #[trigger] track_at(q, a, b, i) implies ts.contains(
        track_of_plan(q, a, b, i),
    ) && q[a].name == track_of_plan(q, a, b, i).artist && q[a].albums[b].name == track_of_plan(
        q,
        a,
        b,
        i,
    ).album by {
        if a == x && b == y && i == z {
            assert(ts[ts.len() - 1] == t);
        } else {
            assert(track_at(p, a, b, i));
            let w = choose|w: int| 0 <= w < prev.len() && prev[w] == track_of_plan(p, a, b, i);
            assert(ts[w] == prev[w]);
        }
    }
    assert forall|a: int, b: int, i: int| #[trigger] track_at(p, a, b, i) implies track_device_path(
        track_of_plan(p, a, b, i),
    ) != track_device_path(t) by {
        let w = choose|w: int| 0 <= w < prev.len() && prev[w] == track_of_plan(p, a, b, i);
        assert(ts[w] == prev[w]);
        assert(ts[ts.len() - 1] == t);
    }
    assert forall|a1: int, b1: int, i1: int, a2: int, b2: int, i2: int|
        #![trigger track_at(q, a1, b1, i1), track_at(q, a2, b2, i2)]
        track_at(q, a1, b1, i1) && track_at(q, a2, b2, i2) && track_device_path(
            track_of_plan(q, a1, b1, i1),
        ) == track_device_path(track_of_plan(q, a2, b2, i2)) implies a1 == a2 && b1 == b2 && i1
        == i2 by {
        let new1 = a1 == x && b1 == y && i1 == z;
        let new2 = a2 == x && b2 == y && i2 == z;
        if !new1 && !new2 {
            assert(track_at(p, a1, b1, i1) && track_at(p, a2, b2, i2));
        } else if new1 && !new2 {
            assert(track_at(p, a2, b2, i2));
        } else if !new1 && new2 {
            assert(track_at(p, a1, b1, i1));
        }
    }
}

/// When no two tracks of the tree share a device path, exactly one track
/// of the plan sits under the folders and name of each playlist entry: two
/// positions of the plan that give the same device path are one.
pub proof fn lemma_playlist_path_has_one_track(
    entries: Seq<ScannedEntry>,
    a1: int,
    b1: int,
    i1: int,
    a2: int,
    b2: int,
    i2: int,
)
    requires
        device_paths_distinct(library_tracks(entries)),
        track_at(plan_of(library_tracks(entries)), a1, b1, i1),
        track_at(plan_of(library_tracks(entries)), a2, b2, i2),
        ({
            let p = plan_of(library_tracks(entries));
            device_path_of(p[a1].name, p[a1].albums[b1].name, p[a1].albums[b1].tracks[i1].file_name)
                == device_path_of(
                p[a2].name,
                p[a2].albums[b2].name,
                p[a2].albums[b2].tracks[i2].file_name,
            )
        }),
    ensures
        a1 == a2 && b1 == b2 && i1 == i2,
{
    let p = plan_of(library_tracks(entries));
    lemma_plan_of_unique(library_tracks(entries));
    assert(track_at(p, a1, b1, i1) && track_at(p, a2, b2, i2));
}

} // verus!
