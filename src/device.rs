//! Decisions of the device reconciler: which device and folder to use, the
//! order of deletions in the wipe, and the walk of the rebuild.
use vstd::prelude::*;

use crate::plan::{ArtistView, UploadPlan};

verus! {

/// The vendor identifier of the devices this tool writes to.
pub const DEVICE_VENDOR_ID: u16 = 2334;

/// The fatal conditions of a run.
#[derive(Debug, PartialEq, Eq, Structural, Clone, Copy)]
pub enum SyncError {
    /// No device is attached.
    NoDevice,
    /// Devices are attached, but none has the expected vendor identifier.
    NoMatchingDevice,
    /// The device offers no storage volume.
    NoStorage,
    /// The storage root holds no entry named `Music`.
    MusicFolderMissing,
}

/// An entry of a device folder listing.
pub struct DeviceObject {
    pub id: u32,
    pub name: String,
    pub is_folder: bool,
}

/// The index of the first attached device with the expected vendor, if any.
pub open spec fn is_first_match(vendor_ids: Seq<u16>, k: int) -> bool {
    &&& 0 <= k < vendor_ids.len()
    &&& vendor_ids[k] == DEVICE_VENDOR_ID
    &&& forall|m: int| 0 <= m < k ==> vendor_ids[m] != DEVICE_VENDOR_ID
}

/// Picks the first attached device whose vendor identifier matches.
pub fn select_device(vendor_ids: &Vec<u16>) -> (r: Result<usize, SyncError>)
    ensures
        vendor_ids@.len() == 0 <==> r == Err::<usize, SyncError>(SyncError::NoDevice),
        r == Err::<usize, SyncError>(SyncError::NoMatchingDevice) <==> (vendor_ids@.len() > 0
            && forall|m: int| 0 <= m < vendor_ids@.len() ==> vendor_ids@[m] != DEVICE_VENDOR_ID),
        r matches Ok(k) ==> is_first_match(vendor_ids@, k as int),
        r is Ok || r == Err::<usize, SyncError>(SyncError::NoDevice) || r == Err::<usize, SyncError>(
            SyncError::NoMatchingDevice,
        ),
{
    if vendor_ids.len() == 0 {
        return Err(SyncError::NoDevice);
    }
    let mut k: usize = 0;
    while k < vendor_ids.len()
        invariant
            k <= vendor_ids@.len(),
            forall|m: int| 0 <= m < k ==> vendor_ids@[m] != DEVICE_VENDOR_ID,
        decreases vendor_ids.len() - k,
    {
        if vendor_ids[k] == DEVICE_VENDOR_ID {
            return Ok(k);
        }
        k = k + 1;
    }
    Err(SyncError::NoMatchingDevice)
}

/// Picks the first storage volume of the device.
pub fn choose_storage(storage_ids: &Vec<u32>) -> (r: Result<u32, SyncError>)
    ensures
        storage_ids@.len() == 0 ==> r == Err::<u32, SyncError>(SyncError::NoStorage),
        storage_ids@.len() > 0 ==> r == Ok::<u32, SyncError>(storage_ids@[0]),
{
    if storage_ids.len() == 0 {
        Err(SyncError::NoStorage)
    } else {
        Ok(storage_ids[0])
    }
}

/// Whether an entry is named `Music`.
pub open spec fn is_music(o: DeviceObject) -> bool {
    o.name@ == "Music"@
}

/// Finds the `Music` entry of the storage root: the first entry of that name.
pub fn find_music_folder(root: &Vec<DeviceObject>) -> (r: Result<u32, SyncError>)
    ensures
        r == Err::<u32, SyncError>(SyncError::MusicFolderMissing) <==> forall|m: int|
            0 <= m < root@.len() ==> !is_music(#[trigger] root@[m]),
        r matches Ok(id) ==> exists|k: int|
            0 <= k < root@.len() && is_music(root@[k]) && root@[k].id == id && forall|m: int|
                0 <= m < k ==> !is_music(#[trigger] root@[m]),
        r is Ok || r == Err::<u32, SyncError>(SyncError::MusicFolderMissing),
{
    let music = String::from_str("Music");
    let mut k: usize = 0;
    while k < root.len()
        invariant
            k <= root@.len(),
            music@ == "Music"@,
            forall|m: int| 0 <= m < k ==> !is_music(#[trigger] root@[m]),
        decreases root.len() - k,
    {
        if root[k].name == music {
            return Ok(root[k].id);
        }
        k = k + 1;
    }
    Err(SyncError::MusicFolderMissing)
}

/// An album folder found during the wipe, with the tracks inside it.
pub struct AlbumListing {
    pub id: u32,
    pub track_ids: Vec<u32>,
}

/// An entry directly under `Music`; for a folder, the albums inside it.
pub struct MusicEntry {
    pub id: u32,
    pub is_folder: bool,
    pub albums: Vec<AlbumListing>,
}

/// Deletions for a sequence of albums: each album's tracks, then the album.
pub open spec fn albums_wipe(albums: Seq<AlbumListing>) -> Seq<u32>
    decreases albums.len(),
{
    if albums.len() == 0 {
        Seq::empty()
    } else {
        albums_wipe(albums.drop_last()) + albums.last().track_ids@.push(albums.last().id)
    }
}

/// Deletions for one entry under `Music`: for a folder its albums first,
/// then the entry itself.
pub open spec fn entry_wipe(e: MusicEntry) -> Seq<u32> {
    if e.is_folder {
        albums_wipe(e.albums@).push(e.id)
    } else {
        seq![e.id]
    }
}

/// Deletions for all entries under `Music`, in listing order.
pub open spec fn wipe_sequence(entries: Seq<MusicEntry>) -> Seq<u32>
    decreases entries.len(),
{
    if entries.len() == 0 {
        Seq::empty()
    } else {
        wipe_sequence(entries.drop_last()) + entry_wipe(entries.last())
    }
}

fn push_all(out: &mut Vec<u32>, ids: &Vec<u32>)
    ensures
        final(out)@ == old(out)@ + ids@,
{
    let mut k: usize = 0;
    while k < ids.len()
        invariant
            k <= ids@.len(),
            out@ == old(out)@ + ids@.subrange(0, k as int),
        decreases ids.len() - k,
    {
        out.push(ids[k]);
        assert(ids@.subrange(0, k + 1) =~= ids@.subrange(0, k as int).push(ids@[k as int]));
        k = k + 1;
    }
    assert(ids@.subrange(0, ids@.len() as int) =~= ids@);
}

/// The ids to delete, in order, to empty the `Music` folder: every track
/// before its album, every album before its artist.
pub fn wipe_order(entries: &Vec<MusicEntry>) -> (r: Vec<u32>)
    ensures
        r@ == wipe_sequence(entries@),
{
    let mut out: Vec<u32> = Vec::new();
    let mut i: usize = 0;
    while i < entries.len()
        invariant
            i <= entries@.len(),
            out@ == wipe_sequence(entries@.subrange(0, i as int)),
        decreases entries.len() - i,
    {
        let e = &entries[i];
        let ghost start = out@;
        if e.is_folder {
            let mut j: usize = 0;
            while j < e.albums.len()
                invariant
                    j <= e.albums@.len(),
                    out@ == start + albums_wipe(e.albums@.subrange(0, j as int)),
                decreases e.albums.len() - j,
            {
                let a = &e.albums[j];
                push_all(&mut out, &a.track_ids);
                out.push(a.id);
                proof {
                    let next = e.albums@.subrange(0, j + 1);
                    assert(next.drop_last() =~= e.albums@.subrange(0, j as int));
                    assert(out@ =~= start + albums_wipe(next));
                }
                j = j + 1;
            }
            assert(e.albums@.subrange(0, e.albums@.len() as int) =~= e.albums@);
        }
        out.push(e.id);
        proof {
            let next = entries@.subrange(0, i + 1);
            assert(next.drop_last() =~= entries@.subrange(0, i as int));
            assert(next.last() == *e);
            assert(out@ =~= wipe_sequence(next));
        }
        i = i + 1;
    }
    assert(entries@.subrange(0, entries@.len() as int) =~= entries@);
    out
}

/// A position in the rebuild of the device library.
#[derive(Debug, PartialEq, Eq, Structural, Clone, Copy)]
pub enum RebuildStep {
    /// Create the folder of an artist under `Music`.
    Artist { artist: usize },
    /// Create the folder of an album under its artist's folder.
    Album { artist: usize, album: usize },
    /// Upload a track into its album's folder.
    Track { artist: usize, album: usize, track: usize },
    /// Nothing is left to do.
    Finished,
}

/// The step that starts artist `a`, or the end where there is none.
pub open spec fn artist_start(p: Seq<ArtistView>, a: int) -> RebuildStep {
    if 0 <= a < p.len() {
        RebuildStep::Artist { artist: a as usize }
    } else {
        RebuildStep::Finished
    }
}

/// The step that starts album `b` of artist `a`, or the next artist.
pub open spec fn album_start(p: Seq<ArtistView>, a: int, b: int) -> RebuildStep {
    if 0 <= b < p[a].albums.len() {
        RebuildStep::Album { artist: a as usize, album: b as usize }
    } else {
        artist_start(p, a + 1)
    }
}

/// The step that uploads track `t` of album `b` of artist `a`, or the next album.
pub open spec fn track_start(p: Seq<ArtistView>, a: int, b: int, t: int) -> RebuildStep {
    if 0 <= t < p[a].albums[b].tracks.len() {
        RebuildStep::Track { artist: a as usize, album: b as usize, track: t as usize }
    } else {
        album_start(p, a, b + 1)
    }
}

/// A step that names an artist, album and track of the plan.
pub open spec fn step_valid(p: Seq<ArtistView>, s: RebuildStep) -> bool {
    match s {
        RebuildStep::Artist { artist } => artist < p.len(),
        RebuildStep::Album { artist, album } => artist < p.len() && album < p[artist as int].albums.len(),
        RebuildStep::Track { artist, album, track } => artist < p.len() && album
            < p[artist as int].albums.len() && track < p[artist as int].albums[album as int].tracks.len(),
        RebuildStep::Finished => true,
    }
}

/// The step after `s`, given whether `s` succeeded. A failed folder creation
/// skips everything that would have gone into that folder; a failed upload
/// skips only that track.
pub open spec fn next_step_spec(p: Seq<ArtistView>, s: RebuildStep, ok: bool) -> RebuildStep {
    match s {
        RebuildStep::Artist { artist } => if ok {
            album_start(p, artist as int, 0)
        } else {
            artist_start(p, artist + 1)
        },
        RebuildStep::Album { artist, album } => if ok {
            track_start(p, artist as int, album as int, 0)
        } else {
            album_start(p, artist as int, album + 1)
        },
        RebuildStep::Track { artist, album, track } => track_start(
            p,
            artist as int,
            album as int,
            track + 1,
        ),
        RebuildStep::Finished => RebuildStep::Finished,
    }
}

fn next_artist(plan: &UploadPlan, a: usize) -> (r: RebuildStep)
    requires
        a < plan@.len(),
    ensures
        r == artist_start(plan@, a + 1),
        step_valid(plan@, r),
{
    if a < plan.artists.len() - 1 {
        RebuildStep::Artist { artist: a + 1 }
    } else {
        RebuildStep::Finished
    }
}

fn next_album(plan: &UploadPlan, a: usize, b: usize) -> (r: RebuildStep)
    requires
        a < plan@.len(),
        b < plan@[a as int].albums.len(),
    ensures
        r == album_start(plan@, a as int, b + 1),
        step_valid(plan@, r),
{
    assert(plan@[a as int].albums.len() == plan.artists@[a as int].albums@.len());
    if b < plan.artists[a].albums.len() - 1 {
        RebuildStep::Album { artist: a, album: b + 1 }
    } else {
        next_artist(plan, a)
    }
}

fn first_album(plan: &UploadPlan, a: usize) -> (r: RebuildStep)
    requires
        a < plan@.len(),
    ensures
        r == album_start(plan@, a as int, 0),
        step_valid(plan@, r),
{
    assert(plan@[a as int].albums.len() == plan.artists@[a as int].albums@.len());
    if plan.artists[a].albums.len() > 0 {
        RebuildStep::Album { artist: a, album: 0 }
    } else {
        next_artist(plan, a)
    }
}

fn next_track(plan: &UploadPlan, a: usize, b: usize, t: usize) -> (r: RebuildStep)
    requires
        a < plan@.len(),
        b < plan@[a as int].albums.len(),
        t < plan@[a as int].albums[b as int].tracks.len(),
    ensures
        r == track_start(plan@, a as int, b as int, t + 1),
        step_valid(plan@, r),
{
    assert(plan@[a as int].albums[b as int].tracks.len()
        == plan.artists@[a as int].albums@[b as int].tracks@.len());
    if t < plan.artists[a].albums[b].tracks.len() - 1 {
        RebuildStep::Track { artist: a, album: b, track: t + 1 }
    } else {
        next_album(plan, a, b)
    }
}

fn first_track(plan: &UploadPlan, a: usize, b: usize) -> (r: RebuildStep)
    requires
        a < plan@.len(),
        b < plan@[a as int].albums.len(),
    ensures
        r == track_start(plan@, a as int, b as int, 0),
        step_valid(plan@, r),
{
    assert(plan@[a as int].albums[b as int].tracks.len()
        == plan.artists@[a as int].albums@[b as int].tracks@.len());
    if plan.artists[a].albums[b].tracks.len() > 0 {
        RebuildStep::Track { artist: a, album: b, track: 0 }
    } else {
        next_album(plan, a, b)
    }
}

/// The first step of the rebuild.
pub fn first_step(plan: &UploadPlan) -> (r: RebuildStep)
    ensures
        r == artist_start(plan@, 0),
        step_valid(plan@, r),
{
    if plan.artists.len() > 0 {
        RebuildStep::Artist { artist: 0 }
    } else {
        RebuildStep::Finished
    }
}

/// The step after `step`, given whether it succeeded.
pub fn next_step(plan: &UploadPlan, step: RebuildStep, ok: bool) -> (r: RebuildStep)
    requires
        step_valid(plan@, step),
    ensures
        r == next_step_spec(plan@, step, ok),
        step_valid(plan@, r),
{
    match step {
        RebuildStep::Artist { artist } => if ok {
            first_album(plan, artist)
        } else {
            next_artist(plan, artist)
        },
        RebuildStep::Album { artist, album } => if ok {
            first_track(plan, artist, album)
        } else {
            next_album(plan, artist, album)
        },
        RebuildStep::Track { artist, album, track } => next_track(plan, artist, album, track),
        RebuildStep::Finished => RebuildStep::Finished,
    }
}

} // verus!
