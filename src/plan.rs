//! The upload plan: tracks grouped by artist, then by album, in scan order.
use vstd::prelude::*;

verus! {

/// A track accepted by the scanner.
pub struct Track {
    /// Where the file lies in the local playlist tree.
    pub path: String,
    /// Sanitised artist name.
    pub artist: String,
    /// Sanitised album name.
    pub album: String,
    /// Name of the file, also its name on the device.
    pub file_name: String,
    /// Size of the file in bytes.
    pub size: u64,
    /// Modification time, in seconds since the Unix epoch.
    pub modified: i64,
}

/// A track as plain values.
pub struct TrackView {
    pub path: Seq<char>,
    pub artist: Seq<char>,
    pub album: Seq<char>,
    pub file_name: Seq<char>,
    pub size: u64,
    pub modified: i64,
}

impl View for Track {
    type V = TrackView;

    open spec fn view(&self) -> TrackView {
        TrackView {
            path: self.path@,
            artist: self.artist@,
            album: self.album@,
            file_name: self.file_name@,
            size: self.size,
            modified: self.modified,
        }
    }
}

/// The tracks of one album, in scan order.
pub struct AlbumGroup {
    pub name: String,
    pub tracks: Vec<Track>,
}

/// The albums of one artist, in order of first appearance.
pub struct ArtistGroup {
    pub name: String,
    pub albums: Vec<AlbumGroup>,
}

/// Artist name to album name to tracks. Each artist occurs once, and each
/// album once under its artist.
pub struct UploadPlan {
    pub artists: Vec<ArtistGroup>,
}

/// An album as plain values.
pub struct AlbumView {
    pub name: Seq<char>,
    pub tracks: Seq<TrackView>,
}

/// An artist as plain values.
pub struct ArtistView {
    pub name: Seq<char>,
    pub albums: Seq<AlbumView>,
}

impl View for AlbumGroup {
    type V = AlbumView;

    open spec fn view(&self) -> AlbumView {
        AlbumView { name: self.name@, tracks: self.tracks@.map_values(|t: Track| t@) }
    }
}

impl View for ArtistGroup {
    type V = ArtistView;

    open spec fn view(&self) -> ArtistView {
        ArtistView { name: self.name@, albums: album_views(self.albums@) }
    }
}

impl View for UploadPlan {
    type V = Seq<ArtistView>;

    open spec fn view(&self) -> Seq<ArtistView> {
        self.artists@.map_values(|a: ArtistGroup| a@)
    }
}

/// The views of a sequence of album groups.
pub open spec fn album_views(s: Seq<AlbumGroup>) -> Seq<AlbumView> {
    s.map_values(|a: AlbumGroup| a@)
}

/// No two albums share a name.
pub open spec fn albums_distinct(albums: Seq<AlbumView>) -> bool {
    forall|i: int, j: int|
        0 <= i < albums.len() && 0 <= j < albums.len() && i != j ==> #[trigger] albums[i].name
            != #[trigger] albums[j].name
}

/// No two artists share a name, and no artist has two albums of one name.
pub open spec fn groups_distinct(artists: Seq<ArtistView>) -> bool {
    &&& forall|i: int, j: int|
        0 <= i < artists.len() && 0 <= j < artists.len() && i != j ==> #[trigger] artists[i].name
            != #[trigger] artists[j].name
    &&& forall|i: int| 0 <= i < artists.len() ==> albums_distinct(#[trigger] artists[i].albums)
}

/// The albums after a track is added to the album of its name, or to a new
/// album at the end.
pub open spec fn album_insert(albums: Seq<AlbumView>, t: TrackView) -> Seq<AlbumView> {
    if exists|j: int| 0 <= j < albums.len() && albums[j].name == t.album {
        let j = choose|j: int| 0 <= j < albums.len() && albums[j].name == t.album;
        albums.update(j, AlbumView { name: albums[j].name, tracks: albums[j].tracks.push(t) })
    } else {
        albums.push(AlbumView { name: t.album, tracks: seq![t] })
    }
}

/// The plan after a track is added under its artist and album, each created
/// at the end where it is new.
pub open spec fn plan_insert(artists: Seq<ArtistView>, t: TrackView) -> Seq<ArtistView> {
    if exists|i: int| 0 <= i < artists.len() && artists[i].name == t.artist {
        let i = choose|i: int| 0 <= i < artists.len() && artists[i].name == t.artist;
        artists.update(
            i,
            ArtistView { name: artists[i].name, albums: album_insert(artists[i].albums, t) },
        )
    } else {
        artists.push(
            ArtistView { name: t.artist, albums: seq![AlbumView { name: t.album, tracks: seq![t] }] },
        )
    }
}

/// The plan built from a sequence of tracks, added in order to an empty plan.
pub open spec fn plan_of(ts: Seq<TrackView>) -> Seq<ArtistView>
    decreases ts.len(),
{
    if ts.len() == 0 {
        Seq::empty()
    } else {
        plan_insert(plan_of(ts.drop_last()), ts.last())
    }
}

fn add_to_albums(albums: &mut Vec<AlbumGroup>, t: Track)
    requires
        albums_distinct(album_views(old(albums)@)),
    ensures
        album_views(final(albums)@) == album_insert(
            album_views(old(albums)@),
            t@,
        ),
        albums_distinct(album_views(final(albums)@)),
{
    let ghost before = album_views(albums@);
    let mut j: usize = 0;
    while j < albums.len()
        invariant
            j <= albums.len(),
            album_views(albums@) == before,
            before == album_views(old(albums)@),
            albums_distinct(before),
            forall|k: int| 0 <= k < j ==> #[trigger] before[k].name != t.album@,
        decreases albums.len() - j,
    {
        if albums[j].name == t.album {
            let ghost tv = t@;
            let mut group = albums.remove(j);
            group.tracks.push(t);
            albums.insert(j, group);
            proof {
                assert(before[j as int].name == tv.album);
                assert(exists|c: int| 0 <= c < before.len() && before[c].name == tv.album);
                let c = choose|c: int| 0 <= c < before.len() && before[c].name == tv.album;
                assert(before[c].name == before[j as int].name);
                assert(c == j);
                assert(group@.tracks =~= before[j as int].tracks.push(tv));
                assert(album_views(albums@) =~= before.update(
                    j as int,
                    AlbumView { name: before[j as int].name, tracks: before[j as int].tracks.push(tv) },
                ));
                assert(album_views(albums@) == album_insert(before, tv));
            }
            return;
        }
        j = j + 1;
    }
    let ghost tv = t@;
    let name = t.album.clone();
    let mut tracks: Vec<Track> = Vec::new();
    tracks.push(t);
    albums.push(AlbumGroup { name, tracks });
    proof {
        assert(tracks@.map_values(|x: Track| x@) =~= seq![tv]);
        assert(album_views(albums@) =~= before.push(
            AlbumView { name: tv.album, tracks: seq![tv] },
        ));
    }
}

impl UploadPlan {
    /// Names are unique at each level.
    pub open spec fn wf(&self) -> bool {
        groups_distinct(self@)
    }

    /// An empty plan.
    pub fn new() -> (r: UploadPlan)
        ensures
            r@ == Seq::<ArtistView>::empty(),
            r.wf(),
    {
        let r = UploadPlan { artists: Vec::new() };
        assert(r@ =~= Seq::<ArtistView>::empty());
        r
    }

    /// Appends a track to the album of its artist, creating either where
    /// it is missing.
    pub fn add_track(&mut self, t: Track)
        requires
            old(self).wf(),
        ensures
            final(self).wf(),
            final(self)@ == plan_insert(old(self)@, t@),
    {
        let ghost before = self@;
        let mut i: usize = 0;
        while i < self.artists.len()
            invariant
                i <= self.artists.len(),
                self@ == before,
                before == old(self)@,
                groups_distinct(before),
                forall|k: int| 0 <= k < i ==> #[trigger] before[k].name != t.artist@,
            decreases self.artists.len() - i,
        {
            if self.artists[i].name == t.artist {
                let ghost tv = t@;
                let mut group = self.artists.remove(i);
                assert(group@ == before[i as int]);
                assert(albums_distinct(before[i as int].albums));
                assert(album_views(group.albums@) == group@.albums);
                add_to_albums(&mut group.albums, t);
                self.artists.insert(i, group);
                proof {
                    assert(before[i as int].name == tv.artist);
                    assert(exists|c: int| 0 <= c < before.len() && before[c].name == tv.artist);
                    let c = choose|c: int| 0 <= c < before.len() && before[c].name == tv.artist;
                    assert(before[c].name == before[i as int].name);
                    assert(c == i);
                    assert(self@ =~= before.update(
                        i as int,
                        ArtistView {
                            name: before[i as int].name,
                            albums: album_insert(before[i as int].albums, tv),
                        },
                    ));
                    assert forall|k: int| 0 <= k < self@.len() implies albums_distinct(
                        #[trigger] self@[k].albums,
                    ) by {
                        if k != i {
                            assert(self@[k] == before[k]);
                        }
                    }
                }
                return;
            }
            i = i + 1;
        }
        let ghost tv = t@;
        let name = t.artist.clone();
        let mut albums: Vec<AlbumGroup> = Vec::new();
        add_to_albums(&mut albums, t);
        self.artists.push(ArtistGroup { name, albums });
        proof {
            let e = album_views(Seq::<AlbumGroup>::empty());
            assert(e =~= Seq::<AlbumView>::empty());
            assert(album_insert(e, tv) =~= seq![AlbumView { name: tv.album, tracks: seq![tv] }]);
            assert(self@ =~= before.push(
                ArtistView { name: tv.artist, albums: seq![AlbumView { name: tv.album, tracks: seq![tv] }] },
            ));
            assert forall|k: int| 0 <= k < self@.len() implies albums_distinct(
                #[trigger] self@[k].albums,
            ) by {
                if k < before.len() {
                    assert(self@[k] == before[k]);
                }
            }
        }
    }
}

} // verus!
