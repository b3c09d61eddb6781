use playlist_sync::device::{
    choose_storage, find_music_folder, first_step, next_step, select_device, wipe_order,
    AlbumListing, DeviceObject, MusicEntry, RebuildStep, SyncError, DEVICE_VENDOR_ID,
};
use playlist_sync::naming::{
    device_path, device_path_lower, ends_with_mp3_folded, is_audio_file_name, playlist_content,
    playlist_file_name,
};
use playlist_sync::plan::{Track, UploadPlan};
use playlist_sync::run::{advance, staging_may_exist, RunPhase};
use playlist_sync::sanitize::adjust_file_name;
use playlist_sync::scan::{scan_library, LibraryScan, ScannedEntry, ScannedFile, TagInfo};
use playlist_sync::staging::staged_names;

fn tags(artist: Option<&str>, album: Option<&str>, title: Option<&str>) -> Option<TagInfo> {
    Some(TagInfo {
        artist: artist.map(|s| s.to_string()),
        album: album.map(|s| s.to_string()),
        title: title.map(|s| s.to_string()),
    })
}

fn file(name: &str, t: Option<TagInfo>) -> ScannedFile {
    ScannedFile {
        file_name: Some(name.to_string()),
        path: format!("playlists/p/{}", name),
        size: 100,
        modified: 1_700_000_000,
        tags: t,
    }
}

fn folder(name: &str, files: Vec<ScannedFile>) -> ScannedEntry {
    ScannedEntry { name: name.to_string(), is_dir: true, files }
}

fn album_names(scan: &LibraryScan, artist: usize) -> Vec<String> {
    scan.plan.artists[artist].albums.iter().map(|a| a.name.clone()).collect()
}

fn track_names(scan: &LibraryScan, artist: usize, album: usize) -> Vec<String> {
    scan.plan.artists[artist].albums[album].tracks.iter().map(|t| t.file_name.clone()).collect()
}

#[test]
fn sanitizer_replaces_disallowed_characters() {
    assert_eq!(adjust_file_name("AC/DC".to_string()), "AC_DC");
    assert_eq!(adjust_file_name("Guns N' Roses".to_string()), "Guns N_ Roses");
    assert_eq!(adjust_file_name("Live (1977).x".to_string()), "Live (1977).x");
    assert_eq!(adjust_file_name("Björk".to_string()), "Bj_rk");
    assert_eq!(adjust_file_name(String::new()), "");
}

#[test]
fn sanitizer_output_is_allowed_and_idempotent() {
    let inputs = ["a:b*c?", "Motörhead & Friends", "__", "x/y\\z", "ok name.mp3"];
    for s in inputs {
        let once = adjust_file_name(s.to_string());
        assert!(once
            .chars()
            .all(|c| c.is_ascii_alphanumeric() || " .()_".contains(c)));
        assert_eq!(adjust_file_name(once.clone()), once);
    }
}

#[test]
fn scanner_skips_non_audio_files() {
    let entries = vec![folder(
        "Mix",
        vec![
            file("a.mp3", tags(Some("X"), Some("Y"), Some("A"))),
            file("b.txt", tags(Some("X"), Some("Y"), Some("B"))),
        ],
    )];
    let scan = scan_library(&entries);
    assert_eq!(scan.plan.artists.len(), 1);
    assert_eq!(scan.plan.artists[0].name, "X");
    assert_eq!(album_names(&scan, 0), vec!["Y".to_string()]);
    assert_eq!(track_names(&scan, 0, 0), vec!["a.mp3".to_string()]);
    assert_eq!(scan.playlists.len(), 1);
    assert_eq!(scan.playlists[0].name, "Mix");
    assert_eq!(scan.playlists[0].paths, vec!["0:/MUSIC/X/Y/A.MP3".to_string()]);
}

#[test]
fn device_path_is_deterministic() {
    assert_eq!(device_path("X", "Y", "A.MP3"), "0:/MUSIC/X/Y/A.MP3");
    assert_eq!(device_path("X", "Y", "A.MP3"), device_path("X", "Y", "A.MP3"));
    assert_eq!(device_path_lower("X", "Y", "A.MP3"), "0:/music/X/Y/A.MP3");
}

#[test]
fn device_path_is_upper_cased() {
    assert_eq!(device_path("queen", "greatest hits", "song.mp3"), "0:/MUSIC/QUEEN/GREATEST HITS/SONG.MP3");
}

#[test]
fn road_trip_scenario() {
    let entries = vec![folder(
        "Road Trip",
        vec![
            file("02 Under Pressure.mp3", tags(Some("Queen"), Some("Greatest Hits"), Some("Under Pressure"))),
            file("01 Bohemian Rhapsody.mp3", tags(Some("Queen"), Some("Greatest Hits"), Some("Bohemian Rhapsody"))),
        ],
    )];
    let scan = scan_library(&entries);
    assert_eq!(scan.plan.artists.len(), 1);
    assert_eq!(scan.plan.artists[0].name, "Queen");
    assert_eq!(album_names(&scan, 0), vec!["Greatest Hits".to_string()]);
    assert_eq!(
        track_names(&scan, 0, 0),
        vec!["02 Under Pressure.mp3".to_string(), "01 Bohemian Rhapsody.mp3".to_string()]
    );
    assert_eq!(
        scan.playlists[0].paths,
        vec![
            "0:/MUSIC/QUEEN/GREATEST HITS/02 UNDER PRESSURE.MP3".to_string(),
            "0:/MUSIC/QUEEN/GREATEST HITS/01 BOHEMIAN RHAPSODY.MP3".to_string(),
        ]
    );
    assert_eq!(playlist_file_name(&scan.playlists[0].name), "Road Trip.m3u8");
    assert_eq!(playlist_file_name(&scan.playlists[0].name).to_uppercase(), "ROAD TRIP.M3U8");
    assert_eq!(
        playlist_content(&scan.playlists[0].paths),
        "0:/MUSIC/QUEEN/GREATEST HITS/02 UNDER PRESSURE.MP3\n0:/MUSIC/QUEEN/GREATEST HITS/01 BOHEMIAN RHAPSODY.MP3\n"
    );
}

#[test]
fn missing_music_folder_is_fatal() {
    let root = vec![
        DeviceObject { id: 1, name: "Podcasts".to_string(), is_folder: true },
        DeviceObject { id: 2, name: "music".to_string(), is_folder: true },
    ];
    assert_eq!(find_music_folder(&root), Err(SyncError::MusicFolderMissing));
    assert_eq!(find_music_folder(&Vec::new()), Err(SyncError::MusicFolderMissing));
}

#[test]
fn music_folder_is_first_of_its_name() {
    let root = vec![
        DeviceObject { id: 4, name: "Podcasts".to_string(), is_folder: true },
        DeviceObject { id: 7, name: "Music".to_string(), is_folder: true },
        DeviceObject { id: 9, name: "Music".to_string(), is_folder: true },
    ];
    assert_eq!(find_music_folder(&root), Ok(7));
}

#[test]
fn unreadable_tags_skip_only_that_track() {
    let entries = vec![folder(
        "Mix",
        vec![
            file("a.mp3", tags(Some("X"), Some("Y"), None)),
            file("broken.mp3", None),
            file("c.mp3", tags(Some("X"), Some("Y"), None)),
        ],
    )];
    let scan = scan_library(&entries);
    assert_eq!(track_names(&scan, 0, 0), vec!["a.mp3".to_string(), "c.mp3".to_string()]);
    assert_eq!(
        scan.playlists[0].paths,
        vec!["0:/MUSIC/X/Y/A.MP3".to_string(), "0:/MUSIC/X/Y/C.MP3".to_string()]
    );
}

#[test]
fn missing_tags_default_to_unknown_and_non_folders_are_skipped() {
    let entries = vec![
        ScannedEntry { name: "notes.txt".to_string(), is_dir: false, files: Vec::new() },
        folder("Mix", vec![file("a.mp3", tags(None, Some("AC/DC Live"), None))]),
        folder("Empty", Vec::new()),
    ];
    let scan = scan_library(&entries);
    assert_eq!(scan.playlists.len(), 2);
    assert_eq!(scan.playlists[0].name, "Mix");
    assert_eq!(scan.playlists[1].name, "Empty");
    assert!(scan.playlists[1].paths.is_empty());
    assert_eq!(scan.plan.artists[0].name, "Unknown");
    assert_eq!(album_names(&scan, 0), vec!["AC_DC Live".to_string()]);
    assert_eq!(scan.playlists[0].paths, vec!["0:/MUSIC/UNKNOWN/AC_DC LIVE/A.MP3".to_string()]);
}

#[test]
fn file_without_unicode_name_goes_by_placeholder() {
    let mut f = file("x.mp3", tags(Some("X"), Some("Y"), None));
    f.file_name = None;
    let scan = scan_library(&vec![folder("Mix", vec![f])]);
    assert_eq!(scan.playlists[0].paths, vec!["0:/MUSIC/X/Y/UNKNOWN.MP3".to_string()]);
}

#[test]
fn tracks_group_by_artist_then_album_across_playlists() {
    let entries = vec![
        folder(
            "One",
            vec![
                file("1.mp3", tags(Some("A"), Some("P"), None)),
                file("2.mp3", tags(Some("B"), Some("Q"), None)),
                file("3.mp3", tags(Some("A"), Some("R"), None)),
            ],
        ),
        folder("Two", vec![file("4.mp3", tags(Some("A"), Some("P"), None))]),
    ];
    let scan = scan_library(&entries);
    let artists: Vec<String> = scan.plan.artists.iter().map(|a| a.name.clone()).collect();
    assert_eq!(artists, vec!["A".to_string(), "B".to_string()]);
    assert_eq!(album_names(&scan, 0), vec!["P".to_string(), "R".to_string()]);
    assert_eq!(track_names(&scan, 0, 0), vec!["1.mp3".to_string(), "4.mp3".to_string()]);
    assert_eq!(track_names(&scan, 1, 0), vec!["2.mp3".to_string()]);
}

#[test]
fn scanning_twice_gives_the_same_result() {
    let entries = vec![folder(
        "Mix",
        vec![
            file("a.mp3", tags(Some("X"), Some("Y"), None)),
            file("b.mp3", tags(Some("Z"), Some("W"), None)),
        ],
    )];
    let first = scan_library(&entries);
    let second = scan_library(&entries);
    assert_eq!(first.playlists[0].paths, second.playlists[0].paths);
    assert_eq!(first.plan.artists.len(), second.plan.artists.len());
    for (a, b) in first.plan.artists.iter().zip(second.plan.artists.iter()) {
        assert_eq!(a.name, b.name);
        assert_eq!(a.albums.len(), b.albums.len());
    }
}

#[test]
fn audio_extension_ignores_case() {
    assert!(is_audio_file_name("Song.MP3"));
    assert!(is_audio_file_name("song.mp3"));
    assert!(!is_audio_file_name("Mp3"));
    assert!(!is_audio_file_name("song_mp3"));
    assert!(is_audio_file_name(".MP3"));
    assert!(!is_audio_file_name("song.txt"));
    assert!(!is_audio_file_name("mp"));
    assert!(ends_with_mp3_folded("a.mp3"));
    assert!(!ends_with_mp3_folded("a.MP3"));
}

#[test]
fn playlist_text_has_one_line_per_path() {
    assert_eq!(playlist_content(&Vec::new()), "");
    assert_eq!(playlist_content(&vec!["A".to_string(), "B".to_string()]), "A\nB\n");
    assert_eq!(playlist_file_name("Road Trip"), "Road Trip.m3u8");
}

#[test]
fn staging_renames_by_title_without_overwriting() {
    let names = vec!["1.mp3".to_string(), "2.mp3".to_string(), "3.mp3".to_string(), "Song.mp3".to_string()];
    let titles = vec![Some("Song".to_string()), Some("Song".to_string()), None, Some("Other".to_string())];
    let out = staged_names(&names, &titles);
    assert_eq!(
        out,
        vec!["Song.mp3".to_string(), "2.mp3".to_string(), "3.mp3".to_string(), "Other.mp3".to_string()]
    );
    assert_eq!(staged_names(&out, &titles), out);
    let names = vec!["1.mp3".to_string(), "2.mp3".to_string()];
    let titles = vec![Some("Song".to_string()), Some("Song".to_string())];
    assert_eq!(staged_names(&names, &titles), vec!["Song.mp3".to_string(), "2.mp3".to_string()]);
}

#[test]
fn staging_takes_a_name_that_frees_up_later() {
    let names = vec!["x.mp3".to_string(), "A.mp3".to_string()];
    let titles = vec![Some("A".to_string()), Some("B".to_string())];
    let out = staged_names(&names, &titles);
    assert_eq!(out, vec!["A.mp3".to_string(), "B.mp3".to_string()]);
    assert_eq!(staged_names(&out, &titles), out);
}

#[test]
fn staging_keeps_an_untitled_file_that_holds_the_name() {
    let names = vec!["A.mp3".to_string(), "y.mp3".to_string()];
    let titles = vec![None, Some("A".to_string())];
    let out = staged_names(&names, &titles);
    assert_eq!(out, names);
    assert_eq!(staged_names(&Vec::new(), &Vec::new()), Vec::<String>::new());
}

#[test]
fn device_selection() {
    assert_eq!(select_device(&Vec::new()), Err(SyncError::NoDevice));
    assert_eq!(select_device(&vec![1, 2]), Err(SyncError::NoMatchingDevice));
    assert_eq!(select_device(&vec![1, DEVICE_VENDOR_ID, DEVICE_VENDOR_ID]), Ok(1));
    assert_eq!(choose_storage(&Vec::new()), Err(SyncError::NoStorage));
    assert_eq!(choose_storage(&vec![65537, 131073]), Ok(65537));
}

#[test]
fn wipe_deletes_tracks_then_albums_then_artists() {
    let entries = vec![
        MusicEntry {
            id: 10,
            is_folder: true,
            albums: vec![
                AlbumListing { id: 20, track_ids: vec![30, 31] },
                AlbumListing { id: 21, track_ids: vec![] },
            ],
        },
        MusicEntry { id: 11, is_folder: false, albums: vec![] },
        MusicEntry { id: 12, is_folder: true, albums: vec![AlbumListing { id: 22, track_ids: vec![32] }] },
    ];
    assert_eq!(wipe_order(&entries), vec![30, 31, 20, 21, 10, 11, 32, 22, 12]);
    assert!(wipe_order(&Vec::new()).is_empty());
}

fn track(artist: &str, album: &str, name: &str) -> Track {
    Track {
        path: name.to_string(),
        artist: artist.to_string(),
        album: album.to_string(),
        file_name: name.to_string(),
        size: 1,
        modified: 0,
    }
}

#[test]
fn rebuild_walk_visits_every_track_when_all_succeed() {
    let mut plan = UploadPlan::new();
    plan.add_track(track("A", "P", "1"));
    plan.add_track(track("A", "Q", "2"));
    plan.add_track(track("B", "R", "3"));
    plan.add_track(track("A", "P", "4"));
    let mut steps = Vec::new();
    let mut s = first_step(&plan);
    while s != RebuildStep::Finished {
        steps.push(s);
        s = next_step(&plan, s, true);
    }
    assert_eq!(
        steps,
        vec![
            RebuildStep::Artist { artist: 0 },
            RebuildStep::Album { artist: 0, album: 0 },
            RebuildStep::Track { artist: 0, album: 0, track: 0 },
            RebuildStep::Track { artist: 0, album: 0, track: 1 },
            RebuildStep::Album { artist: 0, album: 1 },
            RebuildStep::Track { artist: 0, album: 1, track: 0 },
            RebuildStep::Artist { artist: 1 },
            RebuildStep::Album { artist: 1, album: 0 },
            RebuildStep::Track { artist: 1, album: 0, track: 0 },
        ]
    );
}

#[test]
fn failed_folder_creation_skips_its_subtree() {
    let mut plan = UploadPlan::new();
    plan.add_track(track("A", "P", "1"));
    plan.add_track(track("A", "Q", "2"));
    plan.add_track(track("B", "R", "3"));
    let s = first_step(&plan);
    assert_eq!(next_step(&plan, s, false), RebuildStep::Artist { artist: 1 });
    let album = RebuildStep::Album { artist: 0, album: 0 };
    assert_eq!(next_step(&plan, album, false), RebuildStep::Album { artist: 0, album: 1 });
    let last = RebuildStep::Track { artist: 1, album: 0, track: 0 };
    assert_eq!(next_step(&plan, last, false), RebuildStep::Finished);
    assert_eq!(first_step(&UploadPlan::new()), RebuildStep::Finished);
}

#[test]
fn run_phases_follow_a_single_path() {
    let mut p = RunPhase::Idle;
    let mut seen = vec![p];
    while p != RunPhase::Done {
        p = advance(p, false);
        seen.push(p);
    }
    assert_eq!(
        seen,
        vec![
            RunPhase::Idle,
            RunPhase::Scanning,
            RunPhase::Staging,
            RunPhase::Wiping,
            RunPhase::Rebuilding,
            RunPhase::UploadingPlaylists,
            RunPhase::CleaningUp,
            RunPhase::Done,
        ]
    );
    assert_eq!(advance(RunPhase::Staging, true), RunPhase::Failed);
    assert_eq!(advance(RunPhase::Failed, false), RunPhase::Failed);
    assert_eq!(advance(RunPhase::CleaningUp, true), RunPhase::Done);
    assert!(staging_may_exist(RunPhase::Failed));
    assert!(staging_may_exist(RunPhase::Rebuilding));
    assert!(!staging_may_exist(RunPhase::Scanning));
    assert!(!staging_may_exist(RunPhase::Done));
}
