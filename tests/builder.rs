use portable_audio_library::builder::directory::{
    build_directory_from_metadata, build_metadata_from_directory, TreeEntry,
};
use portable_audio_library::builder::m3u::{
    build_m3u_from_metadata, build_metadata_from_m3u, playlist_file_name, playlist_lines,
    playlist_name_of,
};
use portable_audio_library::builder::{merge_found, root_name, FoundAudio, ScannedFile, ScannedPlaylist};
use portable_audio_library::compression::CompressionType;
use portable_audio_library::container::{frame_container, read_metadata_length, HEADER_SIZE};
use portable_audio_library::error::PortableAudioLibraryError;

fn file(path: &str, size: u64) -> ScannedFile {
    ScannedFile { path: path.to_string(), size }
}

fn playlist(name: &str, files: Vec<ScannedFile>) -> ScannedPlaylist {
    ScannedPlaylist { name: name.to_string(), files }
}

fn strings(v: &[&str]) -> Vec<String> {
    v.iter().map(|s| s.to_string()).collect()
}

#[test]
fn same_file_name_in_two_playlists_merges() {
    let entries = vec![
        TreeEntry::Directory(playlist("p1", vec![file("/src/p1/a.mp3", 10)])),
        TreeEntry::Directory(playlist("p2", vec![file("/src/p2/a.mp3", 99)])),
    ];
    let m = build_metadata_from_directory(&entries).unwrap();
    assert_eq!(m.audios.len(), 1);
    assert_eq!(m.audios[0].name, "a.mp3");
    assert_eq!(m.audios[0].playlists, strings(&["p1", "p2"]));
    assert_eq!(m.audios[0].path, "/src/p1/a.mp3");
    assert_eq!(m.audios[0].size, 10);
}

#[test]
fn empty_directory_gives_no_entries() {
    let m = build_metadata_from_directory(&Vec::new()).unwrap();
    assert!(m.audios.is_empty());
    assert_eq!(m.compression_type, CompressionType::Uncompressed);
    assert!(build_directory_from_metadata(&m).is_empty());
}

#[test]
fn file_without_a_name_is_refused() {
    let entries = vec![TreeEntry::File(file("/x/ok.mp3", 1)), TreeEntry::File(file("/", 1))];
    assert_eq!(
        build_metadata_from_directory(&entries),
        Err(PortableAudioLibraryError::MissingFileName { path: "/".to_string() })
    );
    let found = vec![FoundAudio { playlist: "p".to_string(), path: "a/..".to_string(), size: 0 }];
    assert_eq!(merge_found(&found), Err(PortableAudioLibraryError::MissingFileName { path: "a/..".to_string() }));
}

#[test]
fn repeated_reference_in_one_playlist_is_kept() {
    let lists = vec![playlist("mix", vec![file("/m/a.mp3", 3), file("/n/a.mp3", 4)])];
    let m = build_metadata_from_m3u(&lists).unwrap();
    assert_eq!(m.audios.len(), 1);
    assert_eq!(m.audios[0].playlists, strings(&["mix", "mix"]));
    assert_eq!(m.audios[0].path, "/m/a.mp3");
}

#[test]
fn tree_round_trip_through_an_uncompressed_container() {
    let entries = vec![
        TreeEntry::File(file("/src/a.mp3", 3)),
        TreeEntry::Directory(playlist("playlist1", vec![file("/src/playlist1/a.mp3", 3), file("/src/playlist1/b.mp3", 2)])),
    ];
    let mut m = build_metadata_from_directory(&entries).unwrap();
    assert_eq!(m.audios.len(), 2);
    assert_eq!(m.audios[0].name, "a.mp3");
    assert_eq!(m.audios[0].playlists, strings(&["root", "playlist1"]));
    assert_eq!(m.audios[1].name, "b.mp3");
    assert_eq!(m.audios[1].playlists, strings(&["playlist1"]));

    let sources = vec![b"AAA".to_vec(), b"BB".to_vec()];
    let payloads = m.compress_audios(&sources).unwrap();
    let c = frame_container(b"md", &payloads).unwrap();
    let l = read_metadata_length(&c).unwrap();
    let decoded = m.decompress_audios(&c, HEADER_SIZE + l).unwrap();
    assert_eq!(decoded, sources);

    let plan = build_directory_from_metadata(&m);
    let placed: Vec<(Option<String>, String, String)> =
        plan.iter().map(|p| (p.directory.clone(), p.name.clone(), p.source.clone())).collect();
    assert_eq!(
        placed,
        vec![
            (None, "a.mp3".to_string(), "/src/a.mp3".to_string()),
            (Some("playlist1".to_string()), "a.mp3".to_string(), "/src/a.mp3".to_string()),
            (Some("playlist1".to_string()), "b.mp3".to_string(), "/src/playlist1/b.mp3".to_string()),
        ]
    );
}

#[test]
fn root_playlist_name() {
    assert_eq!(root_name(), "root");
}

#[test]
fn list_files_are_recognised_by_extension() {
    assert_eq!(playlist_name_of("chill.m3u"), Some("chill".to_string()));
    assert_eq!(playlist_name_of("a.b.m3u"), Some("a.b".to_string()));
    assert_eq!(playlist_name_of(".m3u"), None);
    assert_eq!(playlist_name_of("chill.m3u8"), None);
    assert_eq!(playlist_name_of("notes.txt"), None);
    assert_eq!(playlist_file_name("chill"), "chill.m3u");
    assert_eq!(playlist_name_of(&playlist_file_name("x")), Some("x".to_string()));
}

#[test]
fn list_content_splits_at_newlines() {
    assert_eq!(playlist_lines("/a.mp3\n/b.mp3"), strings(&["/a.mp3", "/b.mp3"]));
    assert_eq!(playlist_lines("/a.mp3\n"), strings(&["/a.mp3", ""]));
    assert_eq!(playlist_lines(""), strings(&[""]));
    assert_eq!(playlist_lines("\n\n"), strings(&["", "", ""]));
}

#[test]
fn list_files_list_each_copy_per_playlist() {
    let lists = vec![
        playlist("one", vec![file("/x/a.mp3", 1), file("/x/b.mp3", 1)]),
        playlist("two", vec![file("/y/a.mp3", 1)]),
    ];
    let m = build_metadata_from_m3u(&lists).unwrap();
    let dests = strings(&["/out/a.mp3", "/out/b.mp3"]);
    let files = build_m3u_from_metadata(&m, &dests);
    let got: Vec<(String, String)> = files.iter().map(|f| (f.playlist.clone(), f.content.clone())).collect();
    assert_eq!(
        got,
        vec![
            ("one".to_string(), "/out/a.mp3\n/out/b.mp3".to_string()),
            ("two".to_string(), "/out/a.mp3".to_string()),
        ]
    );
}
