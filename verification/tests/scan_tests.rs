use rsmus::{expand_home, is_audio_path, partition_chunks, song_from_tags, str_ends_with};

#[test]
fn audio_extensions_are_recognized() {
    assert!(is_audio_path("/m/a.flac"));
    assert!(is_audio_path("song.mp3"));
    assert!(is_audio_path("x.wav"));
    assert!(!is_audio_path("x.ogg"));
    assert!(!is_audio_path("xflac"));
    assert!(!is_audio_path("mp3"));
    assert!(!is_audio_path(""));
    assert!(is_audio_path(".flac"));
}

#[test]
fn suffix_check_counts_characters() {
    assert!(str_ends_with("caf\u{e9}", "f\u{e9}"));
    assert!(!str_ends_with("caf\u{e9}", "fe"));
    assert!(str_ends_with("abc", ""));
    assert!(!str_ends_with("a", "ba"));
}

#[test]
fn partition_covers_every_file_once() {
    // Eleven files over four workers: no division comes out even, and
    // still every file lands in exactly one chunk, in order.
    let paths: Vec<String> = (0..11).map(|i| format!("f{}", i)).collect();
    let chunks = partition_chunks(&paths, 4);
    assert_eq!(chunks.len(), 4);
    let sizes: Vec<usize> = chunks.iter().map(|c| c.len()).collect();
    assert_eq!(sizes, vec![3, 3, 3, 2]);
    let flat: Vec<String> = chunks.into_iter().flatten().collect();
    assert_eq!(flat, paths);
}

#[test]
fn partition_handles_fewer_files_than_workers() {
    let paths: Vec<String> = (0..3).map(|i| format!("f{}", i)).collect();
    let chunks = partition_chunks(&paths, 4);
    assert_eq!(chunks.len(), 4);
    let sizes: Vec<usize> = chunks.iter().map(|c| c.len()).collect();
    assert_eq!(sizes, vec![1, 1, 1, 0]);
    let flat: Vec<String> = chunks.into_iter().flatten().collect();
    assert_eq!(flat, paths);
    let none = partition_chunks(&Vec::new(), 4);
    assert_eq!(none.len(), 4);
    assert!(none.iter().all(|c| c.is_empty()));
}

#[test]
fn tag_defaults_fill_missing_fields() {
    let s = song_from_tags("/m/x.flac".to_string(), None, None, None, None, None, None, None);
    assert_eq!(s.artist, "Unknown");
    assert_eq!(s.album, "Unknown");
    assert_eq!(s.title, "Unknown");
    assert_eq!(s.genre, "Unknown");
    assert_eq!(s.track, 0);
    assert_eq!(s.year, 0);
    assert_eq!(s.duration, None);
    assert_eq!(s.path, "/m/x.flac");
    let t = song_from_tags(
        "/m/y.mp3".to_string(),
        Some("A".to_string()),
        Some("X".to_string()),
        Some("1".to_string()),
        Some("Jazz".to_string()),
        Some(90),
        Some(4),
        Some(1984),
    );
    assert_eq!(t.artist, "A");
    assert_eq!(t.album, "X");
    assert_eq!(t.title, "1");
    assert_eq!(t.genre, "Jazz");
    assert_eq!(t.track, 4);
    assert_eq!(t.year, 1984);
    assert_eq!(t.duration, Some(90));
}

#[test]
fn home_expansion() {
    assert_eq!(expand_home("~/music", "/home/u"), "/home/u/music");
    assert_eq!(expand_home("~//deep/dir", "/home/u"), "/home/u/deep/dir");
    assert_eq!(expand_home("/absolute/path", "/home/u"), "/absolute/path");
    assert_eq!(expand_home("relative", "/home/u"), "relative");
    assert_eq!(expand_home("~", "/home/u"), "~");
}
