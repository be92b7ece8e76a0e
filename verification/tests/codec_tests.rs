use rsmus::{load_cache, save_cache, Song};

fn song(artist: &str, album: &str, title: &str, duration: Option<u64>, track: u32) -> Song {
    Song {
        artist: artist.to_string(),
        album: album.to_string(),
        title: title.to_string(),
        path: format!("/m/{}/{}", album, title),
        duration,
        track,
        year: 1999,
        genre: "Folk".to_string(),
    }
}

fn same_song(a: &Song, b: &Song) -> bool {
    a.artist == b.artist && a.album == b.album && a.title == b.title && a.path == b.path
        && a.duration == b.duration && a.track == b.track && a.year == b.year && a.genre == b.genre
}

#[test]
fn cache_round_trip_preserves_content_and_order() {
    let songs = vec![
        song("A", "X", "1", Some(180), 1),
        song("A", "X", "2", None, 2),
        song("B", "Y", "3", Some(0), 0),
    ];
    let bytes = save_cache(&songs);
    let back = load_cache(&bytes).expect("a fresh image must load");
    assert_eq!(back.len(), songs.len());
    for (a, b) in songs.iter().zip(back.iter()) {
        assert!(same_song(a, b));
    }
}

#[test]
fn cache_round_trip_keeps_multibyte_text() {
    // If the decoder mishandled UTF-8, these fields could not survive.
    let songs = vec![
        song("Bj\u{f6}rk", "Alb\u{fa}m", "T\u{edf}tlar", Some(7), 3),
        song("", "", "", None, 0),
        song("\u{65e5}\u{672c}", "\u{97f3}\u{697d}", "\u{66f2}", Some(u64::MAX), u32::MAX),
    ];
    let bytes = save_cache(&songs);
    let back = load_cache(&bytes).expect("a fresh image must load");
    assert_eq!(back.len(), 3);
    for (a, b) in songs.iter().zip(back.iter()) {
        assert!(same_song(a, b));
    }
}

#[test]
fn empty_collection_round_trips() {
    let songs: Vec<Song> = Vec::new();
    let bytes = save_cache(&songs);
    let back = load_cache(&bytes).expect("the empty image must load");
    assert!(back.is_empty());
}

#[test]
fn corrupt_images_are_rejected() {
    // Too short for a count.
    assert!(load_cache(&vec![]).is_none());
    assert!(load_cache(&vec![1, 2, 3]).is_none());
    // A count with nothing behind it.
    let mut lying = vec![0u8; 8];
    lying[0] = 5;
    assert!(load_cache(&lying).is_none());
    // A truncated real image.
    let songs = vec![song("A", "X", "1", Some(180), 1)];
    let bytes = save_cache(&songs);
    let cut = bytes[..bytes.len() - 1].to_vec();
    assert!(load_cache(&cut).is_none());
    // Trailing garbage after a real image.
    let mut padded = bytes.clone();
    padded.push(0);
    assert!(load_cache(&padded).is_none());
    // A duration tag that is neither absent nor present.
    let probe = song("A", "X", "1", None, 1);
    let path_len = probe.path.len();
    let mut image = save_cache(&vec![probe]);
    let marker = 8 + (8 + 1) + (8 + 1) + (8 + 1) + (8 + path_len);
    assert_eq!(image[marker], 0);
    image[marker] = 2;
    assert!(load_cache(&image).is_none());
}

#[test]
fn non_utf8_text_is_rejected() {
    let songs = vec![song("A", "X", "1", None, 1)];
    let mut image = save_cache(&songs);
    // The artist's single byte sits right after the count and the
    // artist's length prefix; 0xff alone is not UTF-8.
    assert_eq!(image[16], b'A');
    image[16] = 0xff;
    assert!(load_cache(&image).is_none());
}
