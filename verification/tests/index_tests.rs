use rsmus::{init_albums, init_artists, str_lt, str_eq, sorted_contains, insert_sorted, Song};

fn song(artist: &str, album: &str, title: &str) -> Song {
    Song {
        artist: artist.to_string(),
        album: album.to_string(),
        title: title.to_string(),
        path: format!("/music/{}/{}/{}", artist, album, title),
        duration: Some(180),
        track: 1,
        year: 2001,
        genre: "Rock".to_string(),
    }
}

#[test]
fn derive_small_library() {
    let songs = vec![song("A", "X", "1"), song("A", "X", "2"), song("B", "Y", "3")];
    let albums = init_albums(&songs);
    assert_eq!(albums.len(), 2);
    assert_eq!(albums[0].title, "X");
    assert_eq!(albums[1].title, "Y");
    assert_eq!(albums[0].songs, vec![0, 1]);
    assert_eq!(albums[1].songs, vec![2]);
    assert_eq!(albums[0].artists, vec!["A".to_string()]);
    assert_eq!(albums[1].artists, vec!["B".to_string()]);
    let artists = init_artists(&songs, &albums);
    assert_eq!(artists.len(), 2);
    assert_eq!(artists[0].name, "A");
    assert_eq!(artists[1].name, "B");
    assert_eq!(artists[0].albums, vec![0]);
    assert_eq!(artists[1].albums, vec![1]);
}

#[test]
fn derive_lists_are_strictly_ascending() {
    let songs = vec![
        song("b", "zz", "1"),
        song("A", "m", "2"),
        song("a", "zz", "3"),
        song("A", "m", "4"),
    ];
    let albums = init_albums(&songs);
    for w in albums.windows(2) {
        assert!(w[0].title < w[1].title);
    }
    let artists = init_artists(&songs, &albums);
    for w in artists.windows(2) {
        assert!(w[0].name < w[1].name);
    }
    // Byte order is case-sensitive: capitals come first.
    let names: Vec<&str> = artists.iter().map(|a| a.name.as_str()).collect();
    assert_eq!(names, vec!["A", "a", "b"]);
}

#[test]
fn split_release_merges_by_title() {
    // Two artists sharing one album title end up in one album whose
    // artist set holds both, sorted.
    let songs = vec![song("B", "Split", "1"), song("A", "Split", "2")];
    let albums = init_albums(&songs);
    assert_eq!(albums.len(), 1);
    assert_eq!(albums[0].artists, vec!["A".to_string(), "B".to_string()]);
    assert_eq!(albums[0].songs, vec![0, 1]);
    let artists = init_artists(&songs, &albums);
    assert_eq!(artists.len(), 2);
    assert_eq!(artists[0].albums, vec![0]);
    assert_eq!(artists[1].albums, vec![0]);
}

#[test]
fn every_artist_album_holds_the_name() {
    let songs = vec![
        song("x", "p", "1"),
        song("y", "p", "2"),
        song("x", "q", "3"),
        song("z", "r", "4"),
    ];
    let albums = init_albums(&songs);
    let artists = init_artists(&songs, &albums);
    for artist in &artists {
        for &ai in &artist.albums {
            assert!(albums[ai].artists.binary_search(&artist.name).is_ok());
        }
    }
}

#[test]
fn string_order_and_search() {
    assert!(str_lt("abc", "abd"));
    assert!(str_lt("ab", "abc"));
    assert!(str_lt("", "a"));
    assert!(!str_lt("abc", "abc"));
    assert!(!str_lt("b", "a"));
    assert!(str_eq("hej", "hej"));
    assert!(!str_eq("hej", "hei"));
    let v = vec!["alpha".to_string(), "beta".to_string(), "delta".to_string()];
    assert!(sorted_contains(&v, "beta"));
    assert!(!sorted_contains(&v, "gamma"));
    assert!(!sorted_contains(&v, ""));
}

#[test]
fn order_is_by_scalar_value_for_multibyte_text() {
    assert!(str_lt("z", "\u{e9}"));
    assert!(!str_lt("\u{e9}", "z"));
    assert!(str_lt("Zeb", "\u{c5}sa"));
    let songs = vec![song("\u{e9}", "m", "1"), song("z", "m", "2")];
    let albums = init_albums(&songs);
    let artists = init_artists(&songs, &albums);
    let names: Vec<&str> = artists.iter().map(|a| a.name.as_str()).collect();
    assert_eq!(names, vec!["z", "\u{e9}"]);
}

#[test]
fn insert_sorted_keeps_order_and_dedups() {
    let mut v: Vec<String> = Vec::new();
    for name in ["pear", "apple", "pear", "fig", "apple"] {
        insert_sorted(&mut v, &name.to_string());
    }
    assert_eq!(v, vec!["apple".to_string(), "fig".to_string(), "pear".to_string()]);
}
