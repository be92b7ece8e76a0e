use rsmus::{
    init_albums, init_artists, move_down, move_left, move_right, move_up, resolve_song,
    get_selected, FocusedPane, Pane, Song,
};

fn song(artist: &str, album: &str, title: &str) -> Song {
    Song {
        artist: artist.to_string(),
        album: album.to_string(),
        title: title.to_string(),
        path: format!("/music/{}.flac", title),
        duration: None,
        track: 0,
        year: 0,
        genre: "Unknown".to_string(),
    }
}

fn many_titles(n: usize) -> Vec<Song> {
    (0..n).map(|i| song("solo", "one", &format!("t{:02}", i))).collect()
}

#[test]
fn focus_moves_saturate() {
    assert!(matches!(move_right(&FocusedPane::Pane1), FocusedPane::Pane2));
    assert!(matches!(move_right(&FocusedPane::Pane2), FocusedPane::Pane3));
    assert!(matches!(move_right(&FocusedPane::Pane3), FocusedPane::Pane3));
    assert!(matches!(move_left(&FocusedPane::Pane3), FocusedPane::Pane2));
    assert!(matches!(move_left(&FocusedPane::Pane2), FocusedPane::Pane1));
    assert!(matches!(move_left(&FocusedPane::Pane1), FocusedPane::Pane1));
}

#[test]
fn down_then_up_restores_fresh_pane() {
    // Any option count, any height: one step down then one step up puts
    // a freshly built pane back at the origin.
    for n in [0usize, 1, 2, 3, 7] {
        for h in [1u16, 2, 3, 10] {
            let songs = many_titles(n);
            let albums = init_albums(&songs);
            let artists = init_artists(&songs, &albums);
            let size = (40u16, h);
            let mut pane = Pane::init_artist_pane(&artists, &songs, &albums, size);
            // All titles share one artist, so walk the track pane, which
            // holds n options.
            let focus = FocusedPane::Pane3;
            move_down(&songs, &albums, size, &focus, &mut pane);
            move_up(&songs, &albums, size, &focus, &mut pane);
            let track = pane.child_pane.as_ref().unwrap().child_pane.as_ref().unwrap();
            assert_eq!(track.reference, 0, "n={} h={}", n, h);
            assert_eq!(track.cursor_pos, 0, "n={} h={}", n, h);
        }
    }
}

#[test]
fn scrolling_walks_cursor_then_viewport() {
    let songs = many_titles(5);
    let albums = init_albums(&songs);
    let artists = init_artists(&songs, &albums);
    let size = (40u16, 2u16);
    let mut pane = Pane::init_artist_pane(&artists, &songs, &albums, size);
    let focus = FocusedPane::Pane3;
    let mut seen = Vec::new();
    for _ in 0..6 {
        move_down(&songs, &albums, size, &focus, &mut pane);
        let track = pane.child_pane.as_ref().unwrap().child_pane.as_ref().unwrap();
        seen.push((track.reference, track.cursor_pos));
    }
    // Five options in a two-row viewport: the cursor walks one row, then
    // the viewport shifts to its limit, then nothing moves.
    assert_eq!(seen, vec![(0, 1), (1, 1), (2, 1), (3, 1), (3, 1), (3, 1)]);
    for back in [(3, 0), (2, 0), (1, 0), (0, 0), (0, 0)] {
        move_up(&songs, &albums, size, &focus, &mut pane);
        let track = pane.child_pane.as_ref().unwrap().child_pane.as_ref().unwrap();
        assert_eq!((track.reference, track.cursor_pos), back);
    }
}

#[test]
fn empty_library_never_panics() {
    let songs: Vec<Song> = Vec::new();
    let albums = init_albums(&songs);
    let artists = init_artists(&songs, &albums);
    let size = (40u16, 5u16);
    let mut pane = Pane::init_artist_pane(&artists, &songs, &albums, size);
    for focus in [FocusedPane::Pane1, FocusedPane::Pane2, FocusedPane::Pane3] {
        move_down(&songs, &albums, size, &focus, &mut pane);
        move_up(&songs, &albums, size, &focus, &mut pane);
    }
    assert_eq!(pane.options.len(), 0);
    assert_eq!(pane.reference, 0);
    assert_eq!(pane.cursor_pos, 0);
}

#[test]
fn cascade_rebuilds_album_column() {
    // After a move in the artist column, the album column lists exactly
    // the selected artist's albums.
    let songs = vec![
        song("A", "X", "1"),
        song("A", "X", "2"),
        song("B", "Y", "3"),
        song("B", "Z", "4"),
    ];
    let albums = init_albums(&songs);
    let artists = init_artists(&songs, &albums);
    let size = (50u16, 10u16);
    let mut pane = Pane::init_artist_pane(&artists, &songs, &albums, size);
    assert_eq!(pane.options, vec!["A".to_string(), "B".to_string()]);
    assert_eq!(pane.child_pane.as_ref().unwrap().options, vec!["X".to_string()]);
    move_down(&songs, &albums, size, &FocusedPane::Pane1, &mut pane);
    let level2 = pane.child_pane.as_ref().unwrap();
    assert_eq!(level2.options, vec!["Y".to_string(), "Z".to_string()]);
    assert_eq!(level2.reference, 0);
    assert_eq!(level2.cursor_pos, 0);
    let level3 = level2.child_pane.as_ref().unwrap();
    assert_eq!(level3.options, vec!["3".to_string()]);
}

#[test]
fn select_artist_then_activate_track() {
    // The end-to-end walk: artists [A, B] and albums [X, Y]; selecting B
    // and activating its sole track resolves the song titled "3".
    let songs = vec![song("A", "X", "1"), song("A", "X", "2"), song("B", "Y", "3")];
    let albums = init_albums(&songs);
    let artists = init_artists(&songs, &albums);
    assert_eq!(artists.iter().map(|a| a.name.clone()).collect::<Vec<_>>(), vec!["A", "B"]);
    assert_eq!(albums.iter().map(|a| a.title.clone()).collect::<Vec<_>>(), vec!["X", "Y"]);
    let size = (60u16, 10u16);
    let mut pane = Pane::init_artist_pane(&artists, &songs, &albums, size);
    let mut focus = FocusedPane::Pane1;
    move_down(&songs, &albums, size, &focus, &mut pane);
    focus = move_right(&focus);
    focus = move_right(&focus);
    let title = get_selected(&focus, &pane).to_string();
    assert_eq!(title, "3");
    let idx = resolve_song(&songs, &title).unwrap();
    assert_eq!(songs[idx].title, "3");
    assert_eq!(songs[idx].path, "/music/3.flac");
}

#[test]
fn resolve_song_takes_first_match_or_nothing() {
    let songs = vec![song("A", "X", "same"), song("B", "Y", "same")];
    assert_eq!(resolve_song(&songs, "same"), Some(0));
    assert_eq!(resolve_song(&songs, "missing"), None);
}

fn assert_pane_invariant(p: &Pane) {
    assert!(p.height >= 1);
    if p.options.is_empty() {
        assert_eq!((p.reference, p.cursor_pos), (0, 0));
    } else {
        assert!(p.cursor_pos < p.height as usize);
        assert!(p.reference + p.cursor_pos < p.options.len());
        let max_ref = p.options.len().saturating_sub(p.height as usize);
        assert!(p.reference <= max_ref);
    }
    if let Some(c) = &p.child_pane {
        assert_pane_invariant(c);
    }
}

#[test]
fn long_command_sequence_keeps_all_invariants() {
    let songs = vec![
        song("A", "X", "1"),
        song("A", "X", "2"),
        song("A", "W", "5"),
        song("B", "Y", "3"),
        song("B", "Z", "4"),
        song("C", "V", "6"),
    ];
    let albums = init_albums(&songs);
    let artists = init_artists(&songs, &albums);
    let mut size = (40u16, 3u16);
    let mut pane = Pane::init_artist_pane(&artists, &songs, &albums, size);
    let mut focus = FocusedPane::Pane1;
    let script = "jjlkjjlljkjhkkjjlljjkhhjkjlkk";
    for (step, c) in script.chars().enumerate() {
        match c {
            'j' => move_down(&songs, &albums, size, &focus, &mut pane),
            'k' => move_up(&songs, &albums, size, &focus, &mut pane),
            'l' => focus = move_right(&focus),
            'h' => focus = move_left(&focus),
            _ => unreachable!(),
        }
        if step == 10 {
            size = (25u16, 2u16);
            pane.resize(size);
        }
        if step == 20 {
            size = (60u16, 8u16);
            pane.resize(size);
        }
        assert_pane_invariant(&pane);
        // The cascade guarantee: the album column always lists exactly
        // the selected artist's albums.
        let selected_artist = &pane.options[pane.reference + pane.cursor_pos];
        let artist = artists.iter().find(|a| &a.name == selected_artist).unwrap();
        let expected: Vec<String> =
            artist.albums.iter().map(|&ai| albums[ai].title.clone()).collect();
        assert_eq!(pane.child_pane.as_ref().unwrap().options, expected);
    }
}

#[test]
fn resize_reclamps_every_pane() {
    let songs = many_titles(10);
    let albums = init_albums(&songs);
    let artists = init_artists(&songs, &albums);
    let size = (50u16, 5u16);
    let mut pane = Pane::init_artist_pane(&artists, &songs, &albums, size);
    let focus = FocusedPane::Pane3;
    for _ in 0..8 {
        move_down(&songs, &albums, size, &focus, &mut pane);
    }
    {
        let track = pane.child_pane.as_ref().unwrap().child_pane.as_ref().unwrap();
        assert_eq!((track.reference, track.cursor_pos), (4, 4));
    }
    // Shrink hard: every viewport must fit the new height and the
    // selected index must survive.
    let small = (10u16, 2u16);
    pane.resize(small);
    assert_eq!(pane.height, 2);
    assert_eq!(pane.width, 2);
    let level2 = pane.child_pane.as_ref().unwrap();
    assert_eq!(level2.height, 2);
    let track = level2.child_pane.as_ref().unwrap();
    assert_eq!(track.height, 2);
    assert_eq!(track.reference + track.cursor_pos, 8);
    assert!(track.cursor_pos < 2);
    assert!(track.reference <= 10 - 2);
    // And growing back also keeps the selection.
    pane.resize((50u16, 20u16));
    let track = pane.child_pane.as_ref().unwrap().child_pane.as_ref().unwrap();
    assert_eq!(track.reference + track.cursor_pos, 8);
    assert!(track.cursor_pos < 20);
}
