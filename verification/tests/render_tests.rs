use rsmus::{
    clear_area, draw_box, fit_to_width, init_albums, init_artists, DrawCmd, FocusedPane, Pane,
    Song,
};

fn song(artist: &str, album: &str, title: &str) -> Song {
    Song {
        artist: artist.to_string(),
        album: album.to_string(),
        title: title.to_string(),
        path: format!("/m/{}", title),
        duration: None,
        track: 0,
        year: 0,
        genre: "Unknown".to_string(),
    }
}

#[test]
fn truncation_counts_characters_not_bytes() {
    assert_eq!(fit_to_width("hello", 5), "hello");
    assert_eq!(fit_to_width("hello!", 5), "hel..");
    assert_eq!(fit_to_width("", 2), "");
    // Five two-byte characters in a four-character budget: a byte-based
    // cut would split one of them.
    assert_eq!(fit_to_width("\u{e9}\u{e9}\u{e9}\u{e9}\u{e9}", 4), "\u{e9}\u{e9}..");
    assert_eq!(fit_to_width("ab", 2), "ab");
    assert_eq!(fit_to_width("abc", 2), "..");
}

#[test]
fn box_rows_frame_the_column() {
    let rows = draw_box(3, 1, (5, 4));
    assert_eq!(rows.len(), 3);
    let texts: Vec<(u16, u16, String, bool)> = rows
        .into_iter()
        .map(|c| match c {
            DrawCmd::Row { x, y, text, invert } => (x, y, text, invert),
            DrawCmd::Header { .. } => panic!("a box holds no header"),
        })
        .collect();
    assert_eq!(texts[0], (5, 4, "\u{250c}\u{2500}\u{2500}\u{2500}\u{2510}".to_string(), false));
    assert_eq!(texts[1], (5, 5, "\u{2502}   \u{2502}".to_string(), false));
    assert_eq!(texts[2], (5, 6, "\u{2514}\u{2500}\u{2500}\u{2500}\u{2518}".to_string(), false));
}

#[test]
fn clear_area_blanks_rows() {
    let rows = clear_area(4, 2, (1, 1));
    assert_eq!(rows.len(), 2);
    for (i, c) in rows.into_iter().enumerate() {
        match c {
            DrawCmd::Row { x, y, text, invert } => {
                assert_eq!(x, 1);
                assert_eq!(y as usize, 1 + i);
                assert_eq!(text, "    ");
                assert!(!invert);
            },
            DrawCmd::Header { .. } => panic!("a cleared area holds no header"),
        }
    }
}

#[test]
fn draw_highlights_only_the_focused_cursor_row() {
    let songs = vec![song("A", "X", "1"), song("B", "Y", "2")];
    let albums = init_albums(&songs);
    let artists = init_artists(&songs, &albums);
    let size = (60u16, 5u16);
    let pane = Pane::init_artist_pane(&artists, &songs, &albums, size);
    let cmds = pane.draw(&FocusedPane::Pane1, &albums);
    // Exactly one row is inverted: the artist pane's cursor row, showing
    // the first artist.
    let inverted: Vec<(u16, u16, String)> = cmds
        .iter()
        .filter_map(|c| match c {
            DrawCmd::Row { x, y, text, invert: true } => Some((*x, *y, text.clone())),
            _ => None,
        })
        .collect();
    assert_eq!(inverted.len(), 1);
    assert_eq!(inverted[0].0, 1);
    assert_eq!(inverted[0].1, 2);
    assert_eq!(inverted[0].2, "\u{2502}A");
    // The header of the track column names the bound album and artist.
    let headers: Vec<(String, Vec<String>)> = cmds
        .iter()
        .filter_map(|c| match c {
            DrawCmd::Header { title, artists, .. } => Some((title.clone(), artists.clone())),
            _ => None,
        })
        .collect();
    assert_eq!(headers.len(), 1);
    assert_eq!(headers[0].0, "X");
    assert_eq!(headers[0].1, vec!["A".to_string()]);
    // A track row is indented behind its boundary.
    assert!(cmds.iter().any(|c| match c {
        DrawCmd::Row { text, .. } => text == "\u{2502}    1",
        _ => false,
    }));
}

#[test]
fn draw_windows_long_lists() {
    let songs: Vec<Song> = (0..9).map(|i| song("solo", "one", &format!("t{}", i))).collect();
    let albums = init_albums(&songs);
    let artists = init_artists(&songs, &albums);
    let size = (60u16, 3u16);
    let mut pane = Pane::init_artist_pane(&artists, &songs, &albums, size);
    let focus = FocusedPane::Pane3;
    for _ in 0..5 {
        rsmus::move_down(&songs, &albums, size, &focus, &mut pane);
    }
    let cmds = pane.draw(&focus, &albums);
    // After five steps in a three-row viewport the window shows t3..t5
    // and the cursor sits on the last row.
    let track_rows: Vec<(String, bool)> = cmds
        .iter()
        .filter_map(|c| match c {
            DrawCmd::Row { text, invert, .. } => {
                if text.starts_with("\u{2502}    t") {
                    Some((text.clone(), *invert))
                } else {
                    None
                }
            },
            _ => None,
        })
        .collect();
    assert_eq!(
        track_rows,
        vec![
            ("\u{2502}    t3".to_string(), false),
            ("\u{2502}    t4".to_string(), false),
            ("\u{2502}    t5".to_string(), true),
        ]
    );
}
