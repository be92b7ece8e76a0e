//! The three-level pane chain: artist column, album column, track column.
//! Each pane owns its option list, a viewport offset (`reference`) and a
//! cursor within the viewport; any vertical move rebuilds every pane below
//! the moved one from the current selection, so no stale list can survive.
use vstd::prelude::*;

use crate::index::{
    Album, Artist, albums_wf, artist_album_titles, artist_names,
};
use crate::order::views_of;
use crate::song::Song;

verus! {

/// Which pane of the chain receives vertical navigation.
#[derive(Clone, Copy, Debug, PartialEq, Eq, Structural)]
pub enum FocusedPane {
    Pane1,
    Pane2,
    Pane3,
}

/// What a pane shows: a plain scrolling menu, or the album view with its
/// title/artist header.
#[derive(Clone, Copy, Debug, PartialEq, Eq, Structural)]
pub enum PaneType {
    MenuPane,
    AlbumPane,
}

/// One column of the navigation UI. `reference` is the index of the first
/// visible option, `cursor_pos` the selected row within the viewport, so
/// the selected option is `options[reference + cursor_pos]`.
pub struct Pane {
    pub options: Vec<String>,
    pub reference: usize,
    pub height: u16,
    pub width: u16,
    pub cursor_pos: usize,
    pub pos: (u16, u16),
    pub focus: FocusedPane,
    pub pane_type: PaneType,
    pub child_pane: Option<Box<Pane>>,
    pub album: Option<usize>,
}

/// Both terminal dimensions are at least one cell.
pub open spec fn size_ok(size: (u16, u16)) -> bool {
    size.0 >= 1 && size.1 >= 1
}

/// The farthest the viewport may scroll: all of the tail visible.
pub open spec fn max_reference(len: int, h: int) -> int {
    if len > h {
        len - h
    } else {
        0
    }
}

impl Pane {
    /// The cursor/viewport invariant of one pane: the cursor stays on
    /// screen, the selected index stays in range, and the viewport never
    /// scrolls past the tail. An empty pane sits at the origin.
    pub open spec fn wf(&self) -> bool {
        &&& self.height >= 1
        &&& if self.options@.len() == 0 {
            self.reference == 0 && self.cursor_pos == 0
        } else {
            &&& (self.cursor_pos as int) < self.height as int
            &&& self.reference + self.cursor_pos < self.options@.len()
            &&& self.reference as int <= max_reference(
                self.options@.len() as int,
                self.height as int,
            )
        }
    }

    /// The selected index.
    pub open spec fn selected(&self) -> int {
        self.reference + self.cursor_pos
    }

    /// The option texts.
    pub open spec fn option_views(&self) -> Seq<Seq<char>> {
        views_of(self.options@)
    }
}

/// The selected option's text, if the pane shows anything.
pub open spec fn selection_opt(p: Pane) -> Option<Seq<char>> {
    if p.options@.len() > 0 {
        Some(views_of(p.options@)[p.selected()])
    } else {
        None
    }
}

/// The two menu columns each take a fifth of the width.
pub open spec fn menu_geom(p: Pane, size: (u16, u16)) -> bool {
    &&& p.height == size.1
    &&& p.width == size.0 / 5
}

/// The track column takes what the two menu columns leave.
pub open spec fn track_geom(p: Pane, size: (u16, u16)) -> bool {
    &&& p.height == size.1
    &&& p.width as int == size.0 as int - 2 * (size.0 / 5) as int - 1
    &&& p.pos.0 as int == (size.0 / 5) as int * 2 + 2
    &&& p.pos.1 == 2u16
}

/// `i` is the position of the first album titled `t`.
pub open spec fn is_first_album_match(albums: Seq<Album>, t: Seq<char>, i: int) -> bool {
    &&& 0 <= i < albums.len()
    &&& albums[i].title@ == t
    &&& forall|j: int| 0 <= j < i ==> (#[trigger] albums[j]).title@ != t
}

/// No album carries the title `t`.
pub open spec fn no_album_match(albums: Seq<Album>, t: Seq<char>) -> bool {
    forall|j: int| 0 <= j < albums.len() ==> (#[trigger] albums[j]).title@ != t
}

/// The titles the track column shows for an album: its songs' titles in
/// the album's stored order.
pub open spec fn track_options(songs: Seq<Song>, a: Album) -> Seq<Seq<char>> {
    Seq::new(a.songs@.len(), |k: int| songs[a.songs@[k] as int]@.title)
}

/// A sound track pane for the selection `sel` of the album column: bound
/// to the first album of that title and showing its songs, or empty when
/// there is no such album or no selection.
pub open spec fn level3_ok(
    p: Pane,
    sel: Option<Seq<char>>,
    songs: Seq<Song>,
    albums: Seq<Album>,
    size: (u16, u16),
) -> bool {
    &&& p.wf()
    &&& p.pane_type == PaneType::AlbumPane
    &&& p.focus == FocusedPane::Pane3
    &&& p.child_pane is None
    &&& track_geom(p, size)
    &&& match sel {
        Some(t) => match p.album {
            Some(ai) => {
                &&& is_first_album_match(albums, t, ai as int)
                &&& views_of(p.options@) == track_options(songs, albums[ai as int])
            },
            None => no_album_match(albums, t) && p.options@.len() == 0,
        },
        None => p.album is None && p.options@.len() == 0,
    }
}

/// A sound album pane for the selection `sel` of the artist column: it
/// lists exactly the albums whose artist set holds the selected name, and
/// its own child is a sound track pane for its own selection.
pub open spec fn level2_ok(
    p: Pane,
    sel: Option<Seq<char>>,
    songs: Seq<Song>,
    albums: Seq<Album>,
    size: (u16, u16),
) -> bool {
    &&& p.wf()
    &&& p.pane_type == PaneType::MenuPane
    &&& p.focus == FocusedPane::Pane2
    &&& p.album is None
    &&& menu_geom(p, size)
    &&& p.pos.0 as int == (size.0 / 5) as int + 2
    &&& p.pos.1 == 2u16
    &&& match sel {
        Some(name) => views_of(p.options@) == artist_album_titles(albums, name),
        None => p.options@.len() == 0,
    }
    &&& match p.child_pane {
        Some(c3) => level3_ok(*c3, selection_opt(p), songs, albums, size),
        None => false,
    }
}

/// A sound artist pane, apart from what its options are: the root of a
/// chain whose every level matches the selection above it.
pub open spec fn level1_ok(p: Pane, songs: Seq<Song>, albums: Seq<Album>, size: (u16, u16)) -> bool {
    &&& p.wf()
    &&& p.pane_type == PaneType::MenuPane
    &&& p.focus == FocusedPane::Pane1
    &&& p.album is None
    &&& menu_geom(p, size)
    &&& p.pos == (1u16, 2u16)
    &&& match p.child_pane {
        Some(c2) => level2_ok(*c2, selection_opt(p), songs, albums, size),
        None => false,
    }
}

/// The full session invariant of the chain: a sound chain whose artist
/// column lists exactly the derived artists.
pub open spec fn chain_ok(
    p: Pane,
    artists: Seq<Artist>,
    songs: Seq<Song>,
    albums: Seq<Album>,
    size: (u16, u16),
) -> bool {
    &&& level1_ok(p, songs, albums, size)
    &&& views_of(p.options@) == artist_names(artists)
}

/// A freshly built track pane sits at the origin.
pub open spec fn fresh3(p: Pane) -> bool {
    p.reference == 0 && p.cursor_pos == 0
}

/// A freshly built album pane sits at the origin, its track child too.
pub open spec fn fresh2(p: Pane) -> bool {
    &&& p.reference == 0 && p.cursor_pos == 0
    &&& match p.child_pane {
        Some(c3) => fresh3(*c3),
        None => false,
    }
}

/// Where one `MoveDown` puts the viewport and cursor: an off-bottom
/// cursor first walks down the screen, then the viewport shifts; at the
/// very end nothing moves.
pub open spec fn down_pos(r: int, c: int, len: int, h: int) -> (int, int) {
    if r < len - h {
        if c < h - 1 {
            (r, c + 1)
        } else {
            (r + 1, c)
        }
    } else if c < h - 1 && c < len - 1 {
        (r, c + 1)
    } else {
        (r, c)
    }
}

/// Where one `MoveUp` puts the viewport and cursor: the mirror of
/// `down_pos`.
pub open spec fn up_pos(r: int, c: int) -> (int, int) {
    if r > 0 {
        if c > 0 {
            (r, c - 1)
        } else {
            (r - 1, c)
        }
    } else if c > 0 {
        (r, c - 1)
    } else {
        (r, c)
    }
}

/// Everything a vertical move leaves alone.
pub open spec fn same_frame(p0: Pane, p1: Pane) -> bool {
    &&& p1.options == p0.options
    &&& p1.height == p0.height
    &&& p1.width == p0.width
    &&& p1.pos == p0.pos
    &&& p1.focus == p0.focus
    &&& p1.pane_type == p0.pane_type
    &&& p1.album == p0.album
}

/// The pane below a moved pane has been discarded and rebuilt from the
/// new selection, cursor at the origin; a pane with no child keeps none.
pub open spec fn rebuilt_child(
    p0: Pane,
    p1: Pane,
    songs: Seq<Song>,
    albums: Seq<Album>,
    size: (u16, u16),
) -> bool {
    match p0.child_pane {
        None => p1.child_pane is None,
        Some(c) => {
            if c.pane_type == PaneType::MenuPane {
                match p1.child_pane {
                    Some(c2) => level2_ok(*c2, selection_opt(p1), songs, albums, size) && fresh2(
                        *c2,
                    ),
                    None => false,
                }
            } else {
                match p1.child_pane {
                    Some(c3) => level3_ok(*c3, selection_opt(p1), songs, albums, size) && fresh3(
                        *c3,
                    ),
                    None => false,
                }
            }
        },
    }
}

/// The whole effect of `move_down` on a pane.
pub open spec fn moved_down(
    p0: Pane,
    p1: Pane,
    songs: Seq<Song>,
    albums: Seq<Album>,
    size: (u16, u16),
) -> bool {
    &&& same_frame(p0, p1)
    &&& (p1.reference as int, p1.cursor_pos as int) == down_pos(
        p0.reference as int,
        p0.cursor_pos as int,
        p0.options@.len() as int,
        p0.height as int,
    )
    &&& p1.wf()
    &&& rebuilt_child(p0, p1, songs, albums, size)
}

/// The whole effect of `move_up` on a pane.
pub open spec fn moved_up(
    p0: Pane,
    p1: Pane,
    songs: Seq<Song>,
    albums: Seq<Album>,
    size: (u16, u16),
) -> bool {
    &&& same_frame(p0, p1)
    &&& (p1.reference as int, p1.cursor_pos as int) == up_pos(
        p0.reference as int,
        p0.cursor_pos as int,
    )
    &&& p1.wf()
    &&& rebuilt_child(p0, p1, songs, albums, size)
}

/// Where a resize puts the viewport and cursor: the selected index is
/// kept; the viewport moves only as far as the new height demands.
pub open spec fn clamp_pos(r: int, c: int, len: int, h: int) -> (int, int) {
    if len == 0 {
        (0, 0)
    } else if c < h && r <= max_reference(len, h) {
        (r, c)
    } else {
        let sel = r + c;
        let rr = if sel - (h - 1) > 0 {
            sel - (h - 1)
        } else {
            0
        };
        (rr, sel - rr)
    }
}

/// One pane after a resize: same content and kind, viewport clamped to
/// the new height.
pub open spec fn refitted(p0: Pane, p1: Pane, h: int) -> bool {
    &&& p1.options == p0.options
    &&& p1.focus == p0.focus
    &&& p1.pane_type == p0.pane_type
    &&& p1.album == p0.album
    &&& (p1.reference as int, p1.cursor_pos as int) == clamp_pos(
        p0.reference as int,
        p0.cursor_pos as int,
        p0.options@.len() as int,
        h,
    )
}

/// The whole effect of `resize` on a chain of up to three panes: every
/// level keeps its options and selection, takes the new column geometry,
/// and satisfies the viewport invariant again.
pub open spec fn resized3(p0: Pane, p1: Pane, size: (u16, u16)) -> bool {
    &&& refitted(p0, p1, size.1 as int)
    &&& p1.wf()
    &&& menu_geom(p1, size)
    &&& p1.pos == (1u16, 2u16)
    &&& match (p0.child_pane, p1.child_pane) {
        (Some(c0), Some(c1)) => {
            &&& refitted(*c0, *c1, size.1 as int)
            &&& c1.wf()
            &&& menu_geom(*c1, size)
            &&& c1.pos.0 as int == (size.0 / 5) as int + 2
            &&& c1.pos.1 == 2u16
            &&& match (c0.child_pane, c1.child_pane) {
                (Some(d0), Some(d1)) => {
                    &&& refitted(*d0, *d1, size.1 as int)
                    &&& d1.wf()
                    &&& track_geom(*d1, size)
                    &&& d1.child_pane is None
                },
                (None, None) => true,
                _ => false,
            }
        },
        (None, None) => true,
        _ => false,
    }
}

impl Pane {
    /// The position, if any, of the first album whose title is `t`.
    fn find_album_at(albums: &Vec<Album>, t: &str) -> (r: Option<usize>)
        ensures
            match r {
                Some(i) => is_first_album_match(albums@, t@, i as int),
                None => no_album_match(albums@, t@),
            },
    {
        let mut j: usize = 0;
        while j < albums.len()
            invariant
                j <= albums@.len(),
                forall|i: int| 0 <= i < j ==> (#[trigger] albums@[i]).title@ != t@,
            decreases albums@.len() - j,
        {
            if crate::order::str_eq(albums[j].title.as_str(), t) {
                return Some(j);
            }
            j += 1;
        }
        None
    }

    /// The track pane that belongs below an album column whose selected
    /// title is `album_title`: bound to the first album of that title and
    /// listing its songs' titles; empty when no album matches.
    fn init_album_view_pane(
        album_title: &str,
        songs: &Vec<Song>,
        albums: &Vec<Album>,
        size: (u16, u16),
    ) -> (p: Pane)
        requires
            size_ok(size),
            albums_wf(songs@, albums@),
        ensures
            level3_ok(p, Some(album_title@), songs@, albums@, size),
            fresh3(p),
    {
        proof {
            assert(2 * (size.0 / 5) as int + 1 <= size.0 as int) by (nonlinear_arith)
                requires
                    size.0 >= 1,
            ;
        }
        let width = size.0 - size.0 / 5 * 2 - 1;
        let x = size.0 / 5 * 2 + 2;
        let found = Self::find_album_at(albums, album_title);
        let mut options: Vec<String> = Vec::new();
        let mut album_idx: Option<usize> = None;
        match found {
            Some(ai) => {
                let a = &albums[ai];
                let mut k: usize = 0;
                while k < a.songs.len()
                    invariant
                        k <= a.songs@.len(),
                        albums_wf(songs@, albums@),
                        ai < albums@.len(),
                        a == albums@[ai as int],
                        views_of(options@) =~= track_options(songs@, *a).subrange(0, k as int),
                    decreases a.songs@.len() - k,
                {
                    let ghost old_opts = options@;
                    proof {
                        assert(views_of(old_opts).len() == old_opts.len());
                        assert(views_of(old_opts).len() == k as int);
                        assert(old_opts.len() == k as int);
                    }
                    options.push(songs[a.songs[k]].title.clone());
                    proof {
                        assert(options@ == old_opts.push(songs@[a.songs@[k as int] as int].title));
                        assert(views_of(options@).len() == k + 1);
                        assert(forall|i: int|
                            0 <= i < k ==> views_of(options@)[i] == views_of(old_opts)[i]);
                        assert(views_of(options@)[k as int] == songs@[a.songs@[k as int] as int].title@);
                        assert(track_options(songs@, *a)[k as int] == songs@[a.songs@[k as int] as int]@.title);
                        assert(views_of(options@) =~= track_options(songs@, *a).subrange(
                            0,
                            k + 1,
                        ));
                    }
                    k += 1;
                }
                proof {
                    assert(track_options(songs@, *a).subrange(
                        0,
                        a.songs@.len() as int,
                    ) =~= track_options(songs@, *a));
                }
                album_idx = Some(ai);
            },
            None => {},
        }
        Pane {
            options,
            reference: 0,
            height: size.1,
            width,
            cursor_pos: 0,
            pos: (x, 2),
            focus: FocusedPane::Pane3,
            pane_type: PaneType::AlbumPane,
            child_pane: None,
            album: album_idx,
        }
    }

    /// An empty track pane: what stands below an album column that shows
    /// nothing.
    fn empty_track_pane(size: (u16, u16)) -> (p: Pane)
        requires
            size_ok(size),
        ensures
            p.options@.len() == 0,
            p.album is None,
            p.wf(),
            p.pane_type == PaneType::AlbumPane,
            p.focus == FocusedPane::Pane3,
            p.child_pane is None,
            track_geom(p, size),
            fresh3(p),
    {
        proof {
            assert(2 * (size.0 / 5) as int + 1 <= size.0 as int) by (nonlinear_arith)
                requires
                    size.0 >= 1,
            ;
        }
        Pane {
            options: Vec::new(),
            reference: 0,
            height: size.1,
            width: size.0 - size.0 / 5 * 2 - 1,
            cursor_pos: 0,
            pos: (size.0 / 5 * 2 + 2, 2),
            focus: FocusedPane::Pane3,
            pane_type: PaneType::AlbumPane,
            child_pane: None,
            album: None,
        }
    }

    /// The album pane that belongs below an artist column whose selected
    /// name is `artist`: it lists that artist's albums and carries a
    /// fresh track pane for its first album.
    fn init_artist_album_pane(
        artist: &str,
        songs: &Vec<Song>,
        albums: &Vec<Album>,
        size: (u16, u16),
    ) -> (p: Pane)
        requires
            size_ok(size),
            albums_wf(songs@, albums@),
        ensures
            level2_ok(p, Some(artist@), songs@, albums@, size),
            fresh2(p),
    {
        let options = crate::index::album_titles_for_artist(albums, artist);
        let child: Pane;
        if options.len() > 0 {
            child = Self::init_album_view_pane(options[0].as_str(), songs, albums, size);
        } else {
            child = Self::empty_track_pane(size);
        }
        let p = Pane {
            options,
            reference: 0,
            height: size.1,
            width: size.0 / 5,
            cursor_pos: 0,
            pos: (size.0 / 5 + 2, 2),
            focus: FocusedPane::Pane2,
            pane_type: PaneType::MenuPane,
            child_pane: Some(Box::new(child)),
            album: None,
        };
        proof {
            if p.options@.len() > 0 {
                assert(selection_opt(p) == Some(views_of(p.options@)[0]));
            }
        }
        p
    }

    /// Build the whole chain for a derived index: the artist column lists
    /// every artist, and each level below shows what the selection above
    /// it asks for. Everything starts at the origin.
    pub fn init_artist_pane(
        artists: &Vec<Artist>,
        songs: &Vec<Song>,
        albums: &Vec<Album>,
        size: (u16, u16),
    ) -> (p: Pane)
        requires
            size_ok(size),
            albums_wf(songs@, albums@),
        ensures
            chain_ok(p, artists@, songs@, albums@, size),
            p.reference == 0 && p.cursor_pos == 0,
            match p.child_pane {
                Some(c2) => fresh2(*c2),
                None => false,
            },
    {
        let mut options: Vec<String> = Vec::new();
        let mut j: usize = 0;
        while j < artists.len()
            invariant
                j <= artists@.len(),
                views_of(options@) =~= artist_names(artists@).subrange(0, j as int),
            decreases artists@.len() - j,
        {
            let ghost old_opts = options@;
            proof {
                assert(views_of(old_opts).len() == old_opts.len());
                assert(views_of(old_opts).len() == j as int);
                assert(old_opts.len() == j as int);
            }
            options.push(artists[j].name.clone());
            proof {
                assert(options@ == old_opts.push(artists@[j as int].name));
                assert(views_of(options@).len() == j + 1);
                assert(forall|i: int|
                    0 <= i < j ==> views_of(options@)[i] == views_of(old_opts)[i]);
                assert(views_of(options@)[j as int] == artists@[j as int].name@);
                assert(views_of(options@) =~= artist_names(artists@).subrange(0, j + 1));
            }
            j += 1;
        }
        proof {
            assert(artist_names(artists@).subrange(0, artists@.len() as int) =~= artist_names(
                artists@,
            ));
        }
        let child: Pane;
        if options.len() > 0 {
            child = Self::init_artist_album_pane(options[0].as_str(), songs, albums, size);
        } else {
            child = Self::empty_menu_child(songs, albums, size);
        }
        let p = Pane {
            options,
            reference: 0,
            height: size.1,
            width: size.0 / 5,
            cursor_pos: 0,
            pos: (1, 2),
            focus: FocusedPane::Pane1,
            pane_type: PaneType::MenuPane,
            child_pane: Some(Box::new(child)),
            album: None,
        };
        proof {
            if p.options@.len() > 0 {
                assert(selection_opt(p) == Some(views_of(p.options@)[0]));
            }
        }
        p
    }

    /// An empty album pane with an empty track child: what stands below
    /// an artist column that shows nothing.
    fn empty_menu_child(songs: &Vec<Song>, albums: &Vec<Album>, size: (u16, u16)) -> (p: Pane)
        requires
            size_ok(size),
        ensures
            level2_ok(p, None, songs@, albums@, size),
            fresh2(p),
    {
        let child = Self::empty_track_pane(size);
        Pane {
            options: Vec::new(),
            reference: 0,
            height: size.1,
            width: size.0 / 5,
            cursor_pos: 0,
            pos: (size.0 / 5 + 2, 2),
            focus: FocusedPane::Pane2,
            pane_type: PaneType::MenuPane,
            child_pane: Some(Box::new(child)),
            album: None,
        }
    }

    /// The selected option of this pane.
    pub fn get_selected(&self) -> (r: &str)
        requires
            self.wf(),
            self.options@.len() > 0,
        ensures
            r@ == views_of(self.options@)[self.selected()],
    {
        let n = self.options.len();
        self.options[self.reference + self.cursor_pos].as_str()
    }

    /// The selected option of this pane's child.
    pub fn get_child_selected(&self) -> (r: &str)
        requires
            match self.child_pane {
                Some(c) => c.wf() && c.options@.len() > 0,
                None => false,
            },
        ensures
            match self.child_pane {
                Some(c) => r@ == views_of(c.options@)[c.selected()],
                None => false,
            },
    {
        match &self.child_pane {
            Some(c) => c.get_selected(),
            None => unreached(),
        }
    }

    /// Discard the child pane and rebuild it from this pane's current
    /// selection: the one mechanism that keeps every level consistent
    /// with the level above it.
    pub fn reset_child(&mut self, songs: &Vec<Song>, albums: &Vec<Album>, size: (u16, u16))
        requires
            old(self).wf(),
            albums_wf(songs@, albums@),
            size_ok(size),
        ensures
            same_frame(*old(self), *final(self)),
            final(self).reference == old(self).reference,
            final(self).cursor_pos == old(self).cursor_pos,
            rebuilt_child(*old(self), *final(self), songs@, albums@, size),
    {
        let child_is_menu: bool;
        match &self.child_pane {
            None => {
                return ;
            },
            Some(c) => {
                child_is_menu = c.pane_type == PaneType::MenuPane;
            },
        }
        if self.options.len() > 0 {
            let sel = self.reference + self.cursor_pos;
            if child_is_menu {
                let c = Self::init_artist_album_pane(
                    self.options[sel].as_str(),
                    songs,
                    albums,
                    size,
                );
                self.child_pane = Some(Box::new(c));
            } else {
                let c = Self::init_album_view_pane(self.options[sel].as_str(), songs, albums, size);
                self.child_pane = Some(Box::new(c));
            }
        } else {
            if child_is_menu {
                let c = Self::empty_menu_child(songs, albums, size);
                self.child_pane = Some(Box::new(c));
            } else {
                let c = Self::empty_track_pane(size);
                self.child_pane = Some(Box::new(c));
            }
        }
    }

    /// One step down: walk the cursor, then the viewport, then stop; and
    /// rebuild the pane below from the new selection.
    pub fn move_down(&mut self, songs: &Vec<Song>, albums: &Vec<Album>, size: (u16, u16))
        requires
            old(self).wf(),
            albums_wf(songs@, albums@),
            size_ok(size),
        ensures
            moved_down(*old(self), *final(self), songs@, albums@, size),
    {
        let len = self.options.len();
        let h = self.height as usize;
        if len > h && self.reference < len - h {
            if self.cursor_pos < h - 1 {
                self.cursor_pos = self.cursor_pos + 1;
            } else {
                self.reference = self.reference + 1;
            }
        } else if len > 0 && self.cursor_pos < h - 1 && self.cursor_pos < len - 1 {
            self.cursor_pos = self.cursor_pos + 1;
        }
        self.reset_child(songs, albums, size);
    }

    /// One step up: the mirror of `move_down`, with the same cascading
    /// rebuild.
    pub fn move_up(&mut self, songs: &Vec<Song>, albums: &Vec<Album>, size: (u16, u16))
        requires
            old(self).wf(),
            albums_wf(songs@, albums@),
            size_ok(size),
        ensures
            moved_up(*old(self), *final(self), songs@, albums@, size),
    {
        if self.reference > 0 {
            if self.cursor_pos > 0 {
                self.cursor_pos = self.cursor_pos - 1;
            } else {
                self.reference = self.reference - 1;
            }
        } else if self.cursor_pos > 0 {
            self.cursor_pos = self.cursor_pos - 1;
        }
        self.reset_child(songs, albums, size);
    }

    /// Apply `move_down` to the child pane, if there is one.
    pub fn move_child_down(&mut self, songs: &Vec<Song>, albums: &Vec<Album>, size: (u16, u16))
        requires
            match old(self).child_pane {
                Some(c) => c.wf(),
                None => true,
            },
            albums_wf(songs@, albums@),
            size_ok(size),
        ensures
            same_frame(*old(self), *final(self)),
            final(self).reference == old(self).reference,
            final(self).cursor_pos == old(self).cursor_pos,
            match old(self).child_pane {
                Some(c) => match final(self).child_pane {
                    Some(c1) => moved_down(*c, *c1, songs@, albums@, size),
                    None => false,
                },
                None => final(self).child_pane == old(self).child_pane,
            },
    {
        match &mut self.child_pane {
            Some(pane) => pane.move_down(songs, albums, size),
            None => {},
        }
    }

    /// Clamp one viewport/cursor pair to a new height.
    fn clamp_pair(r: usize, c: usize, len: usize, h: u16) -> (rc: (usize, usize))
        requires
            h >= 1,
            len == 0 ==> r == 0 && c == 0,
            len > 0 ==> r + c < len,
        ensures
            (rc.0 as int, rc.1 as int) == clamp_pos(r as int, c as int, len as int, h as int),
            len == 0 ==> rc.0 == 0 && rc.1 == 0,
            len > 0 ==> rc.0 + rc.1 == r + c,
            len > 0 ==> (rc.1 as int) < h as int && rc.0 + rc.1 < len && rc.0 as int
                <= max_reference(len as int, h as int),
    {
        if len == 0 {
            return (0, 0);
        }
        let hh = h as usize;
        let fits: bool = if len > hh {
            r <= len - hh
        } else {
            r == 0
        };
        if c < hh && fits {
            (r, c)
        } else {
            let sel = r + c;
            let rr = if sel + 1 > hh {
                sel + 1 - hh
            } else {
                0
            };
            (rr, sel - rr)
        }
    }

    /// Recompute every pane's geometry for a new terminal size and clamp
    /// every viewport against the new height; options and selections are
    /// untouched. The column shares are fixed: a fifth each for the two
    /// menu columns, the rest for the track column.
    pub fn resize(&mut self, size: (u16, u16))
        requires
            size_ok(size),
            old(self).wf(),
            match old(self).child_pane {
                Some(c2) => c2.wf() && match c2.child_pane {
                    Some(c3) => c3.wf(),
                    None => true,
                },
                None => true,
            },
        ensures
            resized3(*old(self), *final(self), size),
    {
        proof {
            assert(2 * (size.0 / 5) as int + 1 <= size.0 as int) by (nonlinear_arith)
                requires
                    size.0 >= 1,
            ;
        }
        self.height = size.1;
        self.width = size.0 / 5;
        self.pos = (1, 2);
        let n = self.options.len();
        let rc = Self::clamp_pair(self.reference, self.cursor_pos, n, size.1);
        self.reference = rc.0;
        self.cursor_pos = rc.1;
        let child = self.child_pane.take();
        match child {
            Some(boxed) => {
                let mut c2: Pane = *boxed;
                c2.height = size.1;
                c2.width = size.0 / 5;
                c2.pos = (size.0 / 5 + 2, 2);
                let n2 = c2.options.len();
                let rc2 = Self::clamp_pair(c2.reference, c2.cursor_pos, n2, size.1);
                c2.reference = rc2.0;
                c2.cursor_pos = rc2.1;
                let grand = c2.child_pane.take();
                match grand {
                    Some(boxed3) => {
                        let mut c3: Pane = *boxed3;
                        c3.height = size.1;
                        c3.width = size.0 - size.0 / 5 * 2 - 1;
                        c3.pos = (size.0 / 5 * 2 + 2, 2);
                        let n3 = c3.options.len();
                        let rc3 = Self::clamp_pair(c3.reference, c3.cursor_pos, n3, size.1);
                        c3.reference = rc3.0;
                        c3.cursor_pos = rc3.1;
                        c3.child_pane = None;
                        c2.child_pane = Some(Box::new(c3));
                    },
                    None => {},
                }
                self.child_pane = Some(Box::new(c2));
            },
            None => {},
        }
    }

    /// Apply `move_up` to the child pane, if there is one.
    pub fn move_child_up(&mut self, songs: &Vec<Song>, albums: &Vec<Album>, size: (u16, u16))
        requires
            match old(self).child_pane {
                Some(c) => c.wf(),
                None => true,
            },
            albums_wf(songs@, albums@),
            size_ok(size),
        ensures
            same_frame(*old(self), *final(self)),
            final(self).reference == old(self).reference,
            final(self).cursor_pos == old(self).cursor_pos,
            match old(self).child_pane {
                Some(c) => match final(self).child_pane {
                    Some(c1) => moved_up(*c, *c1, songs@, albums@, size),
                    None => false,
                },
                None => final(self).child_pane == old(self).child_pane,
            },
    {
        match &mut self.child_pane {
            Some(pane) => pane.move_up(songs, albums, size),
            None => {},
        }
    }
}

/// On a freshly built pane — viewport and cursor at the origin — one
/// `MoveDown` followed by one `MoveUp` restores the origin, for every
/// option count and every viewport height of at least one row.
pub proof fn lemma_down_up_restores(len: int, h: int)
    requires
        h >= 1,
        len >= 0,
    ensures
        up_pos(down_pos(0, 0, len, h).0, down_pos(0, 0, len, h).1) == (0int, 0int),
{
}

/// A `MoveDown` of the artist pane keeps the whole chain sound: in
/// particular, the album column afterwards lists exactly the albums of
/// the newly selected artist.
pub proof fn lemma_move_down_keeps_chain(
    p0: Pane,
    p1: Pane,
    artists: Seq<Artist>,
    songs: Seq<Song>,
    albums: Seq<Album>,
    size: (u16, u16),
)
    requires
        chain_ok(p0, artists, songs, albums, size),
        moved_down(p0, p1, songs, albums, size),
    ensures
        chain_ok(p1, artists, songs, albums, size),
{
}

/// A `MoveUp` of the artist pane keeps the whole chain sound, the same
/// way.
pub proof fn lemma_move_up_keeps_chain(
    p0: Pane,
    p1: Pane,
    artists: Seq<Artist>,
    songs: Seq<Song>,
    albums: Seq<Album>,
    size: (u16, u16),
)
    requires
        chain_ok(p0, artists, songs, albums, size),
        moved_up(p0, p1, songs, albums, size),
    ensures
        chain_ok(p1, artists, songs, albums, size),
{
}

/// A vertical move of the album column — through `move_child_down` or
/// `move_child_up` on the artist pane — keeps the whole chain sound.
pub proof fn lemma_child_move_keeps_chain(
    p0: Pane,
    p1: Pane,
    c0: Pane,
    c1: Pane,
    artists: Seq<Artist>,
    songs: Seq<Song>,
    albums: Seq<Album>,
    size: (u16, u16),
)
    requires
        chain_ok(p0, artists, songs, albums, size),
        same_frame(p0, p1),
        p1.reference == p0.reference,
        p1.cursor_pos == p0.cursor_pos,
        match p0.child_pane {
            Some(b) => *b == c0,
            None => false,
        },
        match p1.child_pane {
            Some(b) => *b == c1,
            None => false,
        },
        moved_down(c0, c1, songs, albums, size) || moved_up(c0, c1, songs, albums, size),
    ensures
        chain_ok(p1, artists, songs, albums, size),
{
    assert(selection_opt(p1) == selection_opt(p0));
}

/// A resize keeps the whole chain sound: every selection survives, every
/// pane's viewport lands back inside its new bounds, and every column
/// still lists what the selection above it asks for.
pub proof fn lemma_resize_keeps_chain(
    p0: Pane,
    p1: Pane,
    artists: Seq<Artist>,
    songs: Seq<Song>,
    albums: Seq<Album>,
    size0: (u16, u16),
    size1: (u16, u16),
)
    requires
        chain_ok(p0, artists, songs, albums, size0),
        resized3(p0, p1, size1),
    ensures
        chain_ok(p1, artists, songs, albums, size1),
{
    assert(selection_opt(p1) == selection_opt(p0));
    match (p0.child_pane, p1.child_pane) {
        (Some(c0), Some(c1)) => {
            assert(selection_opt(*c1) == selection_opt(*c0));
        },
        _ => {},
    }
}

} // verus!
