//! Session-level navigation: which pane holds the focus, how vertical
//! moves reach it through the chain, and how an activated track resolves
//! to a song.
use vstd::prelude::*;

use crate::index::{Album, albums_wf};
use crate::pane::{
    FocusedPane, Pane, level1_ok, moved_down, moved_up, same_frame, size_ok,
};
use crate::order::views_of;
use crate::song::Song;

verus! {

/// Which full-screen view is active. Only the artist/album browser is
/// implemented; the search view is a placeholder state.
#[derive(Clone, Copy, Debug, PartialEq, Eq, Structural)]
pub enum UiState {
    AlbumArtistView,
    SearchView,
}

/// Focus one pane to the right, saturating at the track pane.
pub fn move_right(focused_pane: &FocusedPane) -> (r: FocusedPane)
    ensures
        r == (match *focused_pane {
            FocusedPane::Pane1 => FocusedPane::Pane2,
            FocusedPane::Pane2 => FocusedPane::Pane3,
            FocusedPane::Pane3 => FocusedPane::Pane3,
        }),
{
    match focused_pane {
        FocusedPane::Pane1 => FocusedPane::Pane2,
        FocusedPane::Pane2 => FocusedPane::Pane3,
        FocusedPane::Pane3 => FocusedPane::Pane3,
    }
}

/// Focus one pane to the left, saturating at the artist pane.
pub fn move_left(focused_pane: &FocusedPane) -> (r: FocusedPane)
    ensures
        r == (match *focused_pane {
            FocusedPane::Pane1 => FocusedPane::Pane1,
            FocusedPane::Pane2 => FocusedPane::Pane1,
            FocusedPane::Pane3 => FocusedPane::Pane2,
        }),
{
    match focused_pane {
        FocusedPane::Pane1 => FocusedPane::Pane1,
        FocusedPane::Pane2 => FocusedPane::Pane1,
        FocusedPane::Pane3 => FocusedPane::Pane2,
    }
}

/// What one vertical move leaves of the chain when the focus sits at the
/// given level: the focused pane has moved by `down`, every pane above it
/// is untouched, every pane below it is freshly rebuilt (that is part of
/// the moved relation itself).
pub open spec fn chain_step(
    p0: Pane,
    p1: Pane,
    focus: FocusedPane,
    down: bool,
    songs: Seq<Song>,
    albums: Seq<Album>,
    size: (u16, u16),
) -> bool {
    match focus {
        FocusedPane::Pane1 => if down {
            moved_down(p0, p1, songs, albums, size)
        } else {
            moved_up(p0, p1, songs, albums, size)
        },
        FocusedPane::Pane2 => {
            &&& same_frame(p0, p1)
            &&& p1.reference == p0.reference
            &&& p1.cursor_pos == p0.cursor_pos
            &&& match (p0.child_pane, p1.child_pane) {
                (Some(c0), Some(c1)) => if down {
                    moved_down(*c0, *c1, songs, albums, size)
                } else {
                    moved_up(*c0, *c1, songs, albums, size)
                },
                (None, None) => true,
                _ => false,
            }
        },
        FocusedPane::Pane3 => {
            &&& same_frame(p0, p1)
            &&& p1.reference == p0.reference
            &&& p1.cursor_pos == p0.cursor_pos
            &&& match (p0.child_pane, p1.child_pane) {
                (Some(c0), Some(c1)) => {
                    &&& same_frame(*c0, *c1)
                    &&& c1.reference == c0.reference
                    &&& c1.cursor_pos == c0.cursor_pos
                    &&& match (c0.child_pane, c1.child_pane) {
                        (Some(d0), Some(d1)) => if down {
                            moved_down(*d0, *d1, songs, albums, size)
                        } else {
                            moved_up(*d0, *d1, songs, albums, size)
                        },
                        (None, None) => true,
                        _ => false,
                    }
                },
                (None, None) => true,
                _ => false,
            }
        },
    }
}

/// Move the focused pane one step down and rebuild everything below it;
/// the chain stays sound and the artist list is untouched.
pub fn move_down(
    songs: &Vec<Song>,
    albums: &Vec<Album>,
    size: (u16, u16),
    focused_pane: &FocusedPane,
    root_pane: &mut Pane,
)
    requires
        level1_ok(*old(root_pane), songs@, albums@, size),
        albums_wf(songs@, albums@),
        size_ok(size),
    ensures
        level1_ok(*final(root_pane), songs@, albums@, size),
        final(root_pane).options == old(root_pane).options,
        chain_step(*old(root_pane), *final(root_pane), *focused_pane, true, songs@, albums@, size),
{
    match focused_pane {
        FocusedPane::Pane1 => {
            root_pane.move_down(songs, albums, size);
        },
        FocusedPane::Pane2 => {
            root_pane.move_child_down(songs, albums, size);
            proof {
                assert(crate::pane::selection_opt(*root_pane) == crate::pane::selection_opt(
                    *old(root_pane),
                ));
            }
        },
        FocusedPane::Pane3 => {
            match &mut root_pane.child_pane {
                Some(pane) => pane.move_child_down(songs, albums, size),
                None => {},
            }
            proof {
                assert(crate::pane::selection_opt(*root_pane) == crate::pane::selection_opt(
                    *old(root_pane),
                ));
            }
        },
    }
}

/// Move the focused pane one step up and rebuild everything below it;
/// the chain stays sound and the artist list is untouched.
pub fn move_up(
    songs: &Vec<Song>,
    albums: &Vec<Album>,
    size: (u16, u16),
    focused_pane: &FocusedPane,
    root_pane: &mut Pane,
)
    requires
        level1_ok(*old(root_pane), songs@, albums@, size),
        albums_wf(songs@, albums@),
        size_ok(size),
    ensures
        level1_ok(*final(root_pane), songs@, albums@, size),
        final(root_pane).options == old(root_pane).options,
        chain_step(*old(root_pane), *final(root_pane), *focused_pane, false, songs@, albums@, size),
{
    match focused_pane {
        FocusedPane::Pane1 => {
            root_pane.move_up(songs, albums, size);
        },
        FocusedPane::Pane2 => {
            root_pane.move_child_up(songs, albums, size);
            proof {
                assert(crate::pane::selection_opt(*root_pane) == crate::pane::selection_opt(
                    *old(root_pane),
                ));
            }
        },
        FocusedPane::Pane3 => {
            match &mut root_pane.child_pane {
                Some(pane) => pane.move_child_up(songs, albums, size),
                None => {},
            }
            proof {
                assert(crate::pane::selection_opt(*root_pane) == crate::pane::selection_opt(
                    *old(root_pane),
                ));
            }
        },
    }
}

/// The focused pane can answer for its selection: it exists in the chain
/// and shows at least one option.
pub open spec fn can_select(focused_pane: FocusedPane, root_pane: Pane) -> bool {
    match focused_pane {
        FocusedPane::Pane1 => root_pane.wf() && root_pane.options@.len() > 0,
        FocusedPane::Pane2 => match root_pane.child_pane {
            Some(c) => c.wf() && c.options@.len() > 0,
            None => false,
        },
        FocusedPane::Pane3 => match root_pane.child_pane {
            Some(c) => match c.child_pane {
                Some(d) => d.wf() && d.options@.len() > 0,
                None => false,
            },
            None => false,
        },
    }
}

/// The focused pane's selected option.
pub open spec fn spec_selected(focused_pane: FocusedPane, root_pane: Pane) -> Seq<char> {
    match focused_pane {
        FocusedPane::Pane1 => views_of(root_pane.options@)[root_pane.selected()],
        FocusedPane::Pane2 => match root_pane.child_pane {
            Some(c) => views_of(c.options@)[c.selected()],
            None => Seq::empty(),
        },
        FocusedPane::Pane3 => match root_pane.child_pane {
            Some(c) => match c.child_pane {
                Some(d) => views_of(d.options@)[d.selected()],
                None => Seq::empty(),
            },
            None => Seq::empty(),
        },
    }
}

/// The selected option of whichever pane holds the focus.
pub fn get_selected<'a>(focused_pane: &FocusedPane, root_pane: &'a Pane) -> (r: &'a str)
    requires
        can_select(*focused_pane, *root_pane),
    ensures
        r@ == spec_selected(*focused_pane, *root_pane),
{
    match focused_pane {
        FocusedPane::Pane1 => root_pane.get_selected(),
        FocusedPane::Pane2 => root_pane.get_child_selected(),
        FocusedPane::Pane3 => match &root_pane.child_pane {
            Some(pane) => pane.get_child_selected(),
            None => unreached(),
        },
    }
}

/// `i` is the position of the first song titled `t`.
pub open spec fn is_first_song_match(songs: Seq<Song>, t: Seq<char>, i: int) -> bool {
    &&& 0 <= i < songs.len()
    &&& songs[i]@.title == t
    &&& forall|j: int| 0 <= j < i ==> (#[trigger] songs[j])@.title != t
}

/// No song carries the title `t`.
pub open spec fn no_song_match(songs: Seq<Song>, t: Seq<char>) -> bool {
    forall|j: int| 0 <= j < songs.len() ==> (#[trigger] songs[j])@.title != t
}

/// Resolve an activated track title to a song: the first song of that
/// title, if any. Duplicate titles across albums resolve to the first
/// match; a missing title resolves to nothing rather than failing.
pub fn resolve_song(songs: &Vec<Song>, title: &str) -> (r: Option<usize>)
    ensures
        match r {
            Some(i) => is_first_song_match(songs@, title@, i as int),
            None => no_song_match(songs@, title@),
        },
{
    let mut j: usize = 0;
    while j < songs.len()
        invariant
            j <= songs@.len(),
            forall|i: int| 0 <= i < j ==> (#[trigger] songs@[i])@.title != title@,
        decreases songs@.len() - j,
    {
        if crate::order::str_eq(songs[j].title.as_str(), title) {
            return Some(j);
        }
        j += 1;
    }
    None
}

} // verus!
