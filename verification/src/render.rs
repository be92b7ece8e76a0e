//! The render projection: the pane chain and the focus, turned into a
//! list of drawing instructions for the terminal shell to execute. The
//! projection reads the chain and never changes it; the windowing, the
//! character-safe truncation and the highlight decision all happen here.
use vstd::prelude::*;

use crate::index::Album;
use crate::order::views_of;
use crate::pane::{FocusedPane, Pane, PaneType};

verus! {

/// One drawing instruction. A `Row` is one line of text put at a screen
/// position, inverted when it is the selected row of the focused pane; a
/// `Header` is the album view's two-line heading.
pub enum DrawCmd {
    Row { x: u16, y: u16, text: String, invert: bool },
    Header { x: u16, y: u16, title: String, artists: Vec<String> },
}

/// `n` copies of one character.
pub open spec fn repeat_char(c: char, n: int) -> Seq<char>
    decreases n,
{
    if n <= 0 {
        Seq::empty()
    } else {
        repeat_char(c, n - 1).push(c)
    }
}

/// One line of the box border: the top edge, a cleared interior line, or
/// the bottom edge.
pub open spec fn box_row_text(width: int, height: int, i: int) -> Seq<char> {
    if i == 0 {
        seq!['\u{250c}'] + repeat_char('\u{2500}', width) + seq!['\u{2510}']
    } else if i <= height {
        seq!['\u{2502}'] + repeat_char(' ', width) + seq!['\u{2502}']
    } else {
        seq!['\u{2514}'] + repeat_char('\u{2500}', width) + seq!['\u{2518}']
    }
}

/// Truncation to a column: text within the budget passes unchanged;
/// longer text keeps its first `w - 2` characters and gains a
/// two-character ellipsis. Counting is by characters, so multi-byte text
/// cannot split.
pub open spec fn fit_spec(s: Seq<char>, w: int) -> Seq<char>
    recommends
        w >= 2,
{
    if s.len() <= w {
        s
    } else {
        s.take(w - 2) + seq!['.', '.']
    }
}

/// The character budget of a menu row within its column.
pub open spec fn menu_budget(width: u16) -> int {
    if width >= 3 {
        width - 1
    } else {
        2
    }
}

/// The character budget of a track row within its column, after the
/// fixed margin.
pub open spec fn album_budget(width: u16) -> int {
    if width >= 6 {
        width - 4
    } else {
        2
    }
}

/// What a menu pane shows on viewport row `v`: the option scrolled into
/// that row, or nothing.
pub open spec fn menu_row_source(p: Pane, v: int) -> Seq<char> {
    if p.reference + v < p.options@.len() {
        views_of(p.options@)[p.reference + v]
    } else {
        Seq::empty()
    }
}

/// The repeated character's sequence is `n` long and constant.
proof fn lemma_repeat_char(c: char, n: int)
    requires
        n >= 0,
    ensures
        repeat_char(c, n).len() == n,
        forall|i: int| 0 <= i < n ==> repeat_char(c, n)[i] == c,
    decreases n,
{
    if n > 0 {
        lemma_repeat_char(c, n - 1);
    }
}

/// A single character repeated into an owned string.
fn string_of_repeat(piece: &str, n: u16) -> (r: String)
    requires
        piece@.len() == 1,
    ensures
        r@ == repeat_char(piece@[0], n as int),
{
    let mut r = String::new();
    let mut i: u16 = 0;
    while i < n
        invariant
            i <= n,
            piece@.len() == 1,
            r@ == repeat_char(piece@[0], i as int),
        decreases n - i,
    {
        r.append(piece);
        proof {
            assert(r@ =~= repeat_char(piece@[0], i as int + 1));
        }
        i += 1;
    }
    r
}

/// The border box of one column: `height + 2` rows, the interior
/// cleared.
pub fn draw_box(width: u16, height: u16, pos: (u16, u16)) -> (r: Vec<DrawCmd>)
    requires
        pos.1 as int + height as int + 1 <= u16::MAX as int,
    ensures
        r@.len() == height as int + 2,
        forall|i: int|
            0 <= i < r@.len() ==> (#[trigger] r@[i] matches DrawCmd::Row { x, y, text, invert } && {
                &&& x == pos.0
                &&& y as int == pos.1 as int + i
                &&& !invert
                &&& text@ == box_row_text(width as int, height as int, i)
            }),
{
    proof {
        reveal_strlit("\u{2500}");
        reveal_strlit(" ");
        reveal_strlit("\u{250c}");
        reveal_strlit("\u{2510}");
        reveal_strlit("\u{2502}");
        reveal_strlit("\u{2514}");
        reveal_strlit("\u{2518}");
    }
    let horz = string_of_repeat("\u{2500}", width);
    let blank = string_of_repeat(" ", width);
    proof {
        lemma_repeat_char('\u{2500}', width as int);
        lemma_repeat_char(' ', width as int);
    }
    let mut r: Vec<DrawCmd> = Vec::new();
    let mut top = String::from_str("\u{250c}");
    top.append(horz.as_str());
    top.append("\u{2510}");
    proof {
        assert(top@ =~= box_row_text(width as int, height as int, 0));
    }
    r.push(DrawCmd::Row { x: pos.0, y: pos.1, text: top, invert: false });
    let mut i: u16 = 0;
    while i < height
        invariant
            i <= height,
            pos.1 as int + height as int + 1 <= u16::MAX as int,
            blank@ == repeat_char(' ', width as int),
            r@.len() == i as int + 1,
            forall|k: int|
                0 <= k < r@.len() ==> (#[trigger] r@[k] matches DrawCmd::Row {
                    x,
                    y,
                    text,
                    invert,
                } && {
                    &&& x == pos.0
                    &&& y as int == pos.1 as int + k
                    &&& !invert
                    &&& text@ == box_row_text(width as int, height as int, k)
                }),
        decreases height - i,
    {
        let mut line = String::from_str("\u{2502}");
        line.append(blank.as_str());
        line.append("\u{2502}");
        proof {
            reveal_strlit("\u{2502}");
            lemma_repeat_char(' ', width as int);
            assert(line@ =~= box_row_text(width as int, height as int, i as int + 1));
        }
        let ghost old_r = r@;
        r.push(DrawCmd::Row { x: pos.0, y: pos.1 + 1 + i, text: line, invert: false });
        proof {
            assert(forall|k: int| 0 <= k < old_r.len() ==> r@[k] == old_r[k]);
        }
        i += 1;
    }
    let mut bottom = String::from_str("\u{2514}");
    bottom.append(horz.as_str());
    bottom.append("\u{2518}");
    proof {
        assert(bottom@ =~= box_row_text(width as int, height as int, height as int + 1));
    }
    let ghost old_r = r@;
    r.push(DrawCmd::Row { x: pos.0, y: pos.1 + height + 1, text: bottom, invert: false });
    proof {
        assert(forall|k: int| 0 <= k < old_r.len() ==> r@[k] == old_r[k]);
    }
    r
}

/// A cleared rectangle: `height` rows of spaces.
pub fn clear_area(width: u16, height: u16, pos: (u16, u16)) -> (r: Vec<DrawCmd>)
    requires
        pos.1 as int + height as int <= u16::MAX as int,
    ensures
        r@.len() == height as int,
        forall|i: int|
            0 <= i < r@.len() ==> (#[trigger] r@[i] matches DrawCmd::Row { x, y, text, invert } && {
                &&& x == pos.0
                &&& y as int == pos.1 as int + i
                &&& !invert
                &&& text@ == repeat_char(' ', width as int)
            }),
{
    proof {
        reveal_strlit(" ");
    }
    let blank = string_of_repeat(" ", width);
    proof {
        lemma_repeat_char(' ', width as int);
    }
    let mut r: Vec<DrawCmd> = Vec::new();
    let mut i: u16 = 0;
    while i < height
        invariant
            i <= height,
            pos.1 as int + height as int <= u16::MAX as int,
            blank@ == repeat_char(' ', width as int),
            r@.len() == i as int,
            forall|k: int|
                0 <= k < r@.len() ==> (#[trigger] r@[k] matches DrawCmd::Row {
                    x,
                    y,
                    text,
                    invert,
                } && {
                    &&& x == pos.0
                    &&& y as int == pos.1 as int + k
                    &&& !invert
                    &&& text@ == repeat_char(' ', width as int)
                }),
        decreases height - i,
    {
        let ghost old_r = r@;
        r.push(DrawCmd::Row { x: pos.0, y: pos.1 + i, text: blank.clone(), invert: false });
        proof {
            assert(forall|k: int| 0 <= k < old_r.len() ==> r@[k] == old_r[k]);
        }
        i += 1;
    }
    r
}

/// Truncate a string to a character budget, appending the ellipsis when
/// something was cut. Operates on characters, never on raw bytes.
pub fn fit_to_width(s: &str, w: usize) -> (r: String)
    requires
        w >= 2,
    ensures
        r@ == fit_spec(s@, w as int),
{
    let n = s.unicode_len();
    if n <= w {
        s.to_owned()
    } else {
        let head = s.substring_char(0, w - 2);
        let mut r = head.to_owned();
        r.append("..");
        proof {
            reveal_strlit("..");
            assert((("..")@) =~= seq!['.', '.']);
            assert(s@.subrange(0, w - 2) =~= s@.take(w as int - 2));
            assert(r@ =~= fit_spec(s@, w as int));
        }
        r
    }
}

/// How many option rows a pane's viewport shows: the viewport height,
/// clipped to what remains past the scroll position.
pub open spec fn shown_len(p: Pane) -> int {
    if p.options@.len() - p.reference < p.height as int {
        p.options@.len() - p.reference
    } else {
        p.height as int
    }
}

/// The commands a menu column paints: its border box one row above its
/// text origin, then one row per viewport line, the focused pane's
/// cursor row inverted — and only that one.
pub open spec fn menu_cmds_ok(p: Pane, f: FocusedPane, cmds: Seq<DrawCmd>) -> bool {
    &&& cmds.len() == 2 * (p.height as int) + 2
    &&& forall|i: int|
        0 <= i < p.height as int + 2 ==> (#[trigger] cmds[i] matches DrawCmd::Row {
            x,
            y,
            text,
            invert,
        } && {
            &&& x == p.pos.0
            &&& y as int == p.pos.1 as int - 1 + i
            &&& !invert
            &&& text@ == box_row_text(p.width as int, p.height as int, i)
        })
    &&& forall|v: int|
        0 <= v < p.height as int ==> (#[trigger] cmds[p.height as int + 2 + v]
            matches DrawCmd::Row { x, y, text, invert } && {
            &&& x == p.pos.0
            &&& y as int == p.pos.1 as int + v
            &&& invert == (v == p.cursor_pos as int && f == p.focus)
            &&& text@ == seq!['\u{2502}'] + fit_spec(menu_row_source(p, v), menu_budget(p.width))
        })
}

/// The commands the album column paints: its border box, the two-line
/// header naming the bound album and its artists, then one indented row
/// per visible track, the focused cursor row inverted.
pub open spec fn album_cmds_ok(p: Pane, f: FocusedPane, albums: Seq<Album>, cmds: Seq<
    DrawCmd,
>) -> bool {
    &&& cmds.len() == p.height as int + 3 + shown_len(p)
    &&& forall|i: int|
        0 <= i < p.height as int + 2 ==> (#[trigger] cmds[i] matches DrawCmd::Row {
            x,
            y,
            text,
            invert,
        } && {
            &&& x == p.pos.0
            &&& y as int == p.pos.1 as int - 1 + i
            &&& !invert
            &&& text@ == box_row_text(p.width as int, p.height as int, i)
        })
    &&& (cmds[p.height as int + 2] matches DrawCmd::Header { x, y, title, artists } && {
        &&& x == p.pos.0
        &&& y == p.pos.1
        &&& match p.album {
            Some(ai) => {
                &&& ai < albums.len()
                &&& title@ == albums[ai as int].title@
                &&& views_of(artists@) == views_of(albums[ai as int].artists@)
            },
            None => title@.len() == 0 && artists@.len() == 0,
        }
    })
    &&& forall|v: int|
        0 <= v < shown_len(p) ==> (#[trigger] cmds[p.height as int + 3 + v]
            matches DrawCmd::Row { x, y, text, invert } && {
            &&& x == p.pos.0
            &&& y as int == p.pos.1 as int + 2 + v
            &&& invert == (v == p.cursor_pos as int && f == p.focus)
            &&& text@ == seq!['\u{2502}', ' ', ' ', ' ', ' '] + fit_spec(
                views_of(p.options@)[p.reference + v],
                album_budget(p.width),
            )
        })
}

/// What one pane paints, by its kind.
pub open spec fn pane_cmds_ok(p: Pane, f: FocusedPane, albums: Seq<Album>, cmds: Seq<
    DrawCmd,
>) -> bool {
    if p.pane_type == PaneType::MenuPane {
        menu_cmds_ok(p, f, cmds)
    } else {
        album_cmds_ok(p, f, albums, cmds)
    }
}

/// What a chain paints: each pane's own commands, then its child's.
pub open spec fn chain_cmds_ok(p: Pane, f: FocusedPane, albums: Seq<Album>, cmds: Seq<
    DrawCmd,
>) -> bool
    decreases p,
{
    match p.child_pane {
        None => pane_cmds_ok(p, f, albums, cmds),
        Some(c) => exists|n: int|
            0 <= n <= cmds.len() && #[trigger] pane_cmds_ok(p, f, albums, cmds.take(n))
                && chain_cmds_ok(*c, f, albums, cmds.skip(n)),
    }
}

/// Every pane of the chain can be painted: its viewport invariant holds,
/// its geometry leaves room for the border, and its album binding is in
/// range.
pub open spec fn drawable(p: Pane, albums: Seq<Album>) -> bool
    decreases p,
{
    &&& p.wf()
    &&& p.pos.1 >= 1
    &&& p.pos.1 as int + p.height as int + 1 <= u16::MAX as int
    &&& match p.album {
        Some(ai) => ai < albums.len(),
        None => true,
    }
    &&& match p.child_pane {
        Some(c) => drawable(*c, albums),
        None => true,
    }
}

/// A sound chain can always be painted: the navigation invariant gives
/// the render projection everything it asks for, as long as the height
/// leaves room for the border rows.
pub proof fn lemma_chain_drawable(
    p: Pane,
    songs: Seq<crate::song::Song>,
    albums: Seq<Album>,
    size: (u16, u16),
)
    requires
        crate::pane::level1_ok(p, songs, albums, size),
        size.1 as int + 3 <= u16::MAX as int,
    ensures
        drawable(p, albums),
{
    match p.child_pane {
        Some(c2) => {
            match c2.child_pane {
                Some(c3) => {
                    assert(drawable(*c3, albums));
                    assert(drawable(*c2, albums));
                },
                None => {},
            }
        },
        None => {},
    }
}

impl Pane {
    /// Paint one menu column.
    fn draw_menu_pane(&self, focused_pane: &FocusedPane) -> (r: Vec<DrawCmd>)
        requires
            self.wf(),
            self.pos.1 >= 1,
            self.pos.1 as int + self.height as int + 1 <= u16::MAX as int,
        ensures
            menu_cmds_ok(*self, *focused_pane, r@),
    {
        let mut r = draw_box(self.width, self.height, (self.pos.0, self.pos.1 - 1));
        let ghost boxlen: int = r@.len() as int;
        let mut v: u16 = 0;
        while v < self.height
            invariant
                v <= self.height,
                self.wf(),
                self.pos.1 >= 1,
                self.pos.1 as int + self.height as int + 1 <= u16::MAX as int,
                boxlen == self.height as int + 2,
                r@.len() == boxlen + v as int,
                forall|i: int|
                    0 <= i < boxlen ==> (#[trigger] r@[i] matches DrawCmd::Row {
                        x,
                        y,
                        text,
                        invert,
                    } && {
                        &&& x == self.pos.0
                        &&& y as int == self.pos.1 as int - 1 + i
                        &&& !invert
                        &&& text@ == box_row_text(self.width as int, self.height as int, i)
                    }),
                forall|v0: int|
                    0 <= v0 < v as int ==> (#[trigger] r@[boxlen + v0] matches DrawCmd::Row {
                        x,
                        y,
                        text,
                        invert,
                    } && {
                        &&& x == self.pos.0
                        &&& y as int == self.pos.1 as int + v0
                        &&& invert == (v0 == self.cursor_pos as int && *focused_pane == self.focus)
                        &&& text@ == seq!['\u{2502}'] + fit_spec(
                            menu_row_source(*self, v0),
                            menu_budget(self.width),
                        )
                    }),
            decreases self.height - v,
        {
            let budget: usize = if self.width >= 3 {
                (self.width - 1) as usize
            } else {
                2
            };
            let mut text = String::from_str("\u{2502}");
            let n = self.options.len();
            if self.reference < n && (v as usize) < n - self.reference {
                let fitted = fit_to_width(self.options[self.reference + v as usize].as_str(), budget);
                text.append(fitted.as_str());
            } else {
                let empty = String::new();
                let fitted = fit_to_width(empty.as_str(), budget);
                text.append(fitted.as_str());
            }
            proof {
                reveal_strlit("\u{2502}");
                assert(text@ =~= seq!['\u{2502}'] + fit_spec(
                    menu_row_source(*self, v as int),
                    menu_budget(self.width),
                ));
            }
            let invert = (v as usize) == self.cursor_pos && *focused_pane == self.focus;
            let ghost old_r = r@;
            r.push(DrawCmd::Row { x: self.pos.0, y: self.pos.1 + v, text, invert });
            proof {
                assert(forall|k: int| 0 <= k < old_r.len() ==> r@[k] == old_r[k]);
            }
            v += 1;
        }
        r
    }

    /// Paint the album column: header first, then the visible tracks.
    fn draw_album_view_pane(&self, focused_pane: &FocusedPane, albums: &Vec<Album>) -> (r: Vec<
        DrawCmd,
    >)
        requires
            self.wf(),
            self.pos.1 >= 1,
            self.pos.1 as int + self.height as int + 1 <= u16::MAX as int,
            match self.album {
                Some(ai) => ai < albums@.len(),
                None => true,
            },
        ensures
            album_cmds_ok(*self, *focused_pane, albums@, r@),
    {
        let mut r = draw_box(self.width, self.height, (self.pos.0, self.pos.1 - 1));
        let ghost boxlen: int = r@.len() as int;
        let title: String;
        let mut names: Vec<String> = Vec::new();
        match &self.album {
            Some(ai) => {
                title = albums[*ai].title.clone();
                let src = &albums[*ai].artists;
                let mut t: usize = 0;
                while t < src.len()
                    invariant
                        t <= src@.len(),
                        names@.len() == t,
                        forall|k: int| 0 <= k < t ==> (#[trigger] names@[k])@ == src@[k]@,
                    decreases src@.len() - t,
                {
                    names.push(src[t].clone());
                    t += 1;
                }
                proof {
                    assert(views_of(names@) =~= views_of(src@));
                }
            },
            None => {
                title = String::new();
            },
        }
        let ghost old_r0 = r@;
        r.push(DrawCmd::Header { x: self.pos.0, y: self.pos.1, title, artists: names });
        proof {
            assert(forall|k: int| 0 <= k < old_r0.len() ==> r@[k] == old_r0[k]);
        }
        let shown: usize = if self.options.len() - self.reference < self.height as usize {
            self.options.len() - self.reference
        } else {
            self.height as usize
        };
        let mut v: usize = 0;
        while v < shown
            invariant
                v <= shown,
                self.wf(),
                self.pos.1 >= 1,
                self.pos.1 as int + self.height as int + 1 <= u16::MAX as int,
                shown == shown_len(*self),
                boxlen == self.height as int + 2,
                r@.len() == boxlen + 1 + v as int,
                forall|i: int|
                    0 <= i < boxlen ==> (#[trigger] r@[i] matches DrawCmd::Row {
                        x,
                        y,
                        text,
                        invert,
                    } && {
                        &&& x == self.pos.0
                        &&& y as int == self.pos.1 as int - 1 + i
                        &&& !invert
                        &&& text@ == box_row_text(self.width as int, self.height as int, i)
                    }),
                (r@[boxlen] matches DrawCmd::Header { x, y, title, artists } && {
                    &&& x == self.pos.0
                    &&& y == self.pos.1
                    &&& match self.album {
                        Some(ai) => {
                            &&& ai < albums@.len()
                            &&& title@ == albums@[ai as int].title@
                            &&& views_of(artists@) == views_of(albums@[ai as int].artists@)
                        },
                        None => title@.len() == 0 && artists@.len() == 0,
                    }
                }),
                forall|v0: int|
                    0 <= v0 < v as int ==> (#[trigger] r@[boxlen + 1 + v0] matches DrawCmd::Row {
                        x,
                        y,
                        text,
                        invert,
                    } && {
                        &&& x == self.pos.0
                        &&& y as int == self.pos.1 as int + 2 + v0
                        &&& invert == (v0 == self.cursor_pos as int && *focused_pane == self.focus)
                        &&& text@ == seq!['\u{2502}', ' ', ' ', ' ', ' '] + fit_spec(
                            views_of(self.options@)[self.reference + v0],
                            album_budget(self.width),
                        )
                    }),
            decreases shown - v,
        {
            let budget: usize = if self.width >= 6 {
                (self.width - 4) as usize
            } else {
                2
            };
            let mut text = String::from_str("\u{2502}    ");
            let n = self.options.len();
            let fitted = fit_to_width(self.options[self.reference + v].as_str(), budget);
            text.append(fitted.as_str());
            proof {
                reveal_strlit("\u{2502}    ");
                assert(text@ =~= seq!['\u{2502}', ' ', ' ', ' ', ' '] + fit_spec(
                    views_of(self.options@)[self.reference + v as int],
                    album_budget(self.width),
                ));
            }
            let invert = v == self.cursor_pos && *focused_pane == self.focus;
            let ghost old_r = r@;
            r.push(
                DrawCmd::Row {
                    x: self.pos.0,
                    y: self.pos.1 + 2 + (v as u16),
                    text,
                    invert,
                },
            );
            proof {
                assert(forall|k: int| 0 <= k < old_r.len() ==> r@[k] == old_r[k]);
            }
            v += 1;
        }
        r
    }

    /// Project the whole chain into drawing commands: this pane's, then
    /// every pane's below it, in order. The projection never changes any
    /// pane.
    pub fn draw(&self, focused_pane: &FocusedPane, albums: &Vec<Album>) -> (r: Vec<DrawCmd>)
        requires
            drawable(*self, albums@),
        ensures
            chain_cmds_ok(*self, *focused_pane, albums@, r@),
        decreases *self,
    {
        let mut r = match self.pane_type {
            PaneType::MenuPane => self.draw_menu_pane(focused_pane),
            PaneType::AlbumPane => self.draw_album_view_pane(focused_pane, albums),
        };
        let ghost own = r@;
        match &self.child_pane {
            Some(c) => {
                let mut cr = c.draw(focused_pane, albums);
                let ghost childcmds = cr@;
                r.append(&mut cr);
                proof {
                    assert(r@.take(own.len() as int) =~= own);
                    assert(r@.skip(own.len() as int) =~= childcmds);
                    assert(pane_cmds_ok(*self, *focused_pane, albums@, r@.take(own.len() as int)));
                }
            },
            None => {},
        }
        r
    }
}

} // verus!
