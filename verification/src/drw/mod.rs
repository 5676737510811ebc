use vstd::prelude::*;

/// Color schemes
pub mod clrscheme;
/// Font measures
pub mod fnt;

use self::fnt::Fnt;
use crate::wm::workspace::Workspace;
use crate::{SCHEMENORM, SCHEMESEL};

verus! {

/// Stores a cursor, by its handle.
#[derive(Clone, Copy, Debug, PartialEq, Eq, Structural)]
pub struct Cur {
    pub cursor: u64,
}

/// What the window manager knows of the drawable area the bar is drawn on:
/// its extent, the screen and windows it belongs to, and the fonts loaded.
pub struct Drw {
    pub w: u32,
    pub h: u32,
    pub screen: i32,
    pub root: u64,
    pub drawable: u64,
    pub fonts: Vec<Fnt>,
}

/// Records a drawable area of the given extent, with no font loaded yet.
pub fn createDrw(screen: i32, root: u64, w: u32, h: u32, drawable: u64) -> (drw: Drw)
    ensures
        drw.w == w && drw.h == h && drw.screen == screen && drw.root == root,
        drw.drawable == drawable,
        drw.fonts@.len() == 0,
{
    Drw { w, h, screen, root, drawable, fonts: Vec::new() }
}

/// An instruction to the drawing surface. The window manager plans the bar
/// and hands these out in order; whoever holds the surface carries them out.
#[derive(Clone, Copy, Debug, PartialEq, Eq)]
pub enum Draw<'a> {
    /// Draw a rectangle in the colors of a scheme, filled or as an outline.
    Rect { scheme: usize, x: i32, y: i32, w: u32, h: u32, filled: bool, invert: bool },
    /// Draw a text into a box in the colors of a scheme.
    Text { scheme: usize, x: i32, y: i32, w: u32, h: u32, text: &'a str, invert: bool },
    /// Copy an area of the surface onto a window.
    Flush { win: u64, x: i32, y: i32, w: u32, h: u32 },
}

/// Loads fonts: the measures of each font that could be opened join the fonts
/// of the drawable area, in order.
pub fn loadFonts(drw: Drw, fonts: Vec<Fnt>) -> (r: Drw)
    ensures
        r == (Drw { fonts: r.fonts, ..drw }),
        r.fonts@ == drw.fonts@ + fonts@,
{
    let mut drw = drw;
    let mut fonts = fonts;
    drw.fonts.append(&mut fonts);
    drw
}

/// Width of the box of a text: the width it was measured with and, for the
/// space around it, the font's height.
pub open spec fn text_width(extent: u32, font: Fnt) -> int {
    extent + font.h
}

/// Width of the box of a text.
pub fn textw(extent: u32, drw: &Drw) -> (w: u32)
    requires
        drw.fonts@.len() >= 1,
        text_width(extent, drw.fonts@[0]) <= u32::MAX,
    ensures
        w == text_width(extent, drw.fonts@[0]),
{
    extent + drw.fonts[0].h
}

/// Where a text starts that is drawn into a box at `(x, y)` of height `h`:
/// half the height in from the left, and with its base line so that the
/// text stands in the middle of the height.
pub open spec fn text_origin(x: int, y: int, h: int, font: Fnt) -> (int, int) {
    (x + h / 2, y + h / 2 - (font.ascent + font.descent) / 2 + font.ascent)
}

/// Where a text starts that is drawn into a box.
pub fn textOrigin(x: i32, y: i32, h: u32, font: &Fnt) -> (r: (i64, i64))
    requires
        font.wf(),
    ensures
        r.0 == text_origin(x as int, y as int, h as int, *font).0,
        r.1 == text_origin(x as int, y as int, h as int, *font).1,
{
    let half: i64 = (h / 2) as i64;
    let th: i64 = font.ascent as i64 + font.descent as i64;
    (x as i64 + half, y as i64 + half - th / 2 + font.ascent as i64)
}

/// Side of the small square that marks a workspace with clients: a quarter
/// of the font's height and two.
pub open spec fn marker_side(font: Fnt) -> int {
    (font.ascent + font.descent + 2) / 4
}

/// Left edge of the label of tag `i` on the bar: the boxes of the tags before
/// it lie side by side from the bar's left edge.
pub open spec fn tag_x(extents: Seq<u32>, font: Fnt, i: int) -> int
    decreases i,
{
    if i <= 0 {
        0
    } else {
        tag_x(extents, font, i - 1) + text_width(extents[i - 1], font)
    }
}

/// The scheme a workspace is drawn in: the selected one stands out.
pub open spec fn tag_scheme(sel: int, i: int) -> usize {
    if i == sel {
        SCHEMESEL
    } else {
        SCHEMENORM
    }
}

/// What draws tag `i`: its label, and a small square on it where the
/// workspace has clients, filled for the selected workspace.
pub open spec fn tag_draws<'a>(
    wss: Seq<Workspace<'a>>,
    extents: Seq<u32>,
    font: Fnt,
    sel: int,
    bh: u32,
    i: int,
) -> Seq<Draw<'a>> {
    let x = tag_x(extents, font, i);
    let label = Draw::Text {
        scheme: tag_scheme(sel, i),
        x: x as i32,
        y: 1,
        w: text_width(extents[i], font) as u32,
        h: bh,
        text: wss[i].tag,
        invert: false,
    };
    if wss[i].clients@.len() > 0 {
        seq![
            label,
            Draw::Rect {
                scheme: tag_scheme(sel, i),
                x: (x + 1) as i32,
                y: 1,
                w: marker_side(font) as u32,
                h: marker_side(font) as u32,
                filled: i == sel,
                invert: false,
            },
        ]
    } else {
        seq![label]
    }
}

/// What draws the first `k` tags, in order.
pub open spec fn tags_plan<'a>(
    wss: Seq<Workspace<'a>>,
    extents: Seq<u32>,
    font: Fnt,
    sel: int,
    bh: u32,
    k: int,
) -> Seq<Draw<'a>>
    decreases k,
{
    if k <= 0 {
        Seq::empty()
    } else {
        tags_plan(wss, extents, font, sel, bh, k - 1) + tag_draws(wss, extents, font, sel, bh, k - 1)
    }
}

/// The labels of the tags lie from left to right: a later one starts no
/// further left than an earlier one.
pub proof fn lemma_tag_x_grows(extents: Seq<u32>, font: Fnt, i: int, j: int)
    requires
        0 <= i <= j,
    ensures
        0 <= tag_x(extents, font, i) <= tag_x(extents, font, j),
    decreases j,
{
    if i < j {
        lemma_tag_x_grows(extents, font, i, j - 1);
    } else if j > 0 {
        lemma_tag_x_grows(extents, font, j - 1, j - 1);
    }
}

} // verus!
