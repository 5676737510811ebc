use vstd::prelude::*;

verus! {

/// Font extent (width and height)
#[derive(Clone, Copy, Debug, PartialEq, Eq, Structural)]
pub struct Extnts {
    pub w: u32,
    pub h: u32,
}

/// The measures of a loaded font.
#[derive(Clone, Copy, Debug, PartialEq, Eq, Structural)]
pub struct Fnt {
    pub ascent: i32,
    pub descent: i32,
    pub h: u32,
}

impl Fnt {
    /// The font's measures agree: neither part is negative, and the height is
    /// both parts together.
    pub open spec fn wf(&self) -> bool {
        0 <= self.ascent && 0 <= self.descent && self.h == self.ascent + self.descent
    }
}

/// Tells whether the measures of the font agree.
pub fn fontOk(font: &Fnt) -> (r: bool)
    ensures
        r == font.wf(),
{
    0 <= font.ascent && 0 <= font.descent && font.h as i64 == font.ascent as i64
        + font.descent as i64
}

/// Records the measures of a font: its height is ascent and descent together.
pub fn createFont(ascent: i32, descent: i32) -> (r: Option<Fnt>)
    ensures
        match r {
            Some(f) => f.wf() && f.ascent == ascent && f.descent == descent,
            None => ascent < 0 || descent < 0,
        },
{
    if ascent < 0 || descent < 0 {
        None
    } else {
        Some(Fnt { ascent, descent, h: (ascent as i64 + descent as i64) as u32 })
    }
}

/// The extent of a text in a font, from the width that the text was measured
/// with: the height is the font's.
pub fn getexts(fnt: &Fnt, width: u32) -> (tex: Extnts)
    ensures
        tex == (Extnts { w: width, h: fnt.h }),
{
    Extnts { w: width, h: fnt.h }
}

} // verus!
