use vstd::prelude::*;

verus! {

/// The channels of an allocated color.
#[derive(Clone, Copy, Debug, PartialEq, Eq, Structural)]
pub struct Rgb {
    pub red: u16,
    pub green: u16,
    pub blue: u16,
    pub alpha: u16,
}

/// Stores a color: its pixel value and its channels.
#[derive(Clone, Copy, Debug, PartialEq, Eq, Structural)]
pub struct Clr {
    pub pix: u64,
    pub rgb: Rgb,
}

/// Stores a color scheme (foreground, background and border colors)
#[derive(Clone, Copy, Debug, PartialEq, Eq, Structural)]
pub struct ClrScheme {
    pub fg: Clr,
    pub bg: Clr,
    pub border: Clr,
}

impl ClrScheme {
    /// Puts three colors together.
    pub fn new(fg: Clr, bg: Clr, border: Clr) -> (s: ClrScheme)
        ensures
            s == (ClrScheme { fg, bg, border }),
    {
        ClrScheme { fg, bg, border }
    }
}

/// Puts three colors together into a scheme.
pub fn createClrScheme(fg: Clr, bg: Clr, border: Clr) -> (s: ClrScheme)
    ensures
        s == (ClrScheme { fg, bg, border }),
{
    ClrScheme::new(fg, bg, border)
}

} // verus!
