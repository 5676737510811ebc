use vstd::prelude::*;

use crate::display::{configure_of, Action};

verus! {

/// An aspect ratio, held as the fraction `x / y` that size hints give.
/// A zero denominator means that no ratio is set.
#[derive(Clone, Copy, Debug, PartialEq, Eq, Structural)]
pub struct Aspect {
    pub x: u32,
    pub y: u32,
}

/// What the display server reports of a window when it asks to be mapped.
#[derive(Clone, Copy, Debug, PartialEq, Eq, Structural)]
pub struct WindowAttributes {
    pub x: i32,
    pub y: i32,
    pub width: u32,
    pub height: u32,
    pub border_width: u32,
    pub override_redirect: bool,
}

/// A managed window. Its identity is the window handle `win`.
#[derive(Clone, Copy, Debug)]
pub struct Client<'a> {
    pub name: &'a str,
    pub mina: Aspect,
    pub maxa: Aspect,
    pub x: i32,
    pub y: i32,
    pub w: u32,
    pub h: u32,
    pub bw: u32,
    pub tags: u32,
    pub isfixed: bool,
    pub isfloating: bool,
    pub isurgent: bool,
    pub neverfocus: bool,
    pub oldwm: bool,
    pub isfullscreen: bool,
    pub oldstate: bool,
    pub win: u64,
}

/// Two clients are the same client when they have the same window handle.
impl<'a> PartialEq for Client<'a> {
    fn eq(&self, other: &Client<'a>) -> (r: bool) {
        self.win == other.win
    }
}

impl<'a> vstd::std_specs::cmp::PartialEqSpecImpl for Client<'a> {
    open spec fn obeys_eq_spec() -> bool {
        true
    }

    open spec fn eq_spec(&self, other: &Client<'a>) -> bool {
        self.win == other.win
    }
}

/// The client `c` with its position and size replaced.
pub open spec fn with_geom<'a>(c: Client<'a>, x: i32, y: i32, w: u32, h: u32) -> Client<'a> {
    Client { x, y, w, h, ..c }
}

/// The client that stands for a window newly taken under management: it has
/// the geometry the server reported, no name, no border and no flag set.
pub open spec fn new_client<'a>(win: u64, wa: WindowAttributes) -> Client<'a> {
    Client {
        name: "",
        mina: Aspect { x: 0, y: 0 },
        maxa: Aspect { x: 0, y: 0 },
        x: wa.x,
        y: wa.y,
        w: wa.width,
        h: wa.height,
        bw: 0,
        tags: 0,
        isfixed: false,
        isfloating: false,
        isurgent: false,
        neverfocus: false,
        oldwm: false,
        isfullscreen: false,
        oldstate: false,
        win,
    }
}

/// Creates a client for the window `win` with the geometry the server reported.
pub fn createClient<'a>(win: u64, wa: &WindowAttributes, monindex: usize) -> (c: Client<'a>)
    ensures
        c == new_client::<'a>(win, *wa),
{
    Client {
        name: "",
        mina: Aspect { x: 0, y: 0 },
        maxa: Aspect { x: 0, y: 0 },
        x: wa.x,
        y: wa.y,
        w: wa.width,
        h: wa.height,
        bw: 0,
        tags: 0,
        isfixed: false,
        isfloating: false,
        isurgent: false,
        neverfocus: false,
        oldwm: false,
        isfullscreen: false,
        oldstate: false,
        win,
    }
}

/// Gives the client a new position and size; everything else stays.
pub fn setGeom<'a>(c: Client<'a>, x: i32, y: i32, w: u32, h: u32) -> (r: Client<'a>)
    ensures
        r == with_geom(c, x, y, w, h),
{
    Client { x, y, w, h, ..c }
}

/// Total width of the window, borders included.
pub fn width(client: &Client) -> (r: u32)
    requires
        client.w + 2 * client.bw <= u32::MAX,
    ensures
        r == client.w + 2 * client.bw,
{
    client.w + 2 * client.bw
}

/// Total height of the window, borders included.
pub fn height(client: &Client) -> (r: u32)
    requires
        client.h + 2 * client.bw <= u32::MAX,
    ensures
        r == client.h + 2 * client.bw,
{
    client.h + 2 * client.bw
}

/// The instruction that tells the client its authoritative geometry.
pub fn configure<'a>(client: &Client<'a>) -> (a: Action<'a>)
    ensures
        a == configure_of(*client),
{
    Action::Configure {
        win: client.win,
        x: client.x,
        y: client.y,
        w: client.w,
        h: client.h,
        bw: client.bw,
    }
}

/// The instruction that maps the client's window.
pub fn draw<'a>(c: &Client<'a>) -> (a: Action<'a>)
    ensures
        a == Action::Show(c.win),
{
    Action::Show(c.win)
}

/// The instruction that shows the client.
pub fn showClient<'a>(c: &Client<'a>) -> (a: Action<'a>)
    ensures
        a == Action::Show(c.win),
{
    Action::Show(c.win)
}

/// The instruction that hides the client.
pub fn hideClient<'a>(c: &Client<'a>) -> (a: Action<'a>)
    ensures
        a == Action::Hide(c.win),
{
    Action::Hide(c.win)
}

/// Gives the client up and returns the instruction that closes its window.
pub fn destroyClient<'a>(c: Client<'a>) -> (a: Action<'a>)
    ensures
        a == Action::Destroy(c.win),
{
    Action::Destroy(c.win)
}

} // verus!
