use vstd::prelude::*;

use crate::wm::client::Client;

verus! {

/// A request of a window to be configured, as the display server reports it.
#[derive(Clone, Copy, Debug, PartialEq, Eq, Structural)]
pub struct ConfigureRequest {
    pub window: u64,
    pub x: i32,
    pub y: i32,
    pub width: i32,
    pub height: i32,
    pub border_width: i32,
    pub above: u64,
    pub detail: i32,
    pub value_mask: u64,
}

/// An instruction to the display server. The window manager decides and hands
/// these out in order; whoever holds the connection carries them out.
#[derive(Clone, Copy, Debug, PartialEq, Eq)]
pub enum Action<'a> {
    /// Tell the window its authoritative geometry.
    Configure { win: u64, x: i32, y: i32, w: u32, h: u32, bw: u32 },
    /// Map the window, so that it shows.
    Show(u64),
    /// Unmap the window, so that it hides.
    Hide(u64),
    /// Close the window.
    Destroy(u64),
    /// Grant the request of a window that is not managed as it stands.
    ConfigureWindow(ConfigureRequest),
    /// Release every key grabbed on the root window.
    UngrabKeys,
    /// Grab the key of a code on the root window under a modifier mask.
    GrabKey { keycode: u8, modifiers: u32 },
    /// Wait until the display server has worked off what was sent.
    Sync,
    /// Read the status text anew and redraw the bar.
    UpdateStatus,
    /// Start an external program, without waiting for it.
    Spawn(&'a str),
}

/// The instruction that tells a client the geometry it has.
pub open spec fn configure_of<'a>(c: Client<'a>) -> Action<'a> {
    Action::Configure { win: c.win, x: c.x, y: c.y, w: c.w, h: c.h, bw: c.bw }
}

/// What tells every client of a sequence its geometry, in order.
pub open spec fn configure_all<'a>(clients: Seq<Client<'a>>) -> Seq<Action<'a>> {
    Seq::new(clients.len(), |i: int| configure_of(clients[i]))
}

/// What shows every client of a sequence, in order.
pub open spec fn show_all<'a>(clients: Seq<Client<'a>>) -> Seq<Action<'a>> {
    Seq::new(clients.len(), |i: int| Action::Show(clients[i].win))
}

/// What hides every client of a sequence, in order.
pub open spec fn hide_all<'a>(clients: Seq<Client<'a>>) -> Seq<Action<'a>> {
    Seq::new(clients.len(), |i: int| Action::Hide(clients[i].win))
}

} // verus!
