use vstd::prelude::*;

use crate::wm::workspace::{Arrange, Layout};
use crate::{Arg, Button, Command, Key};

verus! {

/// Fonts (the first one available is used)
pub open spec fn font_names() -> Seq<&'static str> {
    seq!["Fixed:size=11"]
}

/// Fonts (the first one available is used)
pub fn fonts() -> (f: Vec<&'static str>)
    ensures
        f@ == font_names(),
{
    let f = vec!["Fixed:size=11"];
    assert(f@ =~= font_names());
    f
}

pub const normbordercolor: &'static str = "#444444";

pub const normbgcolor: &'static str = "#222222";

pub const normfgcolor: &'static str = "#bbbbbb";

pub const selbordercolor: &'static str = "#005577";

pub const selbgcolor: &'static str = "#005577";

pub const selfgcolor: &'static str = "#eeeeee";

/// Bar time formatting
pub const timeFormat: &'static str = "%H:%M:%S - %d %b %Y";

/// The shift modifier
pub const ShiftMask: u32 = 0x01;

/// The caps lock modifier
pub const LockMask: u32 = 0x02;

/// Modifier key for key controls: the fourth modifier
pub const MODKEY: u32 = 0x40;

pub const XK_Return: u64 = 0xff0d;

pub const XK_Num_Lock: u64 = 0xff7f;

pub const XK_d: u64 = 0x64;

pub const XK_e: u64 = 0x65;

pub const XK_q: u64 = 0x71;

pub const XK_1: u64 = 0x31;

pub const XK_2: u64 = 0x32;

pub const XK_3: u64 = 0x33;

pub const XK_4: u64 = 0x34;

pub const XK_5: u64 = 0x35;

pub const XK_6: u64 = 0x36;

pub const XK_7: u64 = 0x37;

pub const XK_8: u64 = 0x38;

pub const XK_9: u64 = 0x39;

pub const XF86XK_AudioLowerVolume: u64 = 0x1008ff11;

pub const XF86XK_AudioMute: u64 = 0x1008ff12;

pub const XF86XK_AudioRaiseVolume: u64 = 0x1008ff13;

/// Size (in pixels) of window borders
pub const borderpx: u32 = 2;

/// Snap pixel
pub const snap: u32 = 32;

/// Show the status bar (false means no bar)
pub const showbar: bool = true;

/// Show the status bar on top (false means bottom)
pub const topbar: bool = true;

/// Background color of the root window
pub const backgroundColor: u64 = 0x00aa00;

/// Width of the master area in thousandths of the content width
pub const mfact: u32 = 500;

/// Maximum number of clients in the master area
pub const nmaster: u32 = 1;

/// The names of the tags, one workspace each.
pub open spec fn tag_names() -> Seq<&'static str> {
    seq!["1", "2", "3", "4", "5", "6", "7", "8", "9"]
}

/// Tags
pub fn tags() -> (t: Vec<&'static str>)
    ensures
        t@ == tag_names(),
{
    let t = vec!["1", "2", "3", "4", "5", "6", "7", "8", "9"];
    assert(t@ =~= tag_names());
    t
}

/// Key combinations and their actions
pub open spec fn key_table() -> Seq<Key<'static>> {
    seq![
        Key { modif: MODKEY, keysym: XK_Return, func: Command::Spawn, arg: Arg::S("terminator") },
        Key { modif: MODKEY, keysym: XK_d, func: Command::Spawn, arg: Arg::S("rofi -show run") },
        Key { modif: MODKEY | ShiftMask, keysym: XK_e, func: Command::Quit, arg: Arg::I(0) },
        Key { modif: MODKEY | ShiftMask, keysym: XK_q, func: Command::CloseClient, arg: Arg::I(0) },
        Key { modif: MODKEY, keysym: XK_1, func: Command::ChangeWs, arg: Arg::U(1) },
        Key { modif: MODKEY, keysym: XK_2, func: Command::ChangeWs, arg: Arg::U(2) },
        Key { modif: MODKEY, keysym: XK_3, func: Command::ChangeWs, arg: Arg::U(3) },
        Key { modif: MODKEY, keysym: XK_4, func: Command::ChangeWs, arg: Arg::U(4) },
        Key { modif: MODKEY, keysym: XK_5, func: Command::ChangeWs, arg: Arg::U(5) },
        Key { modif: MODKEY, keysym: XK_6, func: Command::ChangeWs, arg: Arg::U(6) },
        Key { modif: MODKEY, keysym: XK_7, func: Command::ChangeWs, arg: Arg::U(7) },
        Key { modif: MODKEY, keysym: XK_8, func: Command::ChangeWs, arg: Arg::U(8) },
        Key { modif: MODKEY, keysym: XK_9, func: Command::ChangeWs, arg: Arg::U(9) },
        Key { modif: MODKEY | ShiftMask, keysym: XK_1, func: Command::MoveClientToWs, arg: Arg::U(1) },
        Key { modif: MODKEY | ShiftMask, keysym: XK_2, func: Command::MoveClientToWs, arg: Arg::U(2) },
        Key { modif: MODKEY | ShiftMask, keysym: XK_3, func: Command::MoveClientToWs, arg: Arg::U(3) },
        Key { modif: MODKEY | ShiftMask, keysym: XK_4, func: Command::MoveClientToWs, arg: Arg::U(4) },
        Key { modif: MODKEY | ShiftMask, keysym: XK_5, func: Command::MoveClientToWs, arg: Arg::U(5) },
        Key { modif: MODKEY | ShiftMask, keysym: XK_6, func: Command::MoveClientToWs, arg: Arg::U(6) },
        Key { modif: MODKEY | ShiftMask, keysym: XK_7, func: Command::MoveClientToWs, arg: Arg::U(7) },
        Key { modif: MODKEY | ShiftMask, keysym: XK_8, func: Command::MoveClientToWs, arg: Arg::U(8) },
        Key { modif: MODKEY | ShiftMask, keysym: XK_9, func: Command::MoveClientToWs, arg: Arg::U(9) },
        Key { modif: MODKEY | ShiftMask, keysym: XF86XK_AudioLowerVolume, func: Command::Spawn, arg: Arg::S("amixer -q sset 'Master' 5%-") },
        Key { modif: MODKEY | ShiftMask, keysym: XF86XK_AudioRaiseVolume, func: Command::Spawn, arg: Arg::S("amixer -q sset 'Master' 5%+") },
        Key { modif: MODKEY | ShiftMask, keysym: XF86XK_AudioMute, func: Command::Spawn, arg: Arg::S("amixer -q sset 'Master' ") },
    ]
}

/// Key combinations and their actions
pub fn keys() -> (k: Vec<Key<'static>>)
    ensures
        k@ == key_table(),
{
    let k = vec![
        Key { modif: MODKEY, keysym: XK_Return, func: Command::Spawn, arg: Arg::S("terminator") },
        Key { modif: MODKEY, keysym: XK_d, func: Command::Spawn, arg: Arg::S("rofi -show run") },
        Key { modif: MODKEY | ShiftMask, keysym: XK_e, func: Command::Quit, arg: Arg::I(0) },
        Key { modif: MODKEY | ShiftMask, keysym: XK_q, func: Command::CloseClient, arg: Arg::I(0) },
        Key { modif: MODKEY, keysym: XK_1, func: Command::ChangeWs, arg: Arg::U(1) },
        Key { modif: MODKEY, keysym: XK_2, func: Command::ChangeWs, arg: Arg::U(2) },
        Key { modif: MODKEY, keysym: XK_3, func: Command::ChangeWs, arg: Arg::U(3) },
        Key { modif: MODKEY, keysym: XK_4, func: Command::ChangeWs, arg: Arg::U(4) },
        Key { modif: MODKEY, keysym: XK_5, func: Command::ChangeWs, arg: Arg::U(5) },
        Key { modif: MODKEY, keysym: XK_6, func: Command::ChangeWs, arg: Arg::U(6) },
        Key { modif: MODKEY, keysym: XK_7, func: Command::ChangeWs, arg: Arg::U(7) },
        Key { modif: MODKEY, keysym: XK_8, func: Command::ChangeWs, arg: Arg::U(8) },
        Key { modif: MODKEY, keysym: XK_9, func: Command::ChangeWs, arg: Arg::U(9) },
        Key { modif: MODKEY | ShiftMask, keysym: XK_1, func: Command::MoveClientToWs, arg: Arg::U(1) },
        Key { modif: MODKEY | ShiftMask, keysym: XK_2, func: Command::MoveClientToWs, arg: Arg::U(2) },
        Key { modif: MODKEY | ShiftMask, keysym: XK_3, func: Command::MoveClientToWs, arg: Arg::U(3) },
        Key { modif: MODKEY | ShiftMask, keysym: XK_4, func: Command::MoveClientToWs, arg: Arg::U(4) },
        Key { modif: MODKEY | ShiftMask, keysym: XK_5, func: Command::MoveClientToWs, arg: Arg::U(5) },
        Key { modif: MODKEY | ShiftMask, keysym: XK_6, func: Command::MoveClientToWs, arg: Arg::U(6) },
        Key { modif: MODKEY | ShiftMask, keysym: XK_7, func: Command::MoveClientToWs, arg: Arg::U(7) },
        Key { modif: MODKEY | ShiftMask, keysym: XK_8, func: Command::MoveClientToWs, arg: Arg::U(8) },
        Key { modif: MODKEY | ShiftMask, keysym: XK_9, func: Command::MoveClientToWs, arg: Arg::U(9) },
        Key { modif: MODKEY | ShiftMask, keysym: XF86XK_AudioLowerVolume, func: Command::Spawn, arg: Arg::S("amixer -q sset 'Master' 5%-") },
        Key { modif: MODKEY | ShiftMask, keysym: XF86XK_AudioRaiseVolume, func: Command::Spawn, arg: Arg::S("amixer -q sset 'Master' 5%+") },
        Key { modif: MODKEY | ShiftMask, keysym: XF86XK_AudioMute, func: Command::Spawn, arg: Arg::S("amixer -q sset 'Master' ") },
    ];
    assert(k@ =~= key_table());
    k
}

/// Buttons and their actions
pub fn buttons() -> (b: Vec<Button<'static>>)
    ensures
        b@.len() == 0,
{
    Vec::new()
}

/// Commands to execute at the start of the window manager
pub open spec fn start_commands() -> Seq<&'static str> {
    seq!["feh --bg-scale /home/vertmo/Images/Wallpapers/botw.png", "statusbar"]
}

/// Commands to execute at the start of the window manager
pub fn startCmds() -> (c: Vec<&'static str>)
    ensures
        c@ == start_commands(),
{
    let c = vec!["feh --bg-scale /home/vertmo/Images/Wallpapers/botw.png", "statusbar"];
    assert(c@ =~= start_commands());
    c
}

/// The layouts to choose from
pub open spec fn layout_table() -> Seq<Layout<'static>> {
    seq![
        Layout { symbol: "[]=", arrange: Arrange::Tile },
        Layout { symbol: "[M]", arrange: Arrange::Monocle },
        Layout { symbol: "><>", arrange: Arrange::Floating },
        Layout { symbol: "HHH", arrange: Arrange::Grid },
    ]
}

/// Layouts
pub fn layouts() -> (l: Vec<Layout<'static>>)
    ensures
        l@ == layout_table(),
{
    let l = vec![
        Layout { symbol: "[]=", arrange: Arrange::Tile },
        Layout { symbol: "[M]", arrange: Arrange::Monocle },
        Layout { symbol: "><>", arrange: Arrange::Floating },
        Layout { symbol: "HHH", arrange: Arrange::Grid },
    ];
    assert(l@ =~= layout_table());
    l
}

/// The layout a new workspace starts with.
pub fn defaultLayout() -> (l: Layout<'static>)
    ensures
        l.arrange == Arrange::Tile,
        l.symbol@ == "[]="@,
{
    Layout { symbol: "[]=", arrange: Arrange::Tile }
}

} // verus!
