#![allow(non_snake_case)]
#![allow(non_upper_case_globals)]
#![allow(non_camel_case_types)]
#![allow(unused_imports)]
#![allow(unused_variables)]

use vstd::prelude::*;

/// Configuration module
pub mod config;
/// Instructions to the display server
pub mod display;
/// Events handling
pub mod events;
/// Drawable module
pub mod drw;
/// Window manager state, workspaces and clients
pub mod wm;

use crate::display::{hide_all, show_all, Action};
use crate::wm::workspace::{
    findClient, first_at, hideAllClients, holds, showAllClients, Layout,
};
use crate::wm::{client_count, gave_up, manages, moveClient, passed_on, unManage, WM};

verus! {

pub const VERSION: &'static str = "0.0.1";

// WM atom indexes
pub const WMPROTOCOLS: usize = 0;

pub const WMDELETE: usize = 1;

pub const WMSTATE: usize = 2;

pub const WMTAKEFOCUS: usize = 3;

pub const WMLAST: usize = 4;

// Net atom indexes
pub const NETACTIVEWINDOW: usize = 0;

pub const NETSUPPORTED: usize = 1;

pub const NETWMNAME: usize = 2;

pub const NETWMSTATE: usize = 3;

pub const NETWMFULLSCREEN: usize = 4;

pub const NETWMWINDOWTYPE: usize = 5;

pub const NETWMWINDOWTYPEDIALOG: usize = 6;

pub const NETCLIENTLIST: usize = 7;

pub const NETLAST: usize = 8;

// Cursor indexes
pub const CURNORMAL: usize = 0;

pub const CURRESIZE: usize = 1;

pub const CURMOVE: usize = 2;

// Color scheme indexes
pub const SCHEMENORM: usize = 0;

pub const SCHEMESEL: usize = 1;

/// Stores an argument to pass to the commands bound to keys and clicks: one
/// case for each kind of payload.
#[derive(Clone, Copy, Debug, PartialEq, Eq)]
pub enum Arg<'a> {
    /// A signed number, such as a count of steps
    I(i32),
    /// An unsigned number, such as the number of a workspace
    U(u32),
    /// A fraction, in thousandths
    F(u32),
    /// A text, such as a command line
    S(&'a str),
}

/// The commands that a key or a click can be bound to.
#[derive(Clone, Copy, Debug, PartialEq, Eq, Structural)]
pub enum Command {
    Spawn,
    Quit,
    CloseClient,
    ChangeWs,
    ChangeWsRel,
    PivotWs,
    MoveClientToWs,
    MoveClientToWsRel,
    PivotClientToWs,
}

/// Stores a key for keypress events
#[derive(Clone, Copy, Debug, PartialEq, Eq)]
pub struct Key<'a> {
    pub modif: u32,
    pub keysym: u64,
    pub func: Command,
    pub arg: Arg<'a>,
}

/// Different types of click events
#[derive(Clone, Copy, Debug, PartialEq, Eq, Structural)]
pub enum Click {
    ClkTagBar,
    ClkLtSymbol,
    ClkStatusText,
    ClkWinTitle,
    ClkClientWin,
    ClkRootWin,
    ClkLast,
}

/// Stores a button for click events
#[derive(Clone, Copy, Debug, PartialEq, Eq)]
pub struct Button<'a> {
    pub click: Click,
    pub mask: u32,
    pub button: u32,
    pub func: Command,
    pub arg: Arg<'a>,
}

/// Settings a workspace remembers for each of its tags.
pub struct Pertag<'a> {
    /// Current and previous tag
    pub curtag: u32,
    pub prevtag: u32,
    /// Number of windows in the master area, per tag
    pub nmasters: Vec<i32>,
    /// Master width in thousandths of the content width, per tag
    pub mfacts: Vec<u32>,
    /// Selected layouts
    pub selltds: Vec<u32>,
    /// Matrix of tags and layouts
    pub ltidxs: Vec<Vec<Layout<'a>>>,
    /// Display bar for each tag
    pub showbars: Vec<bool>,
    /// Handle of the window to zoom first, per tag
    pub prefzooms: Vec<u64>,
}

/// `target`, counted from one, names a workspace other than the selected one.
pub open spec fn switch_valid(wm: WM, target: int) -> bool {
    1 <= target <= wm.wss@.len() && target - 1 != wm.selwsindex
}

/// What a switch to workspace `target`, counted from one, makes of a state.
/// Where `target` names another workspace, that one is selected and the one
/// selected before is remembered; the clients of the old one are hidden, the
/// bar is refreshed, and the clients of the new one are shown. Where it names
/// the selected workspace or none, nothing happens.
pub open spec fn switched<'a>(wm: WM<'a>, target: int, r: WM<'a>, actions: Seq<Action<'a>>) -> bool {
    if switch_valid(wm, target) {
        &&& r == (WM { selwsindex: (target - 1) as usize, oldwsindex: wm.selwsindex, ..wm })
        &&& actions == hide_all(wm.wss@[wm.selwsindex as int].clients@) + seq![Action::UpdateStatus]
            + show_all(wm.wss@[target - 1].clients@)
    } else {
        r == wm && actions.len() == 0
    }
}

/// Switches to workspace `target`, counted from one, as `switched` says.
pub fn switchTo<'a>(wm: WM<'a>, target: usize) -> (r: (WM<'a>, Vec<Action<'a>>))
    requires
        wm.wf(),
    ensures
        r.0.wf(),
        switched(wm, target as int, r.0, r.1@),
        switch_valid(wm, target as int) ==> r.0.selwsindex == target - 1 && r.0.oldwsindex
            == wm.selwsindex && r.0.wss == wm.wss,
        !switch_valid(wm, target as int) ==> r.0 == wm,
{
    if target > 0 && target <= wm.wss.len() && target - 1 != wm.selwsindex {
        let mut actions = hideAllClients(&wm.wss[wm.selwsindex]);
        actions.push(Action::UpdateStatus);
        let mut shown = showAllClients(&wm.wss[target - 1]);
        actions.append(&mut shown);
        let old = wm.selwsindex;
        assert(actions@ =~= hide_all(wm.wss@[wm.selwsindex as int].clients@) + seq![
            Action::UpdateStatus,
        ] + show_all(wm.wss@[target - 1].clients@));
        (WM { selwsindex: target - 1, oldwsindex: old, ..wm }, actions)
    } else {
        (wm, Vec::new())
    }
}

/// Change to another workspace: the argument holds its number, counted from
/// one. An argument of another kind changes nothing.
pub fn changeWs<'a>(arg: &Arg, wm: WM<'a>) -> (r: (WM<'a>, Vec<Action<'a>>))
    requires
        wm.wf(),
    ensures
        r.0.wf(),
        match *arg {
            Arg::U(index) => switched(wm, index as int, r.0, r.1@),
            _ => r.0 == wm && r.1@.len() == 0,
        },
{
    match *arg {
        Arg::U(index) => switchTo(wm, index as usize),
        _ => (wm, Vec::new()),
    }
}

/// The workspace, counted from one, that lies `steps` after the selected one
/// (before it, for a negative number). Past the last workspace comes the
/// first, and before the first the last.
pub open spec fn rel_target(wm: WM, steps: int) -> int {
    let index = wm.selwsindex + steps;
    if index < 0 {
        wm.wss@.len() as int
    } else if index >= wm.wss@.len() {
        1
    } else {
        index + 1
    }
}

/// Computes `rel_target`.
fn relTarget(wm: &WM, steps: i32) -> (target: usize)
    requires
        wm.wf(),
    ensures
        target == rel_target(*wm, steps as int),
        1 <= target <= wm.wss@.len(),
{
    let sel = wm.selwsindex;
    let n = wm.wss.len();
    if steps < 0 {
        let back: u32 = (-(steps as i64)) as u32;
        if back as usize > sel {
            n
        } else {
            sel - back as usize + 1
        }
    } else {
        let forth: u32 = steps as u32;
        if forth as usize >= n - sel {
            1
        } else {
            sel + forth as usize + 1
        }
    }
}

/// Change to another workspace relative to the current one: the argument
/// holds the number of positions to go forward (>0) or backwards (<0). An
/// argument of another kind changes nothing.
pub fn changeWsRel<'a>(arg: &Arg, wm: WM<'a>) -> (r: (WM<'a>, Vec<Action<'a>>))
    requires
        wm.wf(),
    ensures
        r.0.wf(),
        match *arg {
            Arg::I(steps) => switched(wm, rel_target(wm, steps as int), r.0, r.1@),
            _ => r.0 == wm && r.1@.len() == 0,
        },
{
    match *arg {
        Arg::I(steps) => {
            let target = relTarget(&wm, steps);
            switchTo(wm, target)
        },
        _ => (wm, Vec::new()),
    }
}

/// Change to the previously selected workspace, whatever the argument.
pub fn pivotWs<'a>(_arg: &Arg, wm: WM<'a>) -> (r: (WM<'a>, Vec<Action<'a>>))
    requires
        wm.wf(),
    ensures
        r.0.wf(),
        switched(wm, wm.oldwsindex + 1, r.0, r.1@),
{
    let n: usize = wm.wss.len();
    let target: usize = wm.oldwsindex + 1;
    switchTo(wm, target)
}

/// Quits the window manager: it runs no longer.
pub fn quit<'a>(_arg: &Arg, wm: WM<'a>) -> (r: (WM<'a>, Vec<Action<'a>>))
    ensures
        r.0 == (WM { running: false, ..wm }),
        r.1@.len() == 0,
{
    (WM { running: false, ..wm }, Vec::new())
}

/// What starting a command leaves to do: one instruction where the argument
/// holds a command line, none where it is of another kind.
pub open spec fn spawned<'a>(arg: Arg<'a>) -> Seq<Action<'a>> {
    match arg {
        Arg::S(s) => seq![Action::Spawn(s)],
        _ => Seq::empty(),
    }
}

/// Executes a shell command: the state stays, and the command line in the
/// argument is handed out to be started.
pub fn spawn<'a>(arg: &Arg<'a>, wm: WM<'a>) -> (r: (WM<'a>, Vec<Action<'a>>))
    ensures
        r.0 == wm,
        r.1@ == spawned(*arg),
{
    let mut actions: Vec<Action<'a>> = Vec::new();
    match *arg {
        Arg::S(s) => {
            actions.push(Action::Spawn(s));
            assert(actions@ =~= seq![Action::Spawn(s)]);
        },
        _ => {
            assert(actions@ =~= Seq::empty());
        },
    }
    (wm, actions)
}

/// What starts every command of a sequence, in order.
pub open spec fn spawn_all<'a>(cmds: Seq<&'a str>) -> Seq<Action<'a>> {
    Seq::new(cmds.len(), |i: int| Action::Spawn(cmds[i]))
}

/// Hands out the commands to execute at the start, in their order.
pub fn executeStartCmds<'a>(wm: WM<'a>) -> (r: (WM<'a>, Vec<Action<'a>>))
    ensures
        r.0 == wm,
        r.1@ == spawn_all(config::start_commands()),
{
    let cmds = config::startCmds();
    let n = cmds.len();
    let mut actions: Vec<Action<'a>> = Vec::new();
    let mut i: usize = 0;
    while i < n
        invariant
            n == cmds@.len(),
            cmds@ == config::start_commands(),
            i <= n,
            actions@.len() == i,
            forall|j: int| 0 <= j < i ==> #[trigger] actions@[j] == Action::Spawn(cmds@[j]),
        decreases n - i,
    {
        actions.push(Action::Spawn(cmds[i]));
        i += 1;
    }
    assert(actions@ =~= spawn_all(config::start_commands()));
    (wm, actions)
}

/// What a move of the pointed window to workspace `target`, counted from one,
/// makes of a state. Where `target` names a workspace other than the selected
/// one and the selected one holds the window, its client is passed on to the
/// head of that workspace, both workspaces are arranged anew, the window is
/// hidden, and the bar is refreshed. Otherwise nothing happens.
pub open spec fn moved<'a>(
    wm: WM<'a>,
    target: int,
    pointed: u64,
    r: WM<'a>,
    actions: Seq<Action<'a>>,
) -> bool {
    let s = wm.selwsindex as int;
    if switch_valid(wm, target) && holds(wm.wss@[s].clients@, pointed) {
        exists|i: int, told: Seq<Action<'a>>|
            {
                &&& #[trigger] first_at(wm.wss@[s].clients@, pointed, i)
                &&& #[trigger] passed_on(wm, i, target - 1, r, told)
                &&& actions == told + seq![Action::Hide(pointed), Action::UpdateStatus]
            }
    } else {
        r == wm && actions.len() == 0
    }
}

/// Where the move to workspace `target`, counted from one, takes place, the
/// selected workspace holds the pointed window no longer afterwards, and its
/// client is the first of the target workspace.
pub open spec fn handed_over(wm: WM, target: int, pointed: u64, r: WM) -> bool {
    switch_valid(wm, target) && holds(wm.wss@[wm.selwsindex as int].clients@, pointed) ==> !holds(
        r.wss@[wm.selwsindex as int].clients@,
        pointed,
    ) && first_at(r.wss@[target - 1].clients@, pointed, 0)
}

/// Moves the client of the window under the pointer from the selected
/// workspace to workspace `target`, counted from one, as `moved` says. After a
/// move the selected workspace holds the window no longer, and the client is
/// the first of the other workspace. In every case as many clients are
/// managed as before, and the same windows, and the registry's invariant holds.
pub fn moveClientToWorkspace<'a>(wm: WM<'a>, target: usize, pointed: u64) -> (r: (
    WM<'a>,
    Vec<Action<'a>>,
))
    requires
        wm.wf(),
    ensures
        r.0.wf(),
        moved(wm, target as int, pointed, r.0, r.1@),
        handed_over(wm, target as int, pointed, r.0),
        client_count(r.0.wss@) == client_count(wm.wss@),
        forall|win: u64| manages(r.0.wss@, win) <==> manages(wm.wss@, win),
        r.0.selwsindex == wm.selwsindex && r.0.oldwsindex == wm.oldwsindex,
{
    if target > 0 && target <= wm.wss.len() && target - 1 != wm.selwsindex {
        match findClient(&wm.wss[wm.selwsindex].clients, pointed) {
            Some(i) => {
                let ghost before = wm;
                let (wm, mut actions) = moveClient(wm, i, target - 1);
                let ghost told = actions@;
                actions.push(Action::Hide(pointed));
                actions.push(Action::UpdateStatus);
                proof {
                    assert(actions@ =~= told + seq![Action::Hide(pointed), Action::UpdateStatus]);
                    assert(first_at(
                        before.wss@[before.selwsindex as int].clients@,
                        pointed,
                        i as int,
                    ));
                    assert(passed_on(before, i as int, target - 1, wm, told));
                }
                (wm, actions)
            },
            None => (wm, Vec::new()),
        }
    } else {
        (wm, Vec::new())
    }
}

/// Moves a client to another workspace: the argument holds the workspace's
/// number, counted from one, and `pointed` is the window under the pointer.
/// An argument of another kind changes nothing. After a move the selected
/// workspace holds the window no longer, and the client is the first of the
/// other workspace. In every case as many clients are managed as before, and
/// the same windows.
pub fn moveClientToWs<'a>(arg: &Arg, wm: WM<'a>, pointed: u64) -> (r: (WM<'a>, Vec<Action<'a>>))
    requires
        wm.wf(),
    ensures
        r.0.wf(),
        match *arg {
            Arg::U(index) => moved(wm, index as int, pointed, r.0, r.1@) && handed_over(
                wm,
                index as int,
                pointed,
                r.0,
            ),
            _ => r.0 == wm && r.1@.len() == 0,
        },
        client_count(r.0.wss@) == client_count(wm.wss@),
        forall|win: u64| manages(r.0.wss@, win) <==> manages(wm.wss@, win),
{
    match *arg {
        Arg::U(index) => moveClientToWorkspace(wm, index as usize, pointed),
        _ => (wm, Vec::new()),
    }
}

/// Moves a client to another workspace relative to the current one: the
/// argument holds the number of positions to move the client forward (>0) or
/// backwards (<0). An argument of another kind changes nothing. After a move
/// the selected workspace holds the window no longer, and the client is the
/// first of the other workspace. In every case as many clients are managed as
/// before, and the same windows.
pub fn moveClientToWsRel<'a>(arg: &Arg, wm: WM<'a>, pointed: u64) -> (r: (WM<'a>, Vec<Action<'a>>))
    requires
        wm.wf(),
    ensures
        r.0.wf(),
        match *arg {
            Arg::I(steps) => moved(wm, rel_target(wm, steps as int), pointed, r.0, r.1@)
                && handed_over(wm, rel_target(wm, steps as int), pointed, r.0),
            _ => r.0 == wm && r.1@.len() == 0,
        },
        client_count(r.0.wss@) == client_count(wm.wss@),
        forall|win: u64| manages(r.0.wss@, win) <==> manages(wm.wss@, win),
{
    match *arg {
        Arg::I(steps) => {
            let target = relTarget(&wm, steps);
            moveClientToWorkspace(wm, target, pointed)
        },
        _ => (wm, Vec::new()),
    }
}

/// Moves a client to the previously selected workspace, whatever the
/// argument. After a move the selected workspace holds the window no longer,
/// and the client is the first of the other workspace. In every case as many
/// clients are managed as before, and the same windows.
pub fn pivotClientToWs<'a>(_arg: &Arg, wm: WM<'a>, pointed: u64) -> (r: (WM<'a>, Vec<Action<'a>>))
    requires
        wm.wf(),
    ensures
        r.0.wf(),
        moved(wm, wm.oldwsindex + 1, pointed, r.0, r.1@),
        handed_over(wm, wm.oldwsindex + 1, pointed, r.0),
        client_count(r.0.wss@) == client_count(wm.wss@),
        forall|win: u64| manages(r.0.wss@, win) <==> manages(wm.wss@, win),
{
    let n: usize = wm.wss.len();
    let target: usize = wm.oldwsindex + 1;
    moveClientToWorkspace(wm, target, pointed)
}

/// What closing the pointed window makes of a state. A managed window's
/// client leaves its workspace as `gave_up` says, and before the clients left
/// there are told their geometry, the window is closed. A window that is not
/// managed changes nothing.
pub open spec fn closed<'a>(wm: WM<'a>, pointed: u64, r: WM<'a>, actions: Seq<Action<'a>>) -> bool {
    if manages(wm.wss@, pointed) {
        exists|told: Seq<Action<'a>>| #[trigger]
            gave_up(wm, pointed, r, told) && actions == seq![Action::Destroy(pointed)] + told
    } else {
        r == wm && actions.len() == 0
    }
}

/// Closes the client of the window under the pointer, whatever the argument,
/// as `closed` says. Afterwards the window is not managed, all others are as
/// before, and the registry's invariant holds.
pub fn closeClient<'a>(_arg: &Arg, wm: WM<'a>, pointed: u64) -> (r: (WM<'a>, Vec<Action<'a>>))
    requires
        wm.wf(),
    ensures
        r.0.wf(),
        closed(wm, pointed, r.0, r.1@),
        forall|win: u64| manages(r.0.wss@, win) <==> (win != pointed && manages(wm.wss@, win)),
        client_count(r.0.wss@) == client_count(wm.wss@) - (if manages(wm.wss@, pointed) {
            1int
        } else {
            0int
        }),
{
    let ghost before = wm;
    let was_managed = wm::locate(&wm.wss, pointed).is_some();
    let (wm, mut told) = unManage(wm, pointed);
    if was_managed {
        let mut actions: Vec<Action<'a>> = Vec::new();
        actions.push(Action::Destroy(pointed));
        let ghost t = told@;
        actions.append(&mut told);
        proof {
            assert(actions@ =~= seq![Action::Destroy(pointed)] + t);
            assert(gave_up(before, pointed, wm, t));
        }
        (wm, actions)
    } else {
        (wm, told)
    }
}

/// What a command makes of a state, by the kind of the command.
pub open spec fn command_result<'a>(
    func: Command,
    arg: Arg<'a>,
    wm: WM<'a>,
    pointed: u64,
    r: WM<'a>,
    actions: Seq<Action<'a>>,
) -> bool {
    match func {
        Command::Spawn => r == wm && actions == spawned(arg),
        Command::Quit => r == (WM { running: false, ..wm }) && actions.len() == 0,
        Command::CloseClient => closed(wm, pointed, r, actions),
        Command::ChangeWs => match arg {
            Arg::U(index) => switched(wm, index as int, r, actions),
            _ => r == wm && actions.len() == 0,
        },
        Command::ChangeWsRel => match arg {
            Arg::I(steps) => switched(wm, rel_target(wm, steps as int), r, actions),
            _ => r == wm && actions.len() == 0,
        },
        Command::PivotWs => switched(wm, wm.oldwsindex + 1, r, actions),
        Command::MoveClientToWs => match arg {
            Arg::U(index) => moved(wm, index as int, pointed, r, actions),
            _ => r == wm && actions.len() == 0,
        },
        Command::MoveClientToWsRel => match arg {
            Arg::I(steps) => moved(wm, rel_target(wm, steps as int), pointed, r, actions),
            _ => r == wm && actions.len() == 0,
        },
        Command::PivotClientToWs => moved(wm, wm.oldwsindex + 1, pointed, r, actions),
    }
}

/// Runs the command `func` with its argument against the state; `pointed` is
/// the window under the pointer, for the commands that act on it.
pub fn runCommand<'a>(func: Command, arg: &Arg<'a>, wm: WM<'a>, pointed: u64) -> (r: (
    WM<'a>,
    Vec<Action<'a>>,
))
    requires
        wm.wf(),
    ensures
        r.0.wf(),
        command_result(func, *arg, wm, pointed, r.0, r.1@),
{
    match func {
        Command::Spawn => spawn(arg, wm),
        Command::Quit => quit(arg, wm),
        Command::CloseClient => closeClient(arg, wm, pointed),
        Command::ChangeWs => changeWs(arg, wm),
        Command::ChangeWsRel => changeWsRel(arg, wm),
        Command::PivotWs => pivotWs(arg, wm),
        Command::MoveClientToWs => moveClientToWs(arg, wm, pointed),
        Command::MoveClientToWsRel => moveClientToWsRel(arg, wm, pointed),
        Command::PivotClientToWs => pivotClientToWs(arg, wm, pointed),
    }
}

/// The byte that parts the words of a command line: a space.
pub const WORD_SEPARATOR: u8 = 32;

/// The words put together again, with one separator between each two.
pub open spec fn joined(words: Seq<Seq<u8>>) -> Seq<u8>
    decreases words.len(),
{
    if words.len() == 0 {
        Seq::empty()
    } else if words.len() == 1 {
        words[0]
    } else {
        joined(words.drop_last()) + seq![WORD_SEPARATOR] + words.last()
    }
}

/// The views of the words of a vector.
pub open spec fn word_views(words: Seq<Vec<u8>>) -> Seq<Seq<u8>> {
    Seq::new(words.len(), |i: int| words[i]@)
}

/// Parts a command line into its words at every single space: the program's
/// name comes first, its arguments follow. No word holds a space, and the
/// words joined by spaces are the line again; so two spaces in a row part an
/// empty word, and an empty line is one empty word.
pub fn commandWords(line: &[u8]) -> (words: Vec<Vec<u8>>)
    ensures
        words@.len() >= 1,
        joined(word_views(words@)) == line@,
        forall|i: int, j: int|
            0 <= i < words@.len() && 0 <= j < words@[i]@.len() ==> #[trigger] words@[i]@[j]
                != WORD_SEPARATOR,
{
    let n = line.len();
    let mut words: Vec<Vec<u8>> = Vec::new();
    let mut word: Vec<u8> = Vec::new();
    let mut i: usize = 0;
    assert(word_views(words@).push(word@) =~= seq![Seq::<u8>::empty()]);
    assert(line@.take(0) =~= Seq::<u8>::empty());
    while i < n
        invariant
            n == line@.len(),
            i <= n,
            joined(word_views(words@).push(word@)) == line@.take(i as int),
            forall|a: int, b: int|
                0 <= a < words@.len() && 0 <= b < words@[a]@.len() ==> #[trigger] words@[a]@[b]
                    != WORD_SEPARATOR,
            forall|b: int| 0 <= b < word@.len() ==> #[trigger] word@[b] != WORD_SEPARATOR,
        decreases n - i,
    {
        let byte = line[i];
        let ghost done = word_views(words@);
        let ghost current = word@;
        assert(line@.take(i as int + 1) =~= line@.take(i as int).push(byte));
        if byte == WORD_SEPARATOR {
            words.push(word);
            word = Vec::new();
            proof {
                assert(word_views(words@) =~= done.push(current));
                let all = word_views(words@).push(word@);
                assert(all.drop_last() =~= done.push(current));
                assert(all.last() =~= Seq::<u8>::empty());
                assert(joined(all) =~= line@.take(i as int).push(byte));
            }
        } else {
            word.push(byte);
            proof {
                let before = done.push(current);
                let all = done.push(word@);
                assert(all.last() =~= current.push(byte));
                if done.len() == 0 {
                    assert(before[0] == current);
                    assert(all[0] == word@);
                } else {
                    assert(all.drop_last() =~= done);
                    assert(before.drop_last() =~= done);
                    assert(before.last() == current);
                    assert(joined(all) =~= joined(before).push(byte));
                }
            }
        }
        i += 1;
    }
    let ghost done = word_views(words@);
    let ghost current = word@;
    words.push(word);
    proof {
        assert(word_views(words@) =~= done.push(current));
        assert(line@.take(n as int) =~= line@);
    }
    words
}

} // verus!
