use vstd::prelude::*;

use crate::config;
use crate::display::{configure_of, Action, ConfigureRequest};
use crate::wm::client::{configure, Client, WindowAttributes};
use crate::wm::workspace::first_at;
use crate::wm::{
    gave_up, held_in, locate, manage, manages, setBorderWidth, took_in, unManage, WM,
};
use crate::{command_result, runCommand, Button, Click, Key};

verus! {

/// The bit of a configure request's mask that says it asks for a border width.
pub const CWBorderWidth: u64 = 0x10;

/// What the display server reports, one value for each event the window
/// manager acts on, with the fields it reads.
#[derive(Clone, Copy, Debug, PartialEq, Eq)]
pub enum Event {
    /// A window asks for a new configuration.
    ConfigureRequest(ConfigureRequest),
    /// The root window's geometry has changed.
    ConfigureNotify,
    /// A window is gone.
    DestroyNotify { window: u64 },
    /// A key was pressed: its symbol, the modifiers held, and the window under
    /// the pointer at that time.
    KeyPress { keysym: u64, state: u32, pointed: u64 },
    /// A button was pressed on a window.
    ButtonPress { window: u64, button: u32, state: u32, pointed: u64 },
    /// A window asks to be shown; its attributes, where they could be read.
    MapRequest { window: u64, attributes: Option<WindowAttributes> },
    /// A property of a window has changed.
    PropertyNotify { window: u64 },
    /// Any other event.
    Other,
}

/// The modifier state without the lock bits: caps lock and num lock do not
/// count when a key binding is looked up.
pub open spec fn clean(mask: u32, numlockmask: u32) -> u32 {
    mask & !(numlockmask | config::LockMask)
}

/// Normalizes a modifier state: masks the lock bits out.
pub fn cleanmask(mask: u32, numlockmask: u32) -> (r: u32)
    ensures
        r == clean(mask, numlockmask),
        r & config::LockMask == 0,
        r & numlockmask == 0,
        clean(r, numlockmask) == r,
{
    let r: u32 = mask & !(numlockmask | config::LockMask);
    assert(r & 0x02 == 0 && r & numlockmask == 0 && r & !(numlockmask | 0x02) == r) by (bit_vector)
        requires
            r == mask & !(numlockmask | 0x02),
    ;
    r
}

/// The border width that a managed client has after a configure request: the
/// one asked for, where the request asks for one that is not negative; the
/// one it had, otherwise.
pub open spec fn honored_border(c: Client, ev: ConfigureRequest) -> u32 {
    if ev.value_mask & CWBorderWidth != 0 && ev.border_width >= 0 {
        ev.border_width as u32
    } else {
        c.bw
    }
}

/// What a configure request makes of a state. Of a managed window only the
/// border width is taken over; the window is told the geometry that it has
/// by the layout, not the one it asked for. The request of any other window
/// is granted as it stands. Then the display server is waited for.
pub open spec fn configure_requested<'a>(
    wm: WM<'a>,
    ev: ConfigureRequest,
    r: WM<'a>,
    actions: Seq<Action<'a>>,
) -> bool {
    if manages(wm.wss@, ev.window) {
        exists|k: int, i: int|
            {
                let c = wm.wss@[k].clients@[i];
                let c2 = Client { bw: honored_border(c, ev), ..c };
                &&& #[trigger] held_in(wm.wss@, k, ev.window)
                &&& #[trigger] first_at(wm.wss@[k].clients@, ev.window, i)
                &&& r == (WM { wss: r.wss, ..wm })
                &&& crate::wm::same_but_clients_of(wm.wss@, r.wss@, k)
                &&& r.wss@[k].clients@ == wm.wss@[k].clients@.update(i, c2)
                &&& actions == seq![configure_of(c2), Action::Sync]
            }
    } else {
        r == wm && actions == seq![Action::ConfigureWindow(ev), Action::Sync]
    }
}

/// Handles a ConfigureRequest event: before changing the configuration of a
/// window.
pub fn configureRequest<'a>(wm: WM<'a>, ev: &ConfigureRequest) -> (r: (WM<'a>, Vec<Action<'a>>))
    requires
        wm.wf(),
    ensures
        r.0.wf(),
        configure_requested(wm, *ev, r.0, r.1@),
        forall|win: u64| manages(r.0.wss@, win) <==> manages(wm.wss@, win),
{
    let mut actions: Vec<Action<'a>> = Vec::new();
    match locate(&wm.wss, ev.window) {
        Some((k, i)) => {
            let ghost before = wm;
            let c = wm.wss[k].clients[i];
            let bw: u32 = if ev.value_mask & CWBorderWidth != 0 && ev.border_width >= 0 {
                ev.border_width as u32
            } else {
                c.bw
            };
            let wm = setBorderWidth(wm, k, i, bw);
            let c2 = wm.wss[k].clients[i];
            actions.push(configure(&c2));
            actions.push(Action::Sync);
            proof {
                assert(actions@ =~= seq![configure_of(c2), Action::Sync]);
                assert(held_in(before.wss@, k as int, ev.window));
                assert(first_at(before.wss@[k as int].clients@, ev.window, i as int));
            }
            (wm, actions)
        },
        None => {
            actions.push(Action::ConfigureWindow(*ev));
            actions.push(Action::Sync);
            assert(actions@ =~= seq![Action::ConfigureWindow(*ev), Action::Sync]);
            (wm, actions)
        },
    }
}

/// Handles a ConfigureNotify event: after the root window was reconfigured,
/// the bar is refreshed.
pub fn configureNotify<'a>(wm: WM<'a>) -> (r: (WM<'a>, Vec<Action<'a>>))
    ensures
        r.0 == wm,
        r.1@ == seq![Action::UpdateStatus],
{
    let mut actions: Vec<Action<'a>> = Vec::new();
    actions.push(Action::UpdateStatus);
    assert(actions@ =~= seq![Action::UpdateStatus]);
    (wm, actions)
}

/// What the destruction of a window makes of a state: the window is given up
/// as `gave_up` says, and then the bar is refreshed.
pub open spec fn destroyed<'a>(wm: WM<'a>, window: u64, r: WM<'a>, actions: Seq<Action<'a>>) -> bool {
    exists|told: Seq<Action<'a>>| #[trigger]
        gave_up(wm, window, r, told) && actions == told + seq![Action::UpdateStatus]
}

/// Handles window destruction.
pub fn destroyNotify<'a>(wm: WM<'a>, window: u64) -> (r: (WM<'a>, Vec<Action<'a>>))
    requires
        wm.wf(),
    ensures
        r.0.wf(),
        destroyed(wm, window, r.0, r.1@),
        forall|win: u64| manages(r.0.wss@, win) <==> (win != window && manages(wm.wss@, win)),
{
    let ghost before = wm;
    let (wm, mut actions) = unManage(wm, window);
    let ghost told = actions@;
    actions.push(Action::UpdateStatus);
    proof {
        assert(actions@ =~= told + seq![Action::UpdateStatus]);
        assert(gave_up(before, window, wm, told));
    }
    (wm, actions)
}

/// The key binding answers to the key symbol under the modifier state, lock
/// bits aside.
pub open spec fn key_matches(key: Key, keysym: u64, state: u32, numlockmask: u32) -> bool {
    keysym == key.keysym && clean(state, numlockmask) == clean(key.modif, numlockmask)
}

/// `i` is the place of the first binding of the table that answers to the key.
pub open spec fn first_binding(
    keys: Seq<Key>,
    keysym: u64,
    state: u32,
    numlockmask: u32,
    i: int,
) -> bool {
    &&& 0 <= i < keys.len()
    &&& key_matches(keys[i], keysym, state, numlockmask)
    &&& forall|j: int| 0 <= j < i ==> !key_matches(#[trigger] keys[j], keysym, state, numlockmask)
}

/// No binding of the table answers to the key.
pub open spec fn unbound(keys: Seq<Key>, keysym: u64, state: u32, numlockmask: u32) -> bool {
    forall|j: int| 0 <= j < keys.len() ==> !key_matches(#[trigger] keys[j], keysym, state, numlockmask)
}

/// What a key press makes of a state, under a table of bindings: the command
/// of the first binding that answers to the key runs with its argument; a
/// key that no binding answers to changes nothing.
pub open spec fn key_pressed<'a>(
    wm: WM<'a>,
    keys: Seq<Key<'a>>,
    keysym: u64,
    state: u32,
    pointed: u64,
    r: WM<'a>,
    actions: Seq<Action<'a>>,
) -> bool {
    if unbound(keys, keysym, state, wm.numlockmask) {
        r == wm && actions.len() == 0
    } else {
        exists|i: int| #[trigger]
            first_binding(keys, keysym, state, wm.numlockmask, i) && command_result(
                keys[i].func,
                keys[i].arg,
                wm,
                pointed,
                r,
                actions,
            )
    }
}

/// Handles a key press under a table of bindings.
pub fn keyPressWith<'a>(wm: WM<'a>, keys: &Vec<Key<'a>>, keysym: u64, state: u32, pointed: u64) -> (r:
    (WM<'a>, Vec<Action<'a>>))
    requires
        wm.wf(),
    ensures
        r.0.wf(),
        key_pressed(wm, keys@, keysym, state, pointed, r.0, r.1@),
{
    let n = keys.len();
    let mask = wm.numlockmask;
    let mut i: usize = 0;
    while i < n
        invariant
            n == keys@.len(),
            mask == wm.numlockmask,
            wm.wf(),
            i <= n,
            forall|j: int| 0 <= j < i ==> !key_matches(#[trigger] keys@[j], keysym, state, mask),
        decreases n - i,
    {
        if keysym == keys[i].keysym && cleanmask(state, mask) == cleanmask(keys[i].modif, mask) {
            assert(first_binding(keys@, keysym, state, mask, i as int));
            return runCommand(keys[i].func, &keys[i].arg, wm, pointed);
        }
        i += 1;
    }
    (wm, Vec::new())
}

/// Handles a KeyPress event under the configured key bindings.
pub fn keyPress<'a>(wm: WM<'a>, keysym: u64, state: u32, pointed: u64) -> (r: (
    WM<'a>,
    Vec<Action<'a>>,
))
    requires
        wm.wf(),
    ensures
        r.0.wf(),
        key_pressed(wm, config::key_table(), keysym, state, pointed, r.0, r.1@),
{
    let keys: Vec<Key<'a>> = config::keys();
    keyPressWith(wm, &keys, keysym, state, pointed)
}

/// What a request of a window to be shown makes of a state: a window whose
/// attributes cannot be read, or that asks to be left alone, is ignored; any
/// other is taken under management as `took_in` says.
pub open spec fn map_requested<'a>(
    wm: WM<'a>,
    window: u64,
    attributes: Option<WindowAttributes>,
    r: WM<'a>,
    actions: Seq<Action<'a>>,
) -> bool {
    match attributes {
        Some(wa) => if wa.override_redirect {
            r == wm && actions.len() == 0
        } else {
            took_in(wm, window, wa, r, actions)
        },
        None => r == wm && actions.len() == 0,
    }
}

/// Handles a MapRequest event.
pub fn mapRequest<'a>(wm: WM<'a>, window: u64, attributes: Option<WindowAttributes>) -> (r: (
    WM<'a>,
    Vec<Action<'a>>,
))
    requires
        wm.wf(),
    ensures
        r.0.wf(),
        map_requested(wm, window, attributes, r.0, r.1@),
{
    match attributes {
        Some(wa) => {
            if wa.override_redirect {
                (wm, Vec::new())
            } else {
                manage(wm, window, wa)
            }
        },
        None => (wm, Vec::new()),
    }
}

/// What a change of a property asks for: a refresh of the bar where the
/// property is one of the root window, nothing otherwise.
pub open spec fn property_notified<'a>(wm: WM<'a>, window: u64) -> Seq<Action<'a>> {
    if window == wm.root {
        seq![Action::UpdateStatus]
    } else {
        Seq::empty()
    }
}

/// Handles a PropertyNotify event.
pub fn propertyNotify<'a>(wm: WM<'a>, window: u64) -> (r: (WM<'a>, Vec<Action<'a>>))
    ensures
        r.0 == wm,
        r.1@ == property_notified(wm, window),
{
    let mut actions: Vec<Action<'a>> = Vec::new();
    if window == wm.root {
        actions.push(Action::UpdateStatus);
        assert(actions@ =~= seq![Action::UpdateStatus]);
    } else {
        assert(actions@ =~= Seq::empty());
    }
    (wm, actions)
}

/// What a click on a window is aimed at: the bar, where the window is the
/// selected workspace's bar window; a client, where the window is managed;
/// the root window otherwise.
pub open spec fn click_target(wm: WM, window: u64) -> Click {
    if window == wm.wss@[wm.selwsindex as int].barwin {
        Click::ClkTagBar
    } else if manages(wm.wss@, window) {
        Click::ClkClientWin
    } else {
        Click::ClkRootWin
    }
}

/// Resolves what a click on a window is aimed at.
pub fn clickTarget(wm: &WM, window: u64) -> (c: Click)
    requires
        wm.wf(),
    ensures
        c == click_target(*wm, window),
{
    if window == wm.wss[wm.selwsindex].barwin {
        Click::ClkTagBar
    } else if locate(&wm.wss, window).is_some() {
        Click::ClkClientWin
    } else {
        Click::ClkRootWin
    }
}

/// The button binding answers to a button pressed on a target under the
/// modifier state, lock bits aside.
pub open spec fn button_matches(
    b: Button,
    click: Click,
    button: u32,
    state: u32,
    numlockmask: u32,
) -> bool {
    b.click == click && b.button == button && clean(state, numlockmask) == clean(b.mask, numlockmask)
}

/// What a button press makes of a state, under a table of bindings: the
/// command of the first binding that answers to the button and to what the
/// click is aimed at runs with its argument; without such a binding nothing
/// changes.
pub open spec fn button_pressed<'a>(
    wm: WM<'a>,
    buttons: Seq<Button<'a>>,
    window: u64,
    button: u32,
    state: u32,
    pointed: u64,
    r: WM<'a>,
    actions: Seq<Action<'a>>,
) -> bool {
    let click = click_target(wm, window);
    if forall|j: int|
        0 <= j < buttons.len() ==> !button_matches(
            #[trigger] buttons[j],
            click,
            button,
            state,
            wm.numlockmask,
        ) {
        r == wm && actions.len() == 0
    } else {
        exists|i: int|
            {
                &&& 0 <= i < buttons.len()
                &&& #[trigger] button_matches(buttons[i], click, button, state, wm.numlockmask)
                &&& forall|j: int|
                    0 <= j < i ==> !button_matches(
                        #[trigger] buttons[j],
                        click,
                        button,
                        state,
                        wm.numlockmask,
                    )
                &&& command_result(buttons[i].func, buttons[i].arg, wm, pointed, r, actions)
            }
    }
}

/// Handles a button press under a table of bindings.
pub fn buttonPressWith<'a>(
    wm: WM<'a>,
    buttons: &Vec<Button<'a>>,
    window: u64,
    button: u32,
    state: u32,
    pointed: u64,
) -> (r: (WM<'a>, Vec<Action<'a>>))
    requires
        wm.wf(),
    ensures
        r.0.wf(),
        button_pressed(wm, buttons@, window, button, state, pointed, r.0, r.1@),
{
    let click = clickTarget(&wm, window);
    let n = buttons.len();
    let mask = wm.numlockmask;
    let mut i: usize = 0;
    while i < n
        invariant
            n == buttons@.len(),
            mask == wm.numlockmask,
            click == click_target(wm, window),
            wm.wf(),
            i <= n,
            forall|j: int|
                0 <= j < i ==> !button_matches(#[trigger] buttons@[j], click, button, state, mask),
        decreases n - i,
    {
        if buttons[i].click == click && buttons[i].button == button && cleanmask(state, mask)
            == cleanmask(buttons[i].mask, mask) {
            assert(button_matches(buttons@[i as int], click, button, state, mask));
            return runCommand(buttons[i].func, &buttons[i].arg, wm, pointed);
        }
        i += 1;
    }
    (wm, Vec::new())
}

/// Handles a button press under the configured button bindings, of which
/// there are none: nothing changes.
pub fn buttonPress<'a>(wm: WM<'a>, window: u64, button: u32, state: u32, pointed: u64) -> (r: (
    WM<'a>,
    Vec<Action<'a>>,
))
    requires
        wm.wf(),
    ensures
        r.0 == wm,
        r.1@.len() == 0,
{
    let buttons: Vec<Button<'a>> = config::buttons();
    buttonPressWith(wm, &buttons, window, button, state, pointed)
}

/// What an event makes of a state, by the kind of the event. An event of a
/// kind that the window manager does not act on changes nothing.
pub open spec fn event_result<'a>(wm: WM<'a>, ev: Event, r: WM<'a>, actions: Seq<Action<'a>>) -> bool {
    match ev {
        Event::ConfigureRequest(req) => configure_requested(wm, req, r, actions),
        Event::ConfigureNotify => r == wm && actions == seq![Action::UpdateStatus],
        Event::DestroyNotify { window } => destroyed(wm, window, r, actions),
        Event::KeyPress { keysym, state, pointed } => key_pressed(
            wm,
            config::key_table(),
            keysym,
            state,
            pointed,
            r,
            actions,
        ),
        Event::ButtonPress { window, button, state, pointed } => r == wm && actions.len() == 0,
        Event::MapRequest { window, attributes } => map_requested(wm, window, attributes, r, actions),
        Event::PropertyNotify { window } => r == wm && actions == property_notified(wm, window),
        Event::Other => r == wm && actions.len() == 0,
    }
}

/// Handles an event: exactly one handler runs, the one of the event's kind.
/// The registry's invariant holds afterwards as it did before.
pub fn handleEvent<'a>(wm: WM<'a>, ev: &Event) -> (r: (WM<'a>, Vec<Action<'a>>))
    requires
        wm.wf(),
    ensures
        r.0.wf(),
        event_result(wm, *ev, r.0, r.1@),
{
    match *ev {
        Event::ConfigureRequest(req) => configureRequest(wm, &req),
        Event::ConfigureNotify => configureNotify(wm),
        Event::DestroyNotify { window } => destroyNotify(wm, window),
        Event::KeyPress { keysym, state, pointed } => keyPress(wm, keysym, state, pointed),
        Event::ButtonPress { window, button, state, pointed } => buttonPress(
            wm,
            window,
            button,
            state,
            pointed,
        ),
        Event::MapRequest { window, attributes } => mapRequest(wm, window, attributes),
        Event::PropertyNotify { window } => propertyNotify(wm, window),
        Event::Other => (wm, Vec::new()),
    }
}

/// The error codes of requests that named a window which had vanished by
/// then: bad window, bad match, bad drawable and bad access.
pub open spec fn ignorable(error_code: u8) -> bool {
    error_code == 3 || error_code == 8 || error_code == 9 || error_code == 10
}

/// Tells the errors that the window manager passes over from those that are
/// fatal. Passed over are those of requests against a window that has
/// vanished.
pub fn xerror(error_code: u8) -> (r: bool)
    ensures
        r == ignorable(error_code),
{
    error_code == 3 || error_code == 8 || error_code == 9 || error_code == 10
}

} // verus!
