use dwm_rust::config;
use dwm_rust::display::{Action, ConfigureRequest};
use dwm_rust::drw::fnt::createFont;
use dwm_rust::drw::{createDrw, loadFonts};
use dwm_rust::events::{
    buttonPress, buttonPressWith, cleanmask, clickTarget, configureNotify, configureRequest,
    destroyNotify, handleEvent, keyPress, keyPressWith, mapRequest, propertyNotify, xerror, Event,
};
use dwm_rust::wm::client::WindowAttributes;
use dwm_rust::wm::{createWorkspaces, initWm, updateBars, WM};
use dwm_rust::{Arg, Button, Click, Command, Key};

fn attrs(override_redirect: bool) -> WindowAttributes {
    WindowAttributes { x: 1, y: 2, width: 30, height: 40, border_width: 0, override_redirect }
}

fn new_wm() -> WM<'static> {
    let font = createFont(10, 4).unwrap();
    let drw = loadFonts(createDrw(0, 1, 900, 600, 7), vec![font]);
    createWorkspaces(initWm(drw, 0, 1, 900, 600, vec![], vec![], vec![], vec![]))
}

fn with_clients(wins: &[u64]) -> WM<'static> {
    let mut wm = new_wm();
    for w in wins {
        wm = mapRequest(wm, *w, Some(attrs(false))).0;
    }
    wm
}

fn handles(wm: &WM, k: usize) -> Vec<u64> {
    wm.wss[k].clients.iter().map(|c| c.win).collect()
}

fn request(window: u64, border_width: i32, value_mask: u64) -> ConfigureRequest {
    ConfigureRequest {
        window,
        x: 100,
        y: 200,
        width: 300,
        height: 400,
        border_width,
        above: 0,
        detail: 0,
        value_mask,
    }
}

#[test]
fn map_request_manages_an_unmanaged_window() {
    let (wm, actions) = handleEvent(new_wm(), &Event::MapRequest { window: 5, attributes: Some(attrs(false)) });
    assert_eq!(handles(&wm, 0), vec![5]);
    assert_eq!(
        actions,
        vec![Action::Configure { win: 5, x: 0, y: 16, w: 900, h: 584, bw: 0 }, Action::Show(5)]
    );
}

#[test]
fn map_request_of_an_override_redirect_window_is_ignored() {
    let (wm, actions) = mapRequest(new_wm(), 5, Some(attrs(true)));
    assert!(actions.is_empty());
    assert!(handles(&wm, 0).is_empty());
}

#[test]
fn map_request_without_attributes_is_ignored() {
    let (wm, actions) = mapRequest(new_wm(), 5, None);
    assert!(actions.is_empty());
    assert!(handles(&wm, 0).is_empty());
}

#[test]
fn map_request_of_a_managed_window_is_ignored() {
    let (wm, actions) = mapRequest(with_clients(&[5, 6]), 5, Some(attrs(false)));
    assert!(actions.is_empty());
    assert_eq!(handles(&wm, 0), vec![6, 5]);
}

#[test]
fn configure_request_of_a_managed_window_keeps_its_geometry() {
    let wm = with_clients(&[5, 6]);
    let (wm, actions) = configureRequest(wm, &request(5, 4, 0x1f));
    assert_eq!(
        actions,
        vec![Action::Configure { win: 5, x: 450, y: 16, w: 450, h: 584, bw: 4 }, Action::Sync]
    );
    let c = wm.wss[0].clients[1];
    assert_eq!((c.win, c.x, c.y, c.w, c.h, c.bw), (5, 450, 16, 450, 584, 4));
    assert_eq!(wm.wss[0].clients[0].bw, 0);
}

#[test]
fn configure_request_takes_the_border_width_only_where_asked() {
    let wm = with_clients(&[5]);
    let (wm, actions) = configureRequest(wm, &request(5, 4, 0x0f));
    assert_eq!(
        actions,
        vec![Action::Configure { win: 5, x: 0, y: 16, w: 900, h: 584, bw: 0 }, Action::Sync]
    );
    let (wm, _) = configureRequest(wm, &request(5, 2, 0x10));
    assert_eq!(wm.wss[0].clients[0].bw, 2);
    let (wm, actions) = configureRequest(wm, &request(5, -1, 0x10));
    assert_eq!(wm.wss[0].clients[0].bw, 2);
    assert_eq!(
        actions,
        vec![Action::Configure { win: 5, x: 0, y: 16, w: 900, h: 584, bw: 2 }, Action::Sync]
    );
}

#[test]
fn configure_request_of_an_unmanaged_window_passes_through() {
    let req = request(9, 4, 0x1f);
    let (wm, actions) = handleEvent(with_clients(&[5]), &Event::ConfigureRequest(req));
    assert_eq!(actions, vec![Action::ConfigureWindow(req), Action::Sync]);
    assert_eq!(handles(&wm, 0), vec![5]);
    assert_eq!(wm.wss[0].clients[0].bw, 0);
}

#[test]
fn configure_notify_refreshes_the_bar() {
    let (wm, actions) = configureNotify(with_clients(&[5]));
    assert_eq!(actions, vec![Action::UpdateStatus]);
    assert_eq!(handles(&wm, 0), vec![5]);
    let (_, actions) = handleEvent(wm, &Event::ConfigureNotify);
    assert_eq!(actions, vec![Action::UpdateStatus]);
}

#[test]
fn destroy_notify_unmanages_and_refreshes_the_bar() {
    let (wm, actions) = destroyNotify(with_clients(&[5, 6, 7]), 6);
    assert_eq!(handles(&wm, 0), vec![7, 5]);
    assert_eq!(
        actions,
        vec![
            Action::Configure { win: 7, x: 0, y: 16, w: 450, h: 584, bw: 0 },
            Action::Configure { win: 5, x: 450, y: 16, w: 450, h: 584, bw: 0 },
            Action::UpdateStatus
        ]
    );
}

#[test]
fn destroy_notify_of_a_vanished_window_is_silent() {
    let (wm, actions) = handleEvent(with_clients(&[5]), &Event::DestroyNotify { window: 99 });
    assert_eq!(actions, vec![Action::UpdateStatus]);
    assert_eq!(handles(&wm, 0), vec![5]);
}

#[test]
fn property_notify_counts_on_the_root_window_only() {
    let wm = with_clients(&[5]);
    let root = wm.root;
    let (wm, actions) = propertyNotify(wm, root);
    assert_eq!(actions, vec![Action::UpdateStatus]);
    let (wm, actions) = propertyNotify(wm, 5);
    assert!(actions.is_empty());
    let (_, actions) = handleEvent(wm, &Event::PropertyNotify { window: root });
    assert_eq!(actions, vec![Action::UpdateStatus]);
}

#[test]
fn unrecognized_events_are_ignored() {
    let (wm, actions) = handleEvent(with_clients(&[5]), &Event::Other);
    assert!(actions.is_empty());
    assert_eq!(handles(&wm, 0), vec![5]);
    assert!(wm.running);
}

#[test]
fn key_press_runs_the_bound_command() {
    let wm = with_clients(&[5, 6]);
    let (wm, actions) = keyPress(wm, config::XK_3, config::MODKEY, 0);
    assert_eq!((wm.selwsindex, wm.oldwsindex), (2, 0));
    assert_eq!(actions, vec![Action::Hide(6), Action::Hide(5), Action::UpdateStatus]);
    let (wm, _) = keyPress(wm, config::XK_1, config::MODKEY, 0);
    let (wm, _) = keyPress(wm, config::XK_4, config::MODKEY | config::ShiftMask, 5);
    assert_eq!(handles(&wm, 0), vec![6]);
    assert_eq!(handles(&wm, 3), vec![5]);
    let (wm, actions) = keyPress(wm, config::XK_q, config::MODKEY | config::ShiftMask, 6);
    assert_eq!(actions, vec![Action::Destroy(6)]);
    assert!(handles(&wm, 0).is_empty());
    let (wm, actions) = keyPress(wm, config::XK_Return, config::MODKEY, 0);
    assert_eq!(actions, vec![Action::Spawn("terminator")]);
    let (wm, actions) = keyPress(wm, config::XK_d, config::MODKEY, 0);
    assert_eq!(actions, vec![Action::Spawn("rofi -show run")]);
    let (wm, _) = keyPress(wm, config::XK_e, config::MODKEY | config::ShiftMask, 0);
    assert!(!wm.running);
}

#[test]
fn key_press_without_a_binding_is_ignored() {
    let wm = with_clients(&[5]);
    let (wm, actions) = keyPress(wm, config::XK_3, 0, 0);
    assert!(actions.is_empty());
    let (wm, actions) = keyPress(wm, config::XK_3, config::ShiftMask, 0);
    assert!(actions.is_empty());
    let (wm, actions) = keyPress(wm, 0x7a, config::MODKEY, 0);
    assert!(actions.is_empty());
    assert_eq!(wm.selwsindex, 0);
    assert!(wm.running);
}

#[test]
fn key_press_does_not_mind_the_lock_bits() {
    let mut wm = with_clients(&[5]);
    wm.numlockmask = 0x10;
    let (wm, _) = handleEvent(
        wm,
        &Event::KeyPress { keysym: config::XK_2, state: config::MODKEY | config::LockMask, pointed: 0 },
    );
    assert_eq!(wm.selwsindex, 1);
    let (wm, _) = keyPress(wm, config::XK_5, config::MODKEY | 0x10, 0);
    assert_eq!(wm.selwsindex, 4);
    let (wm, _) = keyPress(wm, config::XK_6, config::MODKEY | 0x12, 0);
    assert_eq!(wm.selwsindex, 5);
    let (wm, actions) = keyPress(wm, config::XK_7, config::MODKEY | 0x04, 0);
    assert!(actions.is_empty());
    assert_eq!(wm.selwsindex, 5);
}

#[test]
fn key_press_takes_the_first_binding_that_answers() {
    let keys = vec![
        Key { modif: 1, keysym: 10, func: Command::ChangeWs, arg: Arg::U(4) },
        Key { modif: 0, keysym: 10, func: Command::ChangeWs, arg: Arg::U(2) },
        Key { modif: 0, keysym: 10, func: Command::ChangeWs, arg: Arg::U(3) },
    ];
    let (wm, _) = keyPressWith(new_wm(), &keys, 10, 0, 0);
    assert_eq!(wm.selwsindex, 1);
    let (wm, _) = keyPressWith(wm, &keys, 10, 1, 0);
    assert_eq!(wm.selwsindex, 3);
    let (wm, actions) = keyPressWith(wm, &keys, 11, 0, 0);
    assert!(actions.is_empty());
    let (wm, actions) = keyPressWith(wm, &Vec::new(), 10, 0, 0);
    assert!(actions.is_empty());
    assert_eq!(wm.selwsindex, 3);
}

#[test]
fn button_press_is_ignored_without_bindings() {
    let (wm, actions) = buttonPress(with_clients(&[5]), 5, 1, 0, 5);
    assert!(actions.is_empty());
    assert_eq!(handles(&wm, 0), vec![5]);
    let (_, actions) =
        handleEvent(wm, &Event::ButtonPress { window: 5, button: 1, state: 0, pointed: 5 });
    assert!(actions.is_empty());
}

#[test]
fn click_target_is_resolved_by_window() {
    let wm = updateBars(with_clients(&[5]), 77);
    assert_eq!(clickTarget(&wm, 77), Click::ClkTagBar);
    assert_eq!(clickTarget(&wm, 5), Click::ClkClientWin);
    assert_eq!(clickTarget(&wm, 1), Click::ClkRootWin);
    assert_eq!(clickTarget(&wm, 1234), Click::ClkRootWin);
}

#[test]
fn button_press_runs_the_binding_of_its_target() {
    let buttons = vec![
        Button { click: Click::ClkTagBar, mask: 0, button: 1, func: Command::ChangeWs, arg: Arg::U(2) },
        Button { click: Click::ClkClientWin, mask: 0x40, button: 1, func: Command::CloseClient, arg: Arg::I(0) },
        Button { click: Click::ClkRootWin, mask: 0, button: 3, func: Command::Spawn, arg: Arg::S("menu") },
    ];
    let wm = updateBars(with_clients(&[5]), 77);
    let (wm, actions) = buttonPressWith(wm, &buttons, 1234, 3, 0x02, 0);
    assert_eq!(actions, vec![Action::Spawn("menu")]);
    let (wm, actions) = buttonPressWith(wm, &buttons, 1234, 1, 0, 0);
    assert!(actions.is_empty());
    let (wm, actions) = buttonPressWith(wm, &buttons, 5, 1, 0, 5);
    assert!(actions.is_empty());
    let (wm, actions) = buttonPressWith(wm, &buttons, 5, 1, 0x40, 5);
    assert_eq!(actions, vec![Action::Destroy(5)]);
    let (wm, _) = buttonPressWith(wm, &buttons, 77, 1, 0, 0);
    assert_eq!(wm.selwsindex, 1);
}

#[test]
fn cleanmask_masks_the_lock_bits_out() {
    assert_eq!(cleanmask(0x42, 0), 0x40);
    assert_eq!(cleanmask(0x40, 0), 0x40);
    assert_eq!(cleanmask(0x53, 0x10), 0x41);
    assert_eq!(cleanmask(0x12, 0x10), 0);
    assert_eq!(cleanmask(0xffff_ffff, 0x10), 0xffff_ffed);
    assert_eq!(cleanmask(0, 0x10), 0);
    for mask in [0u32, 1, 2, 0x10, 0x42, 0x53, 0xff, 0xffff_ffff] {
        for num in [0u32, 0x10, 0x80] {
            let r = cleanmask(mask, num);
            assert_eq!(r & 0x02, 0);
            assert_eq!(r & num, 0);
            assert_eq!(cleanmask(r, num), r);
        }
    }
}

#[test]
fn errors_of_vanished_windows_are_passed_over() {
    let passed: Vec<u8> = (0..=255u8).filter(|c| xerror(*c)).collect();
    assert_eq!(passed, vec![3, 8, 9, 10]);
}

#[test]
fn dispatch_keeps_every_handle_in_one_place() {
    let mut wm = new_wm();
    let mut seed: u64 = 99;
    for _ in 0..1500 {
        seed = seed.wrapping_mul(6364136223846793005).wrapping_add(1442695040888963407);
        let win = (seed >> 40) % 8 + 1;
        let digit = 0x31 + (seed >> 50) % 9;
        let ev = match (seed >> 33) % 6 {
            0 => Event::MapRequest { window: win, attributes: Some(attrs(false)) },
            1 => Event::DestroyNotify { window: win },
            2 => Event::KeyPress { keysym: digit, state: config::MODKEY, pointed: win },
            3 => Event::KeyPress { keysym: digit, state: config::MODKEY | 1, pointed: win },
            4 => Event::ConfigureRequest(request(win, 1, 0x10)),
            _ => Event::KeyPress { keysym: config::XK_q, state: config::MODKEY | 1, pointed: win },
        };
        wm = handleEvent(wm, &ev).0;
        let mut all: Vec<u64> =
            wm.wss.iter().flat_map(|ws| ws.clients.iter().map(|c| c.win)).collect();
        let n = all.len();
        all.sort();
        all.dedup();
        assert_eq!(all.len(), n);
        assert!(wm.selwsindex < 9 && wm.oldwsindex < 9);
    }
}
