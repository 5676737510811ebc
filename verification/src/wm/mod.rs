use vstd::prelude::*;

/// Client module
pub mod client;
/// Workspace module
pub mod workspace;

use crate::config;
use crate::Key;
use crate::display::{configure_all, Action};
use crate::drw::clrscheme::ClrScheme;
use crate::drw::{Cur, Drw};
use crate::wm::client::{createClient, new_client, showClient, Client, WindowAttributes};
use crate::wm::workspace::{
    addClient, arranged, bar_y, distinctHandles, geomOk, createWorkspace, distinct_handles, findClient, first_at, holds,
    is_fresh, layout_cell, layout_cell_of, lemma_arranged_handles, lemma_holds_insert,
    lemma_holds_remove, lemma_remove_keeps_distinct, updateBarPos, updateGeom, Workspace,
};

verus! {

/// Stores the state of the window manager.
pub struct WM<'a> {
    pub drw: Drw,
    pub screen: i32,
    pub root: u64,
    pub running: bool,
    pub wmatom: Vec<u64>,
    pub netatom: Vec<u64>,
    pub cursor: Vec<Cur>,
    pub scheme: Vec<ClrScheme>,
    pub wss: Vec<Workspace<'a>>,
    pub selwsindex: usize,
    pub oldwsindex: usize,
    pub sw: u32,
    pub sh: u32,
    pub bh: u32,
    pub stext: String,
    pub numlockmask: u32,
}

/// Workspace `k` holds a client with the handle `win`.
pub open spec fn held_in(wss: Seq<Workspace>, k: int, win: u64) -> bool {
    0 <= k < wss.len() && holds(wss[k].clients@, win)
}

/// Some workspace holds a client with the handle `win`: the window is managed.
pub open spec fn manages(wss: Seq<Workspace>, win: u64) -> bool {
    exists|k: int| held_in(wss, k, win)
}

/// The registry's invariant: no workspace holds a handle twice, and no two
/// workspaces hold the same handle. So every managed window has one place.
pub open spec fn registry_ok(wss: Seq<Workspace>) -> bool {
    &&& forall|k: int| 0 <= k < wss.len() ==> distinct_handles((#[trigger] wss[k]).clients@)
    &&& forall|k1: int, k2: int, win: u64|
        #[trigger] held_in(wss, k1, win) && #[trigger] held_in(wss, k2, win) ==> k1 == k2
}

/// Number of clients in all the workspaces together.
pub open spec fn client_count(wss: Seq<Workspace>) -> int
    decreases wss.len(),
{
    if wss.len() == 0 {
        0
    } else {
        client_count(wss.drop_last()) + wss.last().clients@.len()
    }
}

/// `b` is `a` but for the clients of workspace `k`.
pub open spec fn same_but_clients_of(a: Seq<Workspace>, b: Seq<Workspace>, k: int) -> bool {
    &&& b.len() == a.len()
    &&& 0 <= k < a.len()
    &&& b[k] == (Workspace { clients: b[k].clients, ..a[k] })
    &&& forall|j: int| 0 <= j < a.len() && j != k ==> #[trigger] b[j] == a[j]
}

impl<'a> WM<'a> {
    /// The state is well formed: the selected and the previous workspace
    /// exist, every workspace has a sound geometry, and the registry's
    /// invariant holds.
    pub open spec fn wf(&self) -> bool {
        &&& self.selwsindex < self.wss@.len()
        &&& self.oldwsindex < self.wss@.len()
        &&& forall|k: int| 0 <= k < self.wss@.len() ==> (#[trigger] self.wss@[k]).geom_ok()
        &&& registry_ok(self.wss@)
    }
}

/// Takes client `i` out of workspace `k`.
fn takeClient<'a>(wss: &mut Vec<Workspace<'a>>, k: usize, i: usize) -> (c: Client<'a>)
    requires
        k < old(wss)@.len(),
        i < old(wss)@[k as int].clients@.len(),
    ensures
        same_but_clients_of(old(wss)@, final(wss)@, k as int),
        final(wss)@[k as int].clients@ == old(wss)@[k as int].clients@.remove(i as int),
        c == old(wss)@[k as int].clients@[i as int],
{
    let mut ws = wss.remove(k);
    let c = ws.clients.remove(i);
    wss.insert(k, ws);
    c
}

/// Puts a client at the head of workspace `k`.
fn putClient<'a>(wss: &mut Vec<Workspace<'a>>, k: usize, c: Client<'a>)
    requires
        k < old(wss)@.len(),
    ensures
        same_but_clients_of(old(wss)@, final(wss)@, k as int),
        final(wss)@[k as int].clients@ == old(wss)@[k as int].clients@.insert(0, c),
{
    let mut ws = wss.remove(k);
    addClient(&mut ws, c);
    wss.insert(k, ws);
}

/// Arranges workspace `k` anew and returns what tells its clients their
/// geometry.
fn rearrange<'a>(wss: &mut Vec<Workspace<'a>>, k: usize) -> (actions: Vec<Action<'a>>)
    requires
        k < old(wss)@.len(),
        old(wss)@[k as int].geom_ok(),
    ensures
        same_but_clients_of(old(wss)@, final(wss)@, k as int),
        arranged(
            old(wss)@[k as int].clients@,
            final(wss)@[k as int].clients@,
            |i: int| layout_cell(old(wss)@[k as int], i),
        ),
        actions@ == configure_all(final(wss)@[k as int].clients@),
{
    let ws = wss.remove(k);
    let (ws, actions) = updateGeom(ws);
    wss.insert(k, ws);
    actions
}

/// Finds the workspace and the place in it of the client with the handle
/// `win`: the first workspace that holds it, and the first place there.
pub fn locate(wss: &Vec<Workspace>, win: u64) -> (r: Option<(usize, usize)>)
    ensures
        match r {
            Some((k, i)) => held_in(wss@, k as int, win) && first_at(
                wss@[k as int].clients@,
                win,
                i as int,
            ) && forall|j: int| 0 <= j < k ==> !held_in(wss@, j, win),
            None => !manages(wss@, win),
        },
{
    let n = wss.len();
    let mut k: usize = 0;
    while k < n
        invariant
            n == wss@.len(),
            k <= n,
            forall|j: int| 0 <= j < k ==> !held_in(wss@, j, win),
        decreases n - k,
    {
        match findClient(&wss[k].clients, win) {
            Some(i) => {
                return Some((k, i));
            },
            None => {},
        }
        k += 1;
    }
    None
}

/// Finds the client of a window in the workspaces.
pub fn findFromWindow<'a, 'b>(window: u64, wss: &'b Vec<Workspace<'a>>) -> (r: Option<
    &'b Client<'a>,
>)
    ensures
        match r {
            Some(c) => c.win == window && exists|k: int, i: int|
                held_in(wss@, k, window) && first_at(wss@[k].clients@, window, i) && *c
                    == wss@[k].clients@[i] && forall|j: int|
                    0 <= j < k ==> !held_in(wss@, j, window),
            None => !manages(wss@, window),
        },
{
    match locate(wss, window) {
        Some((k, i)) => Some(&wss[k].clients[i]),
        None => None,
    }
}

/// Where two states differ in the clients of one workspace only, the client
/// counts differ by what that workspace has gained.
pub proof fn lemma_count_step(a: Seq<Workspace>, b: Seq<Workspace>, k: int)
    requires
        same_but_clients_of(a, b, k),
    ensures
        client_count(b) == client_count(a) - a[k].clients@.len() + b[k].clients@.len(),
    decreases a.len(),
{
    let n = a.len() as int;
    if k == n - 1 {
        assert(a.drop_last() =~= b.drop_last());
    } else {
        assert(same_but_clients_of(a.drop_last(), b.drop_last(), k));
        lemma_count_step(a.drop_last(), b.drop_last(), k);
    }
}

/// Where the clients of workspace `k` keep their handles, the registry's
/// invariant holds as before, and the same windows are managed.
pub proof fn lemma_registry_same(a: Seq<Workspace>, b: Seq<Workspace>, k: int)
    requires
        same_but_clients_of(a, b, k),
        distinct_handles(a[k].clients@) <==> distinct_handles(b[k].clients@),
        forall|win: u64| holds(a[k].clients@, win) <==> holds(b[k].clients@, win),
    ensures
        registry_ok(a) <==> registry_ok(b),
        forall|j: int, win: u64| held_in(a, j, win) <==> held_in(b, j, win),
        forall|win: u64| manages(a, win) <==> manages(b, win),
        b[k].geom_ok() == a[k].geom_ok(),
{
    assert forall|j: int, win: u64| held_in(a, j, win) <==> held_in(b, j, win) by {
        if 0 <= j < a.len() && j != k {
            assert(b[j] == a[j]);
        }
    }
    assert forall|win: u64| manages(a, win) <==> manages(b, win) by {
        if manages(a, win) {
            let j = choose|j: int| held_in(a, j, win);
            assert(held_in(b, j, win));
        }
        if manages(b, win) {
            let j = choose|j: int| held_in(b, j, win);
            assert(held_in(a, j, win));
        }
    }
    if registry_ok(a) {
        assert forall|j: int| 0 <= j < b.len() implies distinct_handles(
            (#[trigger] b[j]).clients@,
        ) by {
            if j != k {
                assert(b[j] == a[j]);
            }
        }
        assert forall|k1: int, k2: int, win: u64|
            #[trigger] held_in(b, k1, win) && #[trigger] held_in(b, k2, win) implies k1 == k2 by {
            assert(held_in(a, k1, win) && held_in(a, k2, win));
        }
    }
    if registry_ok(b) {
        assert forall|j: int| 0 <= j < a.len() implies distinct_handles(
            (#[trigger] a[j]).clients@,
        ) by {
            if j != k {
                assert(b[j] == a[j]);
            }
        }
        assert forall|k1: int, k2: int, win: u64|
            #[trigger] held_in(a, k1, win) && #[trigger] held_in(a, k2, win) implies k1 == k2 by {
            assert(held_in(b, k1, win) && held_in(b, k2, win));
        }
    }
}

/// Where workspace `k` gains a client whose window was not managed, the
/// registry's invariant is kept, and just that window is managed in addition.
pub proof fn lemma_registry_put(a: Seq<Workspace>, b: Seq<Workspace>, k: int, c: Client)
    requires
        registry_ok(a),
        !manages(a, c.win),
        same_but_clients_of(a, b, k),
        b[k].clients@ == a[k].clients@.insert(0, c),
    ensures
        registry_ok(b),
        forall|win: u64| manages(b, win) <==> (win == c.win || manages(a, win)),
        held_in(b, k, c.win),
{
    let before = a[k].clients@;
    let after = b[k].clients@;
    assert(!held_in(a, k, c.win));
    assert forall|j: int, win: u64| held_in(b, j, win) <==> (held_in(a, j, win) || (j == k && win
        == c.win)) by {
        if 0 <= j < a.len() {
            if j == k {
                lemma_holds_insert(before, c, win);
            } else {
                assert(b[j] == a[j]);
            }
        }
    }
    assert forall|win: u64| manages(b, win) <==> (win == c.win || manages(a, win)) by {
        if manages(a, win) {
            let j = choose|j: int| held_in(a, j, win);
            assert(held_in(b, j, win));
        }
        if win == c.win {
            assert(held_in(b, k, win));
        }
        if manages(b, win) && win != c.win {
            let j = choose|j: int| held_in(b, j, win);
            assert(held_in(a, j, win));
        }
    }
    assert forall|j: int| 0 <= j < b.len() implies distinct_handles((#[trigger] b[j]).clients@) by {
        if j == k {
            assert(distinct_handles(a[k].clients@));
            assert forall|x: int, y: int|
                0 <= x < after.len() && 0 <= y < after.len() && #[trigger] after[x].win
                    == #[trigger] after[y].win implies x == y by {
                if x > 0 {
                    assert(after[x] == before[x - 1]);
                }
                if y > 0 {
                    assert(after[y] == before[y - 1]);
                }
            }
        } else {
            assert(b[j] == a[j]);
        }
    }
    assert forall|k1: int, k2: int, win: u64|
        #[trigger] held_in(b, k1, win) && #[trigger] held_in(b, k2, win) implies k1 == k2 by {
        if win == c.win {
            if k1 != k {
                assert(held_in(a, k1, win));
            }
            if k2 != k {
                assert(held_in(a, k2, win));
            }
        } else {
            assert(held_in(a, k1, win) && held_in(a, k2, win));
        }
    }
}

/// Where workspace `k` loses client `i`, the registry's invariant is kept, and
/// just that client's window is managed no longer.
pub proof fn lemma_registry_take(a: Seq<Workspace>, b: Seq<Workspace>, k: int, i: int)
    requires
        registry_ok(a),
        same_but_clients_of(a, b, k),
        0 <= i < a[k].clients@.len(),
        b[k].clients@ == a[k].clients@.remove(i),
    ensures
        registry_ok(b),
        forall|win: u64| manages(b, win) <==> (win != a[k].clients@[i].win && manages(a, win)),
{
    let before = a[k].clients@;
    let after = b[k].clients@;
    let w = before[i].win;
    assert(distinct_handles(a[k].clients@));
    lemma_remove_keeps_distinct(before, i);
    assert(held_in(a, k, w));
    assert forall|j: int, win: u64| held_in(b, j, win) <==> (held_in(a, j, win) && win != w) by {
        if 0 <= j < a.len() {
            if j == k {
                lemma_holds_remove(before, i, win);
            } else {
                assert(b[j] == a[j]);
                if held_in(a, j, win) && win == w {
                    assert(held_in(a, k, w));
                }
            }
        }
    }
    assert forall|win: u64| manages(b, win) <==> (win != w && manages(a, win)) by {
        if manages(a, win) && win != w {
            let j = choose|j: int| held_in(a, j, win);
            assert(held_in(b, j, win));
        }
        if manages(b, win) {
            let j = choose|j: int| held_in(b, j, win);
            assert(held_in(a, j, win));
        }
    }
    assert forall|j: int| 0 <= j < b.len() implies distinct_handles((#[trigger] b[j]).clients@) by {
        if j != k {
            assert(b[j] == a[j]);
        }
    }
    assert forall|k1: int, k2: int, win: u64|
        #[trigger] held_in(b, k1, win) && #[trigger] held_in(b, k2, win) implies k1 == k2 by {
        assert(held_in(a, k1, win) && held_in(a, k2, win));
    }
}

/// What `manage` makes of a state: `r` and the instructions `actions`. A
/// window that is managed already is left where it is. Any other becomes a
/// client at the head of the selected workspace; that workspace is arranged
/// anew, its clients are told their geometry, and the new window is shown.
pub open spec fn took_in<'a>(
    wm: WM<'a>,
    w: u64,
    wa: WindowAttributes,
    r: WM<'a>,
    actions: Seq<Action<'a>>,
) -> bool {
    if manages(wm.wss@, w) {
        r == wm && actions.len() == 0
    } else {
        let k = wm.selwsindex as int;
        let put = wm.wss@[k].clients@.insert(0, new_client(w, wa));
        &&& r == (WM { wss: r.wss, ..wm })
        &&& same_but_clients_of(wm.wss@, r.wss@, k)
        &&& arranged(put, r.wss@[k].clients@, |i: int| layout_cell_of(wm.wss@[k], put, i))
        &&& actions == configure_all(r.wss@[k].clients@) + seq![Action::Show(w)]
    }
}

/// Takes a window under management, as `took_in` says. Afterwards the window
/// is managed, beside those that were, and the registry's invariant holds.
pub fn manage<'a>(wm: WM<'a>, w: u64, wa: WindowAttributes) -> (r: (WM<'a>, Vec<Action<'a>>))
    requires
        wm.wf(),
    ensures
        r.0.wf(),
        took_in(wm, w, wa, r.0, r.1@),
        forall|win: u64| manages(r.0.wss@, win) <==> (win == w || manages(wm.wss@, win)),
        client_count(r.0.wss@) == client_count(wm.wss@) + (if manages(wm.wss@, w) {
            0int
        } else {
            1int
        }),
{
    if locate(&wm.wss, w).is_some() {
        return (wm, Vec::new());
    }
    let mut wm = wm;
    let ghost before = wm.wss@;
    let k = wm.selwsindex;
    let c = createClient(w, &wa, k);
    putClient(&mut wm.wss, k, c);
    let ghost mid = wm.wss@;
    let mut actions = rearrange(&mut wm.wss, k);
    actions.push(showClient(&c));
    proof {
        let after = wm.wss@;
        let put = before[k as int].clients@.insert(0, c);
        lemma_registry_put(before, mid, k as int, c);
        lemma_arranged_handles(
            mid[k as int].clients@,
            after[k as int].clients@,
            |i: int| layout_cell(mid[k as int], i),
        );
        lemma_registry_same(mid, after, k as int);
        lemma_count_step(before, mid, k as int);
        lemma_count_step(mid, after, k as int);
        assert(same_but_clients_of(before, after, k as int));
        assert(actions@ =~= configure_all(after[k as int].clients@) + seq![Action::Show(w)]);
        assert forall|j: int| 0 <= j < after.len() implies (#[trigger] after[j]).geom_ok() by {
            if j != k {
                assert(after[j] == before[j]);
            }
        }
    }
    (wm, actions)
}

/// What `unManage` makes of a state: `r` and the instructions `actions`. The
/// client with the handle leaves the workspace that holds it; that workspace
/// is arranged anew and its clients are told their geometry. Nothing changes
/// for a window that is not managed.
pub open spec fn gave_up<'a>(wm: WM<'a>, w: u64, r: WM<'a>, actions: Seq<Action<'a>>) -> bool {
    if manages(wm.wss@, w) {
        exists|k: int, i: int|
            {
                let left = wm.wss@[k].clients@.remove(i);
                &&& #[trigger] held_in(wm.wss@, k, w)
                &&& #[trigger] first_at(wm.wss@[k].clients@, w, i)
                &&& r == (WM { wss: r.wss, ..wm })
                &&& same_but_clients_of(wm.wss@, r.wss@, k)
                &&& arranged(left, r.wss@[k].clients@, |j: int| layout_cell_of(wm.wss@[k], left, j))
                &&& actions == configure_all(r.wss@[k].clients@)
            }
    } else {
        r == wm && actions.len() == 0
    }
}

/// Gives a window up, as `gave_up` says. Afterwards the window is not managed,
/// all others are as before, and the registry's invariant holds.
pub fn unManage<'a>(wm: WM<'a>, w: u64) -> (r: (WM<'a>, Vec<Action<'a>>))
    requires
        wm.wf(),
    ensures
        r.0.wf(),
        gave_up(wm, w, r.0, r.1@),
        forall|win: u64| manages(r.0.wss@, win) <==> (win != w && manages(wm.wss@, win)),
        client_count(r.0.wss@) == client_count(wm.wss@) - (if manages(wm.wss@, w) {
            1int
        } else {
            0int
        }),
{
    match locate(&wm.wss, w) {
        None => (wm, Vec::new()),
        Some((k, i)) => {
            let mut wm = wm;
            let ghost before = wm.wss@;
            let c = takeClient(&mut wm.wss, k, i);
            let ghost mid = wm.wss@;
            let actions = rearrange(&mut wm.wss, k);
            proof {
                let after = wm.wss@;
                lemma_registry_take(before, mid, k as int, i as int);
                lemma_arranged_handles(
                    mid[k as int].clients@,
                    after[k as int].clients@,
                    |j: int| layout_cell(mid[k as int], j),
                );
                lemma_registry_same(mid, after, k as int);
                lemma_count_step(before, mid, k as int);
                lemma_count_step(mid, after, k as int);
                assert(same_but_clients_of(before, after, k as int));
                assert forall|j: int| 0 <= j < after.len() implies (#[trigger] after[j]).geom_ok() by {
                    if j != k {
                        assert(after[j] == before[j]);
                    }
                }
            }
            (wm, actions)
        },
    }
}

/// The name the status text starts with.
pub open spec fn initial_status() -> Seq<char> {
    "dwm-rust"@
}

/// The names of the window manager's own atoms, in the order of their indexes.
pub fn wmAtomNames() -> (names: Vec<&'static str>)
    ensures
        names@ == seq!["WM_PROTOCOLS", "WM_DELETE_WINDOW", "WM_STATE", "WM_TAKE_FOCUS"],
{
    let names = vec!["WM_PROTOCOLS", "WM_DELETE_WINDOW", "WM_STATE", "WM_TAKE_FOCUS"];
    assert(names@ =~= seq!["WM_PROTOCOLS", "WM_DELETE_WINDOW", "WM_STATE", "WM_TAKE_FOCUS"]);
    names
}

/// The names of the extended hints' atoms, in the order of their indexes.
pub open spec fn net_atom_names() -> Seq<&'static str> {
    seq![
        "_NET_ACTIVE_WINDOW",
        "_NET_SUPPORTED",
        "_NET_WM_NAME",
        "_NET_WM_STATE",
        "_NET_WM_STATE_FULLSCREEN",
        "_NET_WM_WINDOWN_TYPE",
        "_NET_WM_WINDOW_TYPE_DIALOG",
        "_NET_CLIENT_LIST",
    ]
}

/// The names of the extended hints' atoms, in the order of their indexes.
pub fn netAtomNames() -> (names: Vec<&'static str>)
    ensures
        names@ == net_atom_names(),
{
    let names = vec![
        "_NET_ACTIVE_WINDOW",
        "_NET_SUPPORTED",
        "_NET_WM_NAME",
        "_NET_WM_STATE",
        "_NET_WM_STATE_FULLSCREEN",
        "_NET_WM_WINDOWN_TYPE",
        "_NET_WM_WINDOW_TYPE_DIALOG",
        "_NET_CLIENT_LIST",
    ];
    assert(names@ =~= net_atom_names());
    names
}

/// Inits the window manager: running, with no workspace yet, with the
/// resources handed in, and with a bar two pixels higher than the first font.
pub fn initWm<'a>(
    drw: Drw,
    screen: i32,
    root: u64,
    sw: u32,
    sh: u32,
    wmatom: Vec<u64>,
    netatom: Vec<u64>,
    cursor: Vec<Cur>,
    scheme: Vec<ClrScheme>,
) -> (wm: WM<'a>)
    requires
        drw.fonts@.len() >= 1,
        drw.fonts@[0].h + 2 <= u32::MAX,
    ensures
        wm.drw == drw,
        wm.screen == screen && wm.root == root && wm.sw == sw && wm.sh == sh,
        wm.running,
        wm.wmatom == wmatom && wm.netatom == netatom && wm.cursor == cursor && wm.scheme == scheme,
        wm.wss@.len() == 0,
        wm.selwsindex == 0 && wm.oldwsindex == 0,
        wm.bh == drw.fonts@[0].h + 2,
        wm.stext@ == initial_status(),
        wm.numlockmask == 0,
{
    let bh = drw.fonts[0].h + 2;
    WM {
        drw,
        screen,
        root,
        running: true,
        wmatom,
        netatom,
        cursor,
        scheme,
        wss: Vec::new(),
        selwsindex: 0,
        oldwsindex: 0,
        sw,
        sh,
        bh,
        stext: "dwm-rust".to_owned(),
        numlockmask: 0,
    }
}

/// Workspace `ws` is as `createWorkspaces` makes it for a tag: fresh, as large
/// as the screen, with the bar of height `bh` in its place.
pub open spec fn is_workspace_for(ws: Workspace, tag: &str, sw: u32, sh: u32, bh: u32) -> bool {
    &&& is_fresh((Workspace { w: 0, h: 0, by: 0, bh: 0, ..ws }), tag)
    &&& ws.w == sw
    &&& ws.h == sh
    &&& ws.bh == bh
    &&& ws.by == bar_y(ws, bh)
}

/// Where the bar of height `bh` goes on a fresh workspace of height `sh`.
pub open spec fn fresh_bar_y(sh: u32, bh: u32) -> int {
    if config::showbar {
        if config::topbar {
            0
        } else {
            sh - bh
        }
    } else {
        -bh
    }
}

/// Create all the workspaces, one for each tag in the order of the tags and
/// each as large as the screen, and select the first. The state is well
/// formed then, where the screen fits the coordinate range and the bar fits
/// the screen.
pub fn createWorkspaces<'a>(wm: WM<'a>) -> (r: WM<'a>)
    requires
        i32::MIN <= fresh_bar_y(wm.sh, wm.bh) <= i32::MAX,
    ensures
        r == (WM { wss: r.wss, selwsindex: 0, ..wm }),
        r.wss@.len() == config::tag_names().len(),
        forall|k: int|
            0 <= k < r.wss@.len() ==> is_workspace_for(
                #[trigger] r.wss@[k],
                config::tag_names()[k],
                wm.sw,
                wm.sh,
                wm.bh,
            ),
        r.wf() <==> wm.sw <= i32::MAX && wm.sh <= i32::MAX && (config::showbar ==> wm.bh <= wm.sh)
            && wm.oldwsindex < config::tag_names().len(),
{
    let tags = config::tags();
    let n = tags.len();
    let mut wss: Vec<Workspace<'a>> = Vec::new();
    let mut k: usize = 0;
    while k < n
        invariant
            n == tags@.len(),
            tags@ == config::tag_names(),
            k <= n,
            wss@.len() == k,
            i32::MIN <= fresh_bar_y(wm.sh, wm.bh) <= i32::MAX,
            forall|j: int|
                0 <= j < k ==> is_workspace_for(
                    #[trigger] wss@[j],
                    config::tag_names()[j],
                    wm.sw,
                    wm.sh,
                    wm.bh,
                ),
        decreases n - k,
    {
        let ws = createWorkspace(tags[k]);
        let ws = updateBarPos(Workspace { w: wm.sw, h: wm.sh, ..ws }, wm.bh);
        wss.push(ws);
        k += 1;
    }
    let r = WM { wss, selwsindex: 0, ..wm };
    proof {
        assert(is_workspace_for(r.wss@[0], config::tag_names()[0], wm.sw, wm.sh, wm.bh));
        if wm.sw <= i32::MAX && wm.sh <= i32::MAX && (config::showbar ==> wm.bh <= wm.sh)
            && wm.oldwsindex < config::tag_names().len() {
            assert forall|j: int| 0 <= j < r.wss@.len() implies (#[trigger] r.wss@[j]).geom_ok() by {
                assert(is_workspace_for(r.wss@[j], config::tag_names()[j], wm.sw, wm.sh, wm.bh));
            }
            assert forall|j: int, win: u64| !held_in(r.wss@, j, win) by {
                if 0 <= j < r.wss@.len() {
                    assert(is_workspace_for(r.wss@[j], config::tag_names()[j], wm.sw, wm.sh, wm.bh));
                }
            }
            assert forall|j: int| 0 <= j < r.wss@.len() implies distinct_handles(
                (#[trigger] r.wss@[j]).clients@,
            ) by {
                assert(is_workspace_for(r.wss@[j], config::tag_names()[j], wm.sw, wm.sh, wm.bh));
            }
        }
    }
    r
}

/// Whether the bar window has yet to be created: the first workspace has none.
pub fn needsBarWindow(wm: &WM) -> (r: bool)
    requires
        wm.wss@.len() >= 1,
    ensures
        r == (wm.wss@[0].barwin == 0),
{
    wm.wss[0].barwin == 0
}

/// Updates the status bars: where the first workspace has no bar window, every
/// workspace without one gets `barwin`.
pub fn updateBars<'a>(wm: WM<'a>, barwin: u64) -> (r: WM<'a>)
    requires
        wm.wss@.len() >= 1,
    ensures
        r == (WM { wss: r.wss, ..wm }),
        r.wss@.len() == wm.wss@.len(),
        forall|k: int|
            0 <= k < wm.wss@.len() ==> #[trigger] r.wss@[k] == (Workspace {
                barwin: if wm.wss@[0].barwin == 0 && wm.wss@[k].barwin == 0 {
                    barwin
                } else {
                    wm.wss@[k].barwin
                },
                ..wm.wss@[k]
            }),
        wm.wf() ==> r.wf(),
{
    if !needsBarWindow(&wm) {
        return wm;
    }
    let ghost orig = wm;
    let mut wm = wm;
    let ghost before = wm.wss@;
    let n = wm.wss.len();
    let mut k: usize = 0;
    while k < n
        invariant
            wm == (WM { wss: wm.wss, ..orig }),
            n == before.len(),
            wm.wss@.len() == n,
            k <= n,
            before[0].barwin == 0,
            forall|j: int|
                0 <= j < k ==> #[trigger] wm.wss@[j] == (Workspace {
                    barwin: if before[j].barwin == 0 {
                        barwin
                    } else {
                        before[j].barwin
                    },
                    ..before[j]
                }),
            forall|j: int| k <= j < n ==> #[trigger] wm.wss@[j] == before[j],
        decreases n - k,
    {
        let mut ws = wm.wss.remove(k);
        if ws.barwin == 0 {
            ws.barwin = barwin;
        }
        wm.wss.insert(k, ws);
        k += 1;
    }
    proof {
        let after = wm.wss@;
        assert forall|j: int, win: u64| held_in(after, j, win) <==> held_in(before, j, win) by {
            if 0 <= j < n {
                assert(after[j].clients == before[j].clients);
            }
        }
        if registry_ok(before) {
            assert forall|j: int| 0 <= j < after.len() implies distinct_handles(
                (#[trigger] after[j]).clients@,
            ) by {
                assert(after[j].clients == before[j].clients);
                assert(distinct_handles(before[j].clients@));
            }
            assert forall|k1: int, k2: int, win: u64|
                #[trigger] held_in(after, k1, win) && #[trigger] held_in(after, k2, win) implies k1
                == k2 by {
                assert(held_in(before, k1, win) && held_in(before, k2, win));
            }
        }
        assert forall|j: int| 0 <= j < n && before[j].geom_ok() implies (#[trigger] after[j]).geom_ok() by {}
    }
    wm
}

/// Updates the status text: a text read from the root window replaces it, no
/// text leaves it as it is. The bar is then due to be drawn anew.
pub fn updateStatus<'a>(wm: WM<'a>, text: Option<String>) -> (r: WM<'a>)
    ensures
        r == (WM { stext: r.stext, ..wm }),
        r.stext@ == (match text {
            Some(t) => t@,
            None => wm.stext@,
        }),
{
    match text {
        Some(t) => WM { stext: t, ..wm },
        None => wm,
    }
}

/// The modifier bit of row `row` of the modifier map.
pub open spec fn modifier_bit(row: int) -> u32 {
    if row == 0 {
        0x01
    } else if row == 1 {
        0x02
    } else if row == 2 {
        0x04
    } else if row == 3 {
        0x08
    } else if row == 4 {
        0x10
    } else if row == 5 {
        0x20
    } else if row == 6 {
        0x40
    } else {
        0x80
    }
}

/// The first place from `from` on where the modifier map holds `code`, or the
/// map's length where it holds it nowhere.
pub open spec fn first_code(map: Seq<u8>, code: u8, from: int) -> int
    decreases map.len() - from,
{
    if from < 0 || from >= map.len() {
        map.len() as int
    } else if map[from] == code {
        from
    } else {
        first_code(map, code, from + 1)
    }
}

/// The modifier mask that stands for the num lock key: the bit of the first
/// row of the modifier map that holds the key's code, rows of `per_row`
/// codes each; no bit where no row holds it.
pub open spec fn numlock_mask(map: Seq<u8>, per_row: int, code: u8) -> u32 {
    let p = first_code(map, code, 0);
    if p < map.len() {
        modifier_bit(p / per_row)
    } else {
        0
    }
}

/// Finds out which modifier stands for the num lock key and records its mask.
/// The modifier map holds eight rows of `max_keypermod` key codes each.
pub fn updatenumlockmask<'a>(
    wm: WM<'a>,
    modifiermap: &Vec<u8>,
    max_keypermod: usize,
    numlock: u8,
) -> (r: WM<'a>)
    requires
        modifiermap@.len() == 8 * max_keypermod,
    ensures
        r == (WM { numlockmask: numlock_mask(modifiermap@, max_keypermod as int, numlock), ..wm }),
{
    let n = modifiermap.len();
    let mut p: usize = 0;
    while p < n
        invariant
            n == modifiermap@.len(),
            n == 8 * max_keypermod,
            p <= n,
            first_code(modifiermap@, numlock, 0) == first_code(modifiermap@, numlock, p as int),
        decreases n - p,
    {
        if modifiermap[p] == numlock {
            let row: usize = p / max_keypermod;
            proof {
                assert(p < max_keypermod * 8);
                vstd::arithmetic::div_mod::lemma_multiply_divide_lt(
                    p as int,
                    max_keypermod as int,
                    8,
                );
                vstd::arithmetic::div_mod::lemma_div_pos_is_pos(p as int, max_keypermod as int);
            }
            let mask: u32 = if row == 0 {
                0x01
            } else if row == 1 {
                0x02
            } else if row == 2 {
                0x04
            } else if row == 3 {
                0x08
            } else if row == 4 {
                0x10
            } else if row == 5 {
                0x20
            } else if row == 6 {
                0x40
            } else {
                0x80
            };
            return WM { numlockmask: mask, ..wm };
        }
        p += 1;
    }
    WM { numlockmask: 0, ..wm }
}

/// The four masks under which every key is grabbed: as it is, with caps lock,
/// with num lock, and with both.
pub open spec fn lock_variants(numlockmask: u32) -> Seq<u32> {
    seq![0u32, config::LockMask, numlockmask, numlockmask | config::LockMask]
}

/// What grabs one key: the key's code under each of the four lock variants
/// of its modifiers. A key that the keyboard has no code for, which is code
/// zero, is not grabbed.
pub open spec fn key_grabs(key: Key, code: u8, numlockmask: u32) -> Seq<Action<'static>> {
    if code == 0 {
        Seq::empty()
    } else {
        Seq::new(
            4,
            |j: int|
                Action::GrabKey {
                    keycode: code,
                    modifiers: key.modif | lock_variants(numlockmask)[j],
                },
        )
    }
}

/// What grabs the first `k` keys of a table, key after key; `codes` holds the
/// code of each key.
pub open spec fn grabs_of(keys: Seq<Key>, codes: Seq<u8>, numlockmask: u32, k: int) -> Seq<
    Action<'static>,
>
    decreases k,
{
    if k <= 0 {
        Seq::empty()
    } else {
        grabs_of(keys, codes, numlockmask, k - 1) + key_grabs(
            keys[k - 1],
            codes[k - 1],
            numlockmask,
        )
    }
}

/// The instructions that grab the keys of a table: first all grabs are given
/// up, then every key that has a code is grabbed under each of the four lock
/// variants of its modifiers, key after key.
pub open spec fn grab_plan(keys: Seq<Key>, codes: Seq<u8>, numlockmask: u32) -> Seq<
    Action<'static>,
> {
    seq![Action::UngrabKeys] + grabs_of(keys, codes, numlockmask, keys.len() as int)
}

/// Loads and grabs the keys of the key table, after finding out which modifier
/// stands for num lock. `codes` holds, for each key of the table in order, the
/// code that the keyboard has for its symbol, or zero where it has none.
pub fn grabKeys<'a>(
    wm: WM<'a>,
    modifiermap: &Vec<u8>,
    max_keypermod: usize,
    numlock: u8,
    codes: &Vec<u8>,
) -> (r: (WM<'a>, Vec<Action<'static>>))
    requires
        modifiermap@.len() == 8 * max_keypermod,
        codes@.len() == config::key_table().len(),
    ensures
        r.0 == (WM { numlockmask: numlock_mask(modifiermap@, max_keypermod as int, numlock), ..wm }),
        r.1@ == grab_plan(config::key_table(), codes@, r.0.numlockmask),
{
    let wm = updatenumlockmask(wm, modifiermap, max_keypermod, numlock);
    let mask = wm.numlockmask;
    let lock: u32 = config::LockMask;
    let both: u32 = mask | lock;
    let keys = config::keys();
    let n = keys.len();
    let mut actions: Vec<Action<'static>> = Vec::new();
    actions.push(Action::UngrabKeys);
    let ghost ungrab = actions@;
    let mut i: usize = 0;
    while i < n
        invariant
            n == keys@.len(),
            n == codes@.len(),
            lock == config::LockMask,
            both == mask | config::LockMask,
            ungrab == seq![Action::UngrabKeys],
            i <= n,
            actions@ == ungrab + grabs_of(keys@, codes@, mask, i as int),
        decreases n - i,
    {
        let code = codes[i];
        let modif = keys[i].modif;
        let ghost before = actions@;
        if code != 0 {
            actions.push(Action::GrabKey { keycode: code, modifiers: modif | 0 });
            actions.push(Action::GrabKey { keycode: code, modifiers: modif | lock });
            actions.push(Action::GrabKey { keycode: code, modifiers: modif | mask });
            actions.push(Action::GrabKey { keycode: code, modifiers: modif | both });
        }
        proof {
            assert(actions@ =~= before + key_grabs(keys@[i as int], code, mask));
            assert(actions@ =~= ungrab + grabs_of(keys@, codes@, mask, i as int + 1));
        }
        i += 1;
    }
    (wm, actions)
}

/// `b` is `a` but for the clients of the two workspaces `s` and `d`.
pub open spec fn same_but_clients_of_two(
    a: Seq<Workspace>,
    b: Seq<Workspace>,
    s: int,
    d: int,
) -> bool {
    &&& b.len() == a.len()
    &&& 0 <= s < a.len()
    &&& 0 <= d < a.len()
    &&& s != d
    &&& b[s] == (Workspace { clients: b[s].clients, ..a[s] })
    &&& b[d] == (Workspace { clients: b[d].clients, ..a[d] })
    &&& forall|j: int| 0 <= j < a.len() && j != s && j != d ==> #[trigger] b[j] == a[j]
}

/// What `moveClient` makes of a state: client `i` of the selected workspace
/// leaves it and stands at the head of workspace `d`; both workspaces are
/// arranged anew, and the clients of the one, then those of the other, are
/// told their geometry.
pub open spec fn passed_on<'a>(
    wm: WM<'a>,
    i: int,
    d: int,
    r: WM<'a>,
    actions: Seq<Action<'a>>,
) -> bool {
    let s = wm.selwsindex as int;
    let c = wm.wss@[s].clients@[i];
    let left = wm.wss@[s].clients@.remove(i);
    let put = wm.wss@[d].clients@.insert(0, c);
    &&& r == (WM { wss: r.wss, ..wm })
    &&& same_but_clients_of_two(wm.wss@, r.wss@, s, d)
    &&& arranged(left, r.wss@[s].clients@, |j: int| layout_cell_of(wm.wss@[s], left, j))
    &&& arranged(put, r.wss@[d].clients@, |j: int| layout_cell_of(wm.wss@[d], put, j))
    &&& actions == configure_all(r.wss@[s].clients@) + configure_all(r.wss@[d].clients@)
}

/// Moves client `i` of the selected workspace to another workspace `d`, as
/// `passed_on` says. Afterwards the client is gone from the selected
/// workspace and stands first in the other; as many clients are managed as
/// before, and the same windows; the registry's invariant holds.
pub fn moveClient<'a>(wm: WM<'a>, i: usize, d: usize) -> (r: (WM<'a>, Vec<Action<'a>>))
    requires
        wm.wf(),
        i < wm.wss@[wm.selwsindex as int].clients@.len(),
        d < wm.wss@.len(),
        d != wm.selwsindex,
    ensures
        r.0.wf(),
        passed_on(wm, i as int, d as int, r.0, r.1@),
        !holds(
            r.0.wss@[wm.selwsindex as int].clients@,
            wm.wss@[wm.selwsindex as int].clients@[i as int].win,
        ),
        first_at(
            r.0.wss@[d as int].clients@,
            wm.wss@[wm.selwsindex as int].clients@[i as int].win,
            0,
        ),
        client_count(r.0.wss@) == client_count(wm.wss@),
        forall|win: u64| manages(r.0.wss@, win) <==> manages(wm.wss@, win),
{
    let mut wm = wm;
    let s = wm.selwsindex;
    let ghost before = wm.wss@;
    let c = takeClient(&mut wm.wss, s, i);
    let ghost m1 = wm.wss@;
    putClient(&mut wm.wss, d, c);
    let ghost m2 = wm.wss@;
    let mut actions = rearrange(&mut wm.wss, s);
    let ghost m3 = wm.wss@;
    let mut told = rearrange(&mut wm.wss, d);
    let ghost m4 = wm.wss@;
    actions.append(&mut told);
    proof {
        let w = c.win;
        let left = before[s as int].clients@.remove(i as int);
        let put = before[d as int].clients@.insert(0, c);
        assert(held_in(before, s as int, w));
        assert(distinct_handles(before[s as int].clients@));
        lemma_registry_take(before, m1, s as int, i as int);
        lemma_holds_remove(before[s as int].clients@, i as int, w);
        assert(m1[d as int] == before[d as int]);
        lemma_registry_put(m1, m2, d as int, c);
        lemma_holds_insert(m1[d as int].clients@, c, w);
        assert(m2[s as int] == m1[s as int]);
        lemma_arranged_handles(
            m2[s as int].clients@,
            m3[s as int].clients@,
            |j: int| layout_cell(m2[s as int], j),
        );
        lemma_registry_same(m2, m3, s as int);
        assert(m3[d as int] == m2[d as int]);
        lemma_arranged_handles(
            m3[d as int].clients@,
            m4[d as int].clients@,
            |j: int| layout_cell(m3[d as int], j),
        );
        lemma_registry_same(m3, m4, d as int);
        assert(m4[s as int] == m3[s as int]);
        lemma_count_step(before, m1, s as int);
        lemma_count_step(m1, m2, d as int);
        lemma_count_step(m2, m3, s as int);
        lemma_count_step(m3, m4, d as int);
        assert(same_but_clients_of_two(before, m4, s as int, d as int)) by {
            assert forall|j: int| 0 <= j < before.len() && j != s && j != d implies #[trigger] m4[j]
                == before[j] by {
                assert(m1[j] == before[j]);
                assert(m2[j] == m1[j]);
                assert(m3[j] == m2[j]);
                assert(m4[j] == m3[j]);
            }
        }
        assert forall|j: int| 0 <= j < m4.len() implies (#[trigger] m4[j]).geom_ok() by {
            assert(before[j].geom_ok());
            if j != s && j != d {
                assert(m4[j] == before[j]);
            }
        }
        assert(actions@ =~= configure_all(m4[s as int].clients@) + configure_all(
            m4[d as int].clients@,
        ));
        assert forall|win: u64| manages(m4, win) <==> manages(before, win) by {
            if win == w {
                assert(manages(before, w));
            }
        }
    }
    (wm, actions)
}

/// Gives client `i` of workspace `k` the border width `bw`.
pub fn setBorderWidth<'a>(wm: WM<'a>, k: usize, i: usize, bw: u32) -> (r: WM<'a>)
    requires
        wm.wf(),
        k < wm.wss@.len(),
        i < wm.wss@[k as int].clients@.len(),
    ensures
        r.wf(),
        r == (WM { wss: r.wss, ..wm }),
        same_but_clients_of(wm.wss@, r.wss@, k as int),
        r.wss@[k as int].clients@ == wm.wss@[k as int].clients@.update(
            i as int,
            (Client { bw, ..wm.wss@[k as int].clients@[i as int] }),
        ),
        forall|win: u64| manages(r.wss@, win) <==> manages(wm.wss@, win),
        client_count(r.wss@) == client_count(wm.wss@),
{
    let mut wm = wm;
    let ghost before = wm.wss@;
    let mut ws = wm.wss.remove(k);
    let c = ws.clients[i];
    ws.clients.set(i, Client { bw, ..c });
    wm.wss.insert(k, ws);
    proof {
        let after = wm.wss@;
        let old_clients = before[k as int].clients@;
        let new_clients = after[k as int].clients@;
        assert(same_but_clients_of(before, after, k as int));
        assert forall|j: int| 0 <= j < old_clients.len() implies (#[trigger] new_clients[j]).win
            == old_clients[j].win by {}
        assert forall|win: u64| holds(old_clients, win) <==> holds(new_clients, win) by {
            if holds(old_clients, win) {
                let j = choose|j: int| 0 <= j < old_clients.len() && (#[trigger] old_clients[j]).win == win;
                assert(new_clients[j].win == win);
            }
            if holds(new_clients, win) {
                let j = choose|j: int| 0 <= j < new_clients.len() && (#[trigger] new_clients[j]).win == win;
                assert(old_clients[j].win == win);
            }
        }
        assert(distinct_handles(before[k as int].clients@));
        assert(distinct_handles(new_clients)) by {
            assert forall|x: int, y: int|
                0 <= x < new_clients.len() && 0 <= y < new_clients.len() && #[trigger] new_clients[x].win
                    == #[trigger] new_clients[y].win implies x == y by {
                assert(old_clients[x].win == new_clients[x].win);
                assert(old_clients[y].win == new_clients[y].win);
            }
        }
        lemma_registry_same(before, after, k as int);
        lemma_count_step(before, after, k as int);
        assert forall|j: int| 0 <= j < after.len() implies (#[trigger] after[j]).geom_ok() by {
            assert(before[j].geom_ok());
            if j != k {
                assert(after[j] == before[j]);
            }
        }
    }
    wm
}

/// In a registry that keeps its invariant a managed window has exactly one
/// place: one workspace holds it, at one place of its sequence.
pub proof fn lemma_exactly_one_place(wss: Seq<Workspace>, win: u64)
    requires
        registry_ok(wss),
        manages(wss, win),
    ensures
        exists|k: int, i: int|
            {
                &&& 0 <= k < wss.len()
                &&& 0 <= i < wss[k].clients@.len()
                &&& #[trigger] wss[k].clients@[i].win == win
                &&& forall|k2: int, i2: int|
                    0 <= k2 < wss.len() && 0 <= i2 < wss[k2].clients@.len()
                        && #[trigger] wss[k2].clients@[i2].win == win ==> k2 == k && i2 == i
            },
{
    let k = choose|k: int| held_in(wss, k, win);
    let i = choose|i: int| 0 <= i < wss[k].clients@.len() && (#[trigger] wss[k].clients@[i]).win == win;
    assert(distinct_handles(wss[k].clients@));
    assert forall|k2: int, i2: int|
        0 <= k2 < wss.len() && 0 <= i2 < wss[k2].clients@.len() && #[trigger] wss[k2].clients@[i2].win
            == win implies k2 == k && i2 == i by {
        assert(held_in(wss, k2, win));
        assert(held_in(wss, k, win));
    }
    assert(wss[k].clients@[i].win == win);
}

/// Tells whether the registry keeps its invariant.
pub fn registryOk(wss: &Vec<Workspace>) -> (r: bool)
    ensures
        r == registry_ok(wss@),
{
    let n = wss.len();
    let mut k: usize = 0;
    while k < n
        invariant
            n == wss@.len(),
            k <= n,
            forall|j: int| 0 <= j < k ==> distinct_handles((#[trigger] wss@[j]).clients@),
        decreases n - k,
    {
        if !distinctHandles(&wss[k].clients) {
            return false;
        }
        k += 1;
    }
    let mut k1: usize = 0;
    while k1 < n
        invariant
            n == wss@.len(),
            k1 <= n,
            forall|j: int| 0 <= j < n ==> distinct_handles((#[trigger] wss@[j]).clients@),
            forall|a: int, b: int, i: int|
                0 <= a < k1 && a < b < n && 0 <= i < wss@[a].clients@.len() ==> !#[trigger] held_in(
                    wss@,
                    b,
                    (#[trigger] wss@[a].clients@[i]).win,
                ),
        decreases n - k1,
    {
        let m = wss[k1].clients.len();
        let mut k2: usize = k1 + 1;
        while k2 < n
            invariant
                n == wss@.len(),
                k1 < n,
                k1 < k2 <= n,
                m == wss@[k1 as int].clients@.len(),
                forall|b: int, i: int|
                    k1 < b < k2 && 0 <= i < m ==> !#[trigger] held_in(
                        wss@,
                        b,
                        (#[trigger] wss@[k1 as int].clients@[i]).win,
                    ),
            decreases n - k2,
        {
            let mut i: usize = 0;
            while i < m
                invariant
                    n == wss@.len(),
                    k1 < k2 < n,
                    m == wss@[k1 as int].clients@.len(),
                    i <= m,
                    forall|j: int|
                        0 <= j < i ==> !held_in(
                            wss@,
                            k2 as int,
                            (#[trigger] wss@[k1 as int].clients@[j]).win,
                        ),
                decreases m - i,
            {
                let win = wss[k1].clients[i].win;
                if findClient(&wss[k2].clients, win).is_some() {
                    assert(held_in(wss@, k1 as int, win));
                    assert(held_in(wss@, k2 as int, win));
                    return false;
                }
                i += 1;
            }
            k2 += 1;
        }
        k1 += 1;
    }
    assert forall|a: int, b: int, win: u64|
        #[trigger] held_in(wss@, a, win) && #[trigger] held_in(wss@, b, win) implies a == b by {
        let i = choose|i: int| 0 <= i < wss@[a].clients@.len() && (#[trigger] wss@[a].clients@[i]).win == win;
        let j = choose|j: int| 0 <= j < wss@[b].clients@.len() && (#[trigger] wss@[b].clients@[j]).win == win;
        if a < b {
            assert(!held_in(wss@, b, wss@[a].clients@[i].win));
        }
        if b < a {
            assert(!held_in(wss@, a, wss@[b].clients@[j].win));
        }
    }
    true
}

/// Tells whether the state is well formed.
pub fn wellFormed(wm: &WM) -> (r: bool)
    ensures
        r == wm.wf(),
{
    let n = wm.wss.len();
    if wm.selwsindex >= n || wm.oldwsindex >= n {
        return false;
    }
    let mut k: usize = 0;
    while k < n
        invariant
            n == wm.wss@.len(),
            k <= n,
            forall|j: int| 0 <= j < k ==> (#[trigger] wm.wss@[j]).geom_ok(),
        decreases n - k,
    {
        if !geomOk(&wm.wss[k]) {
            return false;
        }
        k += 1;
    }
    registryOk(&wm.wss)
}

} // verus!
