use vstd::prelude::*;

use crate::config;
use crate::display::{configure_all, configure_of, hide_all, show_all, Action};
use crate::wm::client::{configure, hideClient, setGeom, showClient, with_geom, Client};
use crate::drw::{
    lemma_tag_x_grows, marker_side, tag_draws, tag_x, tags_plan, text_width, Draw, Drw,
};
use crate::{Pertag, SCHEMENORM, SCHEMESEL};

verus! {

/// A rectangle on the screen, in mathematical integers.
pub struct Cell {
    pub x: int,
    pub y: int,
    pub w: int,
    pub h: int,
}

/// The arrangement algorithms a workspace can select.
#[derive(Clone, Copy, Debug, PartialEq, Eq, Structural)]
pub enum Arrange {
    Tile,
    Monocle,
    Floating,
    Grid,
}

/// Stores a layout: the symbol shown in the bar and the algorithm.
#[derive(Clone, Copy, Debug, PartialEq, Eq)]
pub struct Layout<'a> {
    pub symbol: &'a str,
    pub arrange: Arrange,
}

/// Stores a workspace: its clients in master-to-stack order and its settings.
pub struct Workspace<'a> {
    /// Width of the master region in thousandths of the content width
    pub mfact: u32,
    pub nmaster: u32,
    pub num: i32,
    pub tag: &'a str,
    /// Y position and height of the bar
    pub by: i32,
    pub bh: u32,
    pub x: i32,
    pub y: i32,
    pub w: u32,
    pub h: u32,
    pub seltags: u32,
    pub sellt: u32,
    pub tagset: Vec<u32>,
    pub showbar: bool,
    pub topbar: bool,
    pub clients: Vec<Client<'a>>,
    pub barwin: u64,
    pub lt: Layout<'a>,
    pub pertag: Pertag<'a>,
}

/// Two workspaces are the same workspace when they have the same number.
impl<'a> PartialEq for Workspace<'a> {
    fn eq(&self, other: &Workspace<'a>) -> (r: bool) {
        self.num == other.num
    }
}

impl<'a> vstd::std_specs::cmp::PartialEqSpecImpl for Workspace<'a> {
    open spec fn obeys_eq_spec() -> bool {
        true
    }

    open spec fn eq_spec(&self, other: &Workspace<'a>) -> bool {
        self.num == other.num
    }
}

/// The window handles of a client sequence, in order.
pub open spec fn handles(clients: Seq<Client>) -> Seq<u64> {
    Seq::new(clients.len(), |i: int| clients[i].win)
}

/// No window handle occurs twice in the sequence.
pub open spec fn distinct_handles(clients: Seq<Client>) -> bool {
    forall|i: int, j: int|
        0 <= i < clients.len() && 0 <= j < clients.len() && #[trigger] clients[i].win
            == #[trigger] clients[j].win ==> i == j
}

/// `b` is `a` with nothing changed but position and size.
pub open spec fn same_but_geom(a: Client, b: Client) -> bool {
    b == with_geom(a, b.x, b.y, b.w, b.h)
}

/// The client occupies exactly the rectangle `cell`.
pub open spec fn placed(c: Client, cell: Cell) -> bool {
    c.x == cell.x && c.y == cell.y && c.w == cell.w && c.h == cell.h
}

impl<'a> Workspace<'a> {
    /// The workspace's rectangle fits the coordinate range, and the bar fits
    /// the workspace.
    pub open spec fn area_ok(&self) -> bool {
        &&& self.x + self.w <= i32::MAX
        &&& self.y + self.h <= i32::MAX
        &&& self.showbar ==> self.bh <= self.h
    }

    /// The workspace's area is sound, and the master fraction is at most one.
    pub open spec fn geom_ok(&self) -> bool {
        self.area_ok() && self.mfact <= 1000
    }

    /// A workspace is well formed when its geometry is and no client occurs twice.
    pub open spec fn wf(&self) -> bool {
        self.geom_ok() && distinct_handles(self.clients@)
    }

    /// The content rectangle: the workspace area less the bar where it shows.
    pub open spec fn content(&self) -> Cell {
        Cell {
            x: self.x as int,
            y: if self.showbar && self.topbar {
                self.y + self.bh
            } else {
                self.y as int
            },
            w: self.w as int,
            h: if self.showbar {
                self.h - self.bh
            } else {
                self.h as int
            },
        }
    }

    /// `r` differs from `self` in the geometry of its clients at most, and client
    /// `i` of `r` occupies `cell(i)`.
    pub open spec fn arranged_as(&self, r: Workspace<'a>, cell: spec_fn(int) -> Cell) -> bool {
        &&& r == (Workspace { clients: r.clients, ..*self })
        &&& arranged(self.clients@, r.clients@, cell)
    }
}

/// The clients `after` are the clients `before`, in the same order and with
/// nothing changed but their geometry, and client `i` occupies `cell(i)`.
pub open spec fn arranged(before: Seq<Client>, after: Seq<Client>, cell: spec_fn(int) -> Cell) -> bool {
    &&& after.len() == before.len()
    &&& forall|i: int|
        0 <= i < before.len() ==> same_but_geom(before[i], #[trigger] after[i]) && placed(
            after[i],
            cell(i),
        )
}

/// Left edge of the content rectangle.
pub fn minX(ws: &Workspace) -> (r: i32)
    ensures
        r == ws.content().x,
{
    ws.x
}

/// Width of the content rectangle.
pub fn maxW(ws: &Workspace) -> (r: u32)
    ensures
        r == ws.content().w,
{
    ws.w
}

/// Top edge of the content rectangle: below the bar where it shows on top.
pub fn minY(ws: &Workspace) -> (r: i32)
    requires
        ws.showbar && ws.topbar ==> ws.y + ws.bh <= i32::MAX,
    ensures
        r == ws.content().y,
{
    if ws.showbar && ws.topbar {
        (ws.y as i64 + ws.bh as i64) as i32
    } else {
        ws.y
    }
}

/// Height of the content rectangle: the bar's height is taken off where it shows.
pub fn maxH(ws: &Workspace) -> (r: u32)
    requires
        ws.showbar ==> ws.bh <= ws.h,
    ensures
        r == ws.content().h,
{
    if ws.showbar {
        ws.h - ws.bh
    } else {
        ws.h
    }
}

/// The floating layout: every client keeps the geometry it has.
pub fn noArrange<'a>(ws: Workspace<'a>) -> (r: Workspace<'a>)
    ensures
        r == ws,
{
    ws
}

/// Sum of the widths of the clients of a sequence.
pub open spec fn total_width(clients: Seq<Client>) -> int
    decreases clients.len(),
{
    if clients.len() == 0 {
        0
    } else {
        total_width(clients.drop_last()) + clients.last().w
    }
}

/// The rectangles of two clients share a point.
pub open spec fn overlap(a: Client, b: Client) -> bool {
    &&& a.x < b.x + b.w
    &&& b.x < a.x + a.w
    &&& a.y < b.y + b.h
    &&& b.y < a.y + a.h
}

/// The rectangle of the client lies within the rectangle `area`.
pub open spec fn inside(c: Client, area: Cell) -> bool {
    &&& area.x <= c.x
    &&& c.x + c.w <= area.x + area.w
    &&& area.y <= c.y
    &&& c.y + c.h <= area.y + area.h
}

/// Two cells share no point: one ends where the other begins, or before it,
/// in one of the two directions.
pub open spec fn cells_apart(a: Cell, b: Cell) -> bool {
    a.x + a.w <= b.x || b.x + b.w <= a.x || a.y + a.h <= b.y || b.y + b.h <= a.y
}

/// Number of clients that the tile layout puts into the master region.
pub open spec fn tile_masters(n: int, nmaster: int) -> int {
    if nmaster < n {
        nmaster
    } else {
        n
    }
}

/// Width of the master region: the `mfact` share of the content width, all of
/// it where no client is left for the stack, none of it where there is no master.
pub open spec fn tile_master_width(w: int, n: int, nmaster: int, mfact: int) -> int {
    if nmaster <= 0 {
        0
    } else if nmaster >= n {
        w
    } else {
        w * mfact / 1000
    }
}

/// The cell of client `i` among `n` in the tile layout. The master region lies
/// left and holds the first clients, the stack region right of it holds the
/// others; each region is as high as the content rectangle, and its clients
/// share that height evenly, one below the other.
pub open spec fn tile_cell(area: Cell, n: int, nmaster: int, mfact: int, i: int) -> Cell {
    let m = tile_masters(n, nmaster);
    let mw = tile_master_width(area.w, n, nmaster, mfact);
    if i < m {
        Cell { x: area.x, y: area.y + i * (area.h / m), w: mw, h: area.h / m }
    } else {
        Cell {
            x: area.x + mw,
            y: area.y + (i - m) * (area.h / (n - m)),
            w: area.w - mw,
            h: area.h / (n - m),
        }
    }
}

/// An even share of `total` among `parts`: the shares up to and including share
/// `i` fit into `total`, and all shares together leave less than `parts` over.
pub proof fn lemma_even_split(total: int, parts: int, i: int)
    requires
        0 <= total,
        0 < parts,
        0 <= i < parts,
    ensures
        0 <= total / parts,
        0 <= i * (total / parts),
        (i + 1) * (total / parts) <= total,
        total - parts < parts * (total / parts) <= total,
{
    let q = total / parts;
    vstd::arithmetic::div_mod::lemma_fundamental_div_mod(total, parts);
    vstd::arithmetic::div_mod::lemma_mod_bound(total, parts);
    vstd::arithmetic::div_mod::lemma_div_pos_is_pos(total, parts);
    assert(0 <= i * q) by (nonlinear_arith)
        requires
            0 <= i,
            0 <= q,
    ;
    assert((i + 1) * q <= parts * q) by (nonlinear_arith)
        requires
            i + 1 <= parts,
            0 <= q,
    ;
}

/// The master region is no wider than the content rectangle.
pub proof fn lemma_master_width_bound(w: int, n: int, nmaster: int, mfact: int)
    requires
        0 <= w,
        0 <= mfact <= 1000,
    ensures
        0 <= tile_master_width(w, n, nmaster, mfact) <= w,
{
    assert(0 <= w * mfact / 1000 <= w) by (nonlinear_arith)
        requires
            0 <= w,
            0 <= mfact <= 1000,
    ;
}

/// The cell of every client in the tile layout lies within the content rectangle.
pub proof fn lemma_tile_cell_inside(area: Cell, n: int, nmaster: int, mfact: int, i: int)
    requires
        0 <= area.w,
        0 <= area.h,
        0 <= mfact <= 1000,
        0 <= nmaster,
        0 <= i < n,
    ensures
        ({
            let c = tile_cell(area, n, nmaster, mfact, i);
            &&& area.x <= c.x
            &&& area.y <= c.y
            &&& 0 <= c.w
            &&& 0 <= c.h
            &&& c.x + c.w <= area.x + area.w
            &&& c.y + c.h <= area.y + area.h
        }),
{
    let m = tile_masters(n, nmaster);
    lemma_master_width_bound(area.w, n, nmaster, mfact);
    if i < m {
        lemma_even_split(area.h, m, i);
        assert((i + 1) * (area.h / m) == i * (area.h / m) + area.h / m) by (nonlinear_arith);
    } else {
        lemma_even_split(area.h, n - m, i - m);
        assert((i - m + 1) * (area.h / (n - m)) == (i - m) * (area.h / (n - m)) + area.h / (n
            - m)) by (nonlinear_arith);
    }
}

/// No two cells of the tile layout overlap: the stack region begins where the
/// master region ends, and in a region a later client begins where the one
/// before it ends, or below.
pub proof fn lemma_tile_cells_apart(area: Cell, n: int, nmaster: int, mfact: int, i: int, j: int)
    requires
        0 <= area.w,
        0 <= area.h,
        0 <= mfact <= 1000,
        0 <= nmaster,
        0 <= i < j < n,
    ensures
        cells_apart(tile_cell(area, n, nmaster, mfact, i), tile_cell(area, n, nmaster, mfact, j)),
{
    let m = tile_masters(n, nmaster);
    lemma_master_width_bound(area.w, n, nmaster, mfact);
    if j < m {
        let ch = area.h / m;
        lemma_even_split(area.h, m, i);
        assert(i * ch + ch <= j * ch) by (nonlinear_arith)
            requires
                i + 1 <= j,
                0 <= ch,
        ;
    } else if i >= m {
        let ch = area.h / (n - m);
        lemma_even_split(area.h, n - m, i - m);
        assert((i - m) * ch + ch <= (j - m) * ch) by (nonlinear_arith)
            requires
                i - m + 1 <= j - m,
                0 <= ch,
        ;
    }
}

/// The widths of a sequence whose first `m` clients are `a` wide and whose
/// other clients are `b` wide add up to that many times `a` and `b`.
pub proof fn lemma_total_width_two_runs(s: Seq<Client>, m: int, a: int, b: int)
    requires
        0 <= m,
        forall|i: int|
            0 <= i < s.len() ==> (#[trigger] s[i]).w == (if i < m {
                a
            } else {
                b
            }),
    ensures
        total_width(s) == (if s.len() <= m {
            s.len() * a
        } else {
            m * a + (s.len() - m) * b
        }),
    decreases s.len(),
{
    if s.len() > 0 {
        let t = s.drop_last();
        let k = t.len() as int;
        assert forall|i: int| 0 <= i < t.len() implies (#[trigger] t[i]).w == (if i < m {
            a
        } else {
            b
        }) by {
            assert(t[i] == s[i]);
        }
        lemma_total_width_two_runs(t, m, a, b);
        assert((k + 1) * a == k * a + a) by (nonlinear_arith);
        assert((k + 1 - m) * b == (k - m) * b + b) by (nonlinear_arith);
        assert(s.len() == k + 1);
        if k < m {
            assert(s.last().w == a);
        } else {
            assert(s.last().w == b);
            if k == m {
                assert((k - m) * b == 0) by (nonlinear_arith)
                    requires
                        k - m == 0,
                ;
            }
        }
    }
}

/// No region of the tile layout that has a width holds more than one client.
pub open spec fn tile_one_per_region(w: int, n: int, nmaster: int, mfact: int) -> bool {
    let m = tile_masters(n, nmaster);
    let mw = tile_master_width(w, n, nmaster, mfact);
    (m > 1 ==> mw == 0) && (n - m > 1 ==> w - mw == 0)
}

/// The widths of tiled clients and the content width: the widths never add up
/// to less than the content width, and they add up to just that width where,
/// and only where, no region that has a width holds more than one client.
/// The clients of a region stand one below the other, each as wide as the
/// region, so every further client of a region adds the region's width again.
pub proof fn lemma_tile_widths<'a>(ws: Workspace<'a>, r: Workspace<'a>)
    requires
        ws.geom_ok(),
        ws.clients@.len() >= 1,
        ws.arranged_as(
            r,
            |i: int|
                tile_cell(ws.content(), ws.clients@.len() as int, ws.nmaster as int, ws.mfact as int, i),
        ),
    ensures
        total_width(r.clients@) >= ws.content().w,
        total_width(r.clients@) == ws.content().w <==> tile_one_per_region(
            ws.content().w,
            ws.clients@.len() as int,
            ws.nmaster as int,
            ws.mfact as int,
        ),
{
    let area = ws.content();
    let w = area.w;
    let n = ws.clients@.len() as int;
    let nm = ws.nmaster as int;
    let mf = ws.mfact as int;
    let m = tile_masters(n, nm);
    let mw = tile_master_width(w, n, nm, mf);
    let sw = w - mw;
    let s = r.clients@;
    lemma_master_width_bound(w, n, nm, mf);
    assert forall|i: int| 0 <= i < s.len() implies (#[trigger] s[i]).w == (if i < m {
        mw
    } else {
        sw
    }) by {
        assert(placed(s[i], tile_cell(area, n, nm, mf, i)));
    }
    lemma_total_width_two_runs(s, m, mw, sw);
    let total = total_width(s);
    if m == 0 {
        assert(m * mw == 0) by (nonlinear_arith)
            requires
                m == 0,
        ;
        assert(total == n * w);
        assert(n * w - w == (n - 1) * w) by (nonlinear_arith);
        assert((n - 1) * w >= 0 && ((n - 1) * w == 0 <==> (n - 1 == 0 || w == 0)))
            by (nonlinear_arith)
            requires
                n - 1 >= 0,
                w >= 0,
        ;
    } else if m == n {
        assert(total == n * w);
        assert(n * w - w == (n - 1) * w) by (nonlinear_arith);
        assert((n - 1) * w >= 0 && ((n - 1) * w == 0 <==> (n - 1 == 0 || w == 0)))
            by (nonlinear_arith)
            requires
                n - 1 >= 0,
                w >= 0,
        ;
    } else {
        let a = m - 1;
        let b = n - m - 1;
        assert(total == m * mw + (n - m) * sw);
        assert(m * mw + (n - m) * sw - w == a * mw + b * sw) by (nonlinear_arith)
            requires
                a == m - 1,
                b == n - m - 1,
                sw == w - mw,
        ;
        assert(a * mw >= 0 && (a * mw == 0 <==> (a == 0 || mw == 0))) by (nonlinear_arith)
            requires
                a >= 0,
                mw >= 0,
        ;
        assert(b * sw >= 0 && (b * sw == 0 <==> (b == 0 || sw == 0))) by (nonlinear_arith)
            requires
                b >= 0,
                sw >= 0,
        ;
    }
}

/// The tile layout. No client: nothing to do. Otherwise the first `nmaster`
/// clients share the master region and the others the stack region, as
/// `tile_cell` says; a single client so receives the whole content rectangle.
/// No two clients overlap, and every client lies within the content rectangle.
pub fn tileArrange<'a>(ws: Workspace<'a>) -> (r: Workspace<'a>)
    requires
        ws.geom_ok(),
    ensures
        ws.arranged_as(
            r,
            |i: int|
                tile_cell(ws.content(), ws.clients@.len() as int, ws.nmaster as int, ws.mfact as int, i),
        ),
        forall|i: int, j: int|
            0 <= i < r.clients@.len() && 0 <= j < r.clients@.len() && i != j ==> !overlap(
                #[trigger] r.clients@[i],
                #[trigger] r.clients@[j],
            ),
        forall|i: int| 0 <= i < r.clients@.len() ==> inside(#[trigger] r.clients@[i], ws.content()),
{
    let n = ws.clients.len();
    let x = minX(&ws);
    let y = minY(&ws);
    let w = maxW(&ws);
    let h = maxH(&ws);
    let ghost area = ws.content();
    let ghost nm = ws.nmaster as int;
    let ghost mf = ws.mfact as int;
    let m: usize = if (ws.nmaster as usize) < n {
        ws.nmaster as usize
    } else {
        n
    };
    proof {
        lemma_master_width_bound(w as int, n as int, nm, mf);
    }
    let mw: u32 = if ws.nmaster == 0 {
        0
    } else if ws.nmaster as usize >= n {
        w
    } else {
        ((w as u64 * ws.mfact as u64) / 1000) as u32
    };
    let mch: u32 = if m > 0 {
        (h as u64 / m as u64) as u32
    } else {
        0
    };
    let sch: u32 = if n > m {
        (h as u64 / (n - m) as u64) as u32
    } else {
        0
    };
    let mut out: Vec<Client<'a>> = Vec::new();
    let mut i: usize = 0;
    while i < n
        invariant
            ws.geom_ok(),
            area == ws.content(),
            nm == ws.nmaster,
            mf == ws.mfact,
            x == area.x,
            y == area.y,
            w == area.w,
            h == area.h,
            n == ws.clients@.len(),
            m == tile_masters(n as int, nm),
            mw == tile_master_width(area.w, n as int, nm, mf),
            mw <= w,
            m > 0 ==> mch == h as int / m as int,
            n > m ==> sch == h as int / (n - m),
            i <= n,
            out@.len() == i,
            forall|j: int|
                0 <= j < i ==> same_but_geom(ws.clients@[j], #[trigger] out@[j]) && placed(
                    out@[j],
                    tile_cell(area, n as int, nm, mf, j),
                ),
        decreases n - i,
    {
        let c = ws.clients[i];
        proof {
            lemma_tile_cell_inside(area, n as int, nm, mf, i as int);
            if i < m {
                lemma_even_split(h as int, m as int, i as int);
            } else {
                lemma_even_split(h as int, (n - m) as int, (i - m) as int);
            }
        }
        let placed_client = if i < m {
            let off: u64 = i as u64 * mch as u64;
            setGeom(c, x, (y as i64 + off as i64) as i32, mw, mch)
        } else {
            let off: u64 = (i - m) as u64 * sch as u64;
            setGeom(c, (x as i64 + mw as i64) as i32, (y as i64 + off as i64) as i32, w - mw, sch)
        };
        out.push(placed_client);
        i += 1;
    }
    let r = Workspace { clients: out, ..ws };
    proof {
        assert forall|i: int, j: int|
            0 <= i < r.clients@.len() && 0 <= j < r.clients@.len() && i != j implies !overlap(
            #[trigger] r.clients@[i],
            #[trigger] r.clients@[j],
        ) by {
            assert(placed(r.clients@[i], tile_cell(area, n as int, nm, mf, i)));
            assert(placed(r.clients@[j], tile_cell(area, n as int, nm, mf, j)));
            if i < j {
                lemma_tile_cells_apart(area, n as int, nm, mf, i, j);
            } else {
                lemma_tile_cells_apart(area, n as int, nm, mf, j, i);
            }
        }
        assert forall|i: int| 0 <= i < r.clients@.len() implies inside(
            #[trigger] r.clients@[i],
            area,
        ) by {
            assert(placed(r.clients@[i], tile_cell(area, n as int, nm, mf, i)));
            lemma_tile_cell_inside(area, n as int, nm, mf, i);
        }
    }
    r
}

/// The smallest number from `from` on whose square reaches `n`.
pub open spec fn square_root_up(n: int, from: int) -> int
    decreases n - from,
{
    if from >= n || from * from >= n {
        from
    } else {
        square_root_up(n, from + 1)
    }
}

/// Number of columns of the grid for `n` clients: the smallest number whose
/// square reaches `n`, but two columns for five clients.
pub open spec fn grid_cols(n: int) -> int {
    if n == 5 {
        2
    } else {
        square_root_up(n, 0)
    }
}

/// Number of rows in the grid's shorter columns.
pub open spec fn grid_rows(n: int) -> int {
    n / grid_cols(n)
}

/// Number of the grid's shorter columns; they come first. The columns after
/// them hold one row more and so take up what the division leaves over.
pub open spec fn grid_short_cols(n: int) -> int {
    grid_cols(n) - n % grid_cols(n)
}

/// Number of rows in the grid's tallest column.
pub open spec fn grid_height(n: int) -> int {
    if n % grid_cols(n) == 0 {
        grid_rows(n)
    } else {
        grid_rows(n) + 1
    }
}

/// Number of rows in column `col` of the grid.
pub open spec fn grid_rows_in(n: int, col: int) -> int {
    if col < grid_short_cols(n) {
        grid_rows(n)
    } else {
        grid_rows(n) + 1
    }
}

/// Column of client `i` in the grid: the columns fill one after the other, top
/// to bottom.
pub open spec fn grid_col(n: int, i: int) -> int {
    let rows = grid_rows(n);
    let short = grid_short_cols(n);
    if i < short * rows {
        i / rows
    } else {
        short + (i - short * rows) / (rows + 1)
    }
}

/// Row of client `i` in its column of the grid.
pub open spec fn grid_row(n: int, i: int) -> int {
    let rows = grid_rows(n);
    let short = grid_short_cols(n);
    if i < short * rows {
        i % rows
    } else {
        (i - short * rows) % (rows + 1)
    }
}

/// The client that stands in row `row` of column `col` of the grid.
pub open spec fn grid_index(n: int, col: int, row: int) -> int {
    let rows = grid_rows(n);
    let short = grid_short_cols(n);
    if col < short {
        col * rows + row
    } else {
        short * rows + (col - short) * (rows + 1) + row
    }
}

/// The cell of client `i` among `n` in the grid layout: all columns are equally
/// wide, and the rows of a column share its height evenly.
pub open spec fn grid_cell(area: Cell, n: int, i: int) -> Cell {
    let col = grid_col(n, i);
    let row = grid_row(n, i);
    let cw = area.w / grid_cols(n);
    let ch = area.h / grid_rows_in(n, col);
    Cell { x: area.x + col * cw, y: area.y + row * ch, w: cw, h: ch }
}

/// What `square_root_up` finds: it lies between the start and `n`, its square
/// reaches `n`, and no smaller number from the start on has such a square.
pub proof fn lemma_square_root_up(n: int, from: int)
    requires
        0 <= from <= n,
    ensures
        from <= square_root_up(n, from) <= n,
        square_root_up(n, from) * square_root_up(n, from) >= n,
        forall|c: int| from <= c < square_root_up(n, from) ==> #[trigger] (c * c) < n,
    decreases n - from,
{
    if from >= n || from * from >= n {
        assert(n * n >= n) by (nonlinear_arith)
            requires
                0 <= n,
        ;
    } else {
        lemma_square_root_up(n, from + 1);
    }
}

/// The shape of the grid for `n >= 1` clients: there is at least one column and
/// one row, no more columns than clients, and the columns hold all clients.
pub proof fn lemma_grid_shape(n: int)
    requires
        1 <= n,
    ensures
        1 <= grid_cols(n) <= n,
        1 <= grid_rows(n),
        0 <= n % grid_cols(n) < grid_cols(n),
        1 <= grid_short_cols(n) <= grid_cols(n),
        n == grid_cols(n) * grid_rows(n) + n % grid_cols(n),
        n == grid_short_cols(n) * grid_rows(n) + (n % grid_cols(n)) * (grid_rows(n) + 1),
        0 <= grid_short_cols(n) * grid_rows(n) <= n,
{
    let c = grid_cols(n);
    if n != 5 {
        lemma_square_root_up(n, 0);
        if c == 0 {
            assert(c * c == 0) by (nonlinear_arith)
                requires
                    c == 0,
            ;
        }
    }
    let rows = n / c;
    let rem = n % c;
    vstd::arithmetic::div_mod::lemma_fundamental_div_mod(n, c);
    vstd::arithmetic::div_mod::lemma_mod_bound(n, c);
    if rows <= 0 {
        vstd::arithmetic::div_mod::lemma_div_pos_is_pos(n, c);
        assert(c * rows == 0) by (nonlinear_arith)
            requires
                rows == 0,
        ;
    }
    assert((c - rem) * rows + rem * (rows + 1) == c * rows + rem) by (nonlinear_arith);
    assert(0 <= (c - rem) * rows) by (nonlinear_arith)
        requires
            0 <= c - rem,
            0 <= rows,
    ;
    assert(0 <= rem * (rows + 1)) by (nonlinear_arith)
        requires
            0 <= rem,
            0 <= rows,
    ;
}

/// Every client has its place in the grid: a column that exists and a row that
/// its column holds, and it is the client that stands there.
pub proof fn lemma_grid_place(n: int, i: int)
    requires
        0 <= i < n,
    ensures
        0 <= grid_col(n, i) < grid_cols(n),
        0 <= grid_row(n, i) < grid_rows_in(n, grid_col(n, i)),
        grid_index(n, grid_col(n, i), grid_row(n, i)) == i,
{
    lemma_grid_shape(n);
    let rows = grid_rows(n);
    let short = grid_short_cols(n);
    let rem = n % grid_cols(n);
    let split = short * rows;
    if i < split {
        vstd::arithmetic::div_mod::lemma_fundamental_div_mod(i, rows);
        vstd::arithmetic::div_mod::lemma_mod_bound(i, rows);
        vstd::arithmetic::div_mod::lemma_div_pos_is_pos(i, rows);
        assert(i < rows * short) by (nonlinear_arith)
            requires
                i < short * rows,
        ;
        vstd::arithmetic::div_mod::lemma_multiply_divide_lt(i, rows, short);
        assert((i / rows) * rows == rows * (i / rows)) by (nonlinear_arith);
    } else {
        let k = i - split;
        let tall = rows + 1;
        vstd::arithmetic::div_mod::lemma_fundamental_div_mod(k, tall);
        vstd::arithmetic::div_mod::lemma_mod_bound(k, tall);
        vstd::arithmetic::div_mod::lemma_div_pos_is_pos(k, tall);
        assert(k < tall * rem) by (nonlinear_arith)
            requires
                k < rem * tall,
        ;
        vstd::arithmetic::div_mod::lemma_multiply_divide_lt(k, tall, rem);
        assert((k / tall) * tall == tall * (k / tall)) by (nonlinear_arith);
    }
}

/// The grid is as tight as it can be, and no cell holds two clients: the
/// columns times the rows of the tallest column reach the number of clients,
/// with one row less they do not, and two clients in the same column and row
/// are the same client.
pub proof fn lemma_grid_cells(n: int)
    requires
        1 <= n,
    ensures
        grid_cols(n) * grid_height(n) >= n,
        grid_cols(n) * (grid_height(n) - 1) < n,
        forall|i: int, j: int|
            0 <= i < n && 0 <= j < n && #[trigger] grid_col(n, i) == #[trigger] grid_col(n, j)
                && grid_row(n, i) == grid_row(n, j) ==> i == j,
{
    lemma_grid_shape(n);
    let c = grid_cols(n);
    let rows = grid_rows(n);
    assert(c * (rows + 1) == c * rows + c) by (nonlinear_arith);
    assert(c * (rows - 1) == c * rows - c) by (nonlinear_arith);
    assert forall|i: int, j: int|
        0 <= i < n && 0 <= j < n && #[trigger] grid_col(n, i) == #[trigger] grid_col(n, j)
            && grid_row(n, i) == grid_row(n, j) implies i == j by {
        lemma_grid_place(n, i);
        lemma_grid_place(n, j);
    }
}

/// The number of columns of any grid but that of five clients is the smallest
/// whose square reaches the number of clients.
pub proof fn lemma_grid_cols_least(n: int)
    requires
        1 <= n,
        n != 5,
    ensures
        grid_cols(n) * grid_cols(n) >= n,
        (grid_cols(n) - 1) * (grid_cols(n) - 1) < n,
{
    lemma_square_root_up(n, 0);
    let c = grid_cols(n);
    if c >= 1 {
        assert((c - 1) * (c - 1) < n);
    }
}

/// The cell of every client in the grid lies within the content rectangle.
pub proof fn lemma_grid_cell_inside(area: Cell, n: int, i: int)
    requires
        0 <= area.w,
        0 <= area.h,
        0 <= i < n,
    ensures
        area.x <= grid_cell(area, n, i).x,
        area.y <= grid_cell(area, n, i).y,
        0 <= grid_cell(area, n, i).w,
        0 <= grid_cell(area, n, i).h,
        grid_cell(area, n, i).x + grid_cell(area, n, i).w <= area.x + area.w,
        grid_cell(area, n, i).y + grid_cell(area, n, i).h <= area.y + area.h,
{
    lemma_grid_shape(n);
    lemma_grid_place(n, i);
    let col = grid_col(n, i);
    let row = grid_row(n, i);
    let cw = area.w / grid_cols(n);
    let ch = area.h / grid_rows_in(n, col);
    lemma_even_split(area.w, grid_cols(n), col);
    lemma_even_split(area.h, grid_rows_in(n, col), row);
    assert((col + 1) * cw == col * cw + cw) by (nonlinear_arith);
    assert((row + 1) * ch == row * ch + ch) by (nonlinear_arith);
}

/// No two cells of the grid overlap: in one column a client that stands in a
/// lower row begins where the one above it ends, or below; of two columns the
/// right one begins where the left one ends, or right of it.
pub proof fn lemma_grid_cells_apart(area: Cell, n: int, i: int, j: int)
    requires
        0 <= area.w,
        0 <= area.h,
        0 <= i < n,
        0 <= j < n,
        i != j,
    ensures
        cells_apart(grid_cell(area, n, i), grid_cell(area, n, j)),
{
    lemma_grid_shape(n);
    lemma_grid_place(n, i);
    lemma_grid_place(n, j);
    lemma_grid_cells(n);
    let ci = grid_col(n, i);
    let cj = grid_col(n, j);
    let ri = grid_row(n, i);
    let rj = grid_row(n, j);
    let cw = area.w / grid_cols(n);
    lemma_even_split(area.w, grid_cols(n), ci);
    if ci == cj {
        let ch = area.h / grid_rows_in(n, ci);
        lemma_even_split(area.h, grid_rows_in(n, ci), ri);
        assert(ri != rj);
        if ri < rj {
            assert(ri * ch + ch <= rj * ch) by (nonlinear_arith)
                requires
                    ri + 1 <= rj,
                    0 <= ch,
            ;
        } else {
            assert(rj * ch + ch <= ri * ch) by (nonlinear_arith)
                requires
                    rj + 1 <= ri,
                    0 <= ch,
            ;
        }
    } else if ci < cj {
        assert(ci * cw + cw <= cj * cw) by (nonlinear_arith)
            requires
                ci + 1 <= cj,
                0 <= cw,
        ;
    } else {
        assert(cj * cw + cw <= ci * cw) by (nonlinear_arith)
            requires
                cj + 1 <= ci,
                0 <= cw,
        ;
    }
}

/// Counts the columns of the grid for `n` clients.
fn countGridCols(n: usize) -> (c: usize)
    ensures
        c == grid_cols(n as int),
{
    if n == 5 {
        return 2;
    }
    let mut c: usize = 0;
    while c < n
        invariant
            c <= n,
            square_root_up(n as int, 0) == square_root_up(n as int, c as int),
        ensures
            c <= n,
            square_root_up(n as int, 0) == c,
        decreases n - c,
    {
        assert(c * c <= 0xFFFF_FFFF_FFFF_FFFF * 0xFFFF_FFFF_FFFF_FFFF) by (nonlinear_arith)
            requires
                0 <= c <= 0xFFFF_FFFF_FFFF_FFFF,
        ;
        if (c as u128) * (c as u128) >= n as u128 {
            break ;
        }
        c += 1;
    }
    c
}

/// The grid layout. No client: nothing to do. Otherwise the clients fill the
/// columns of a grid one after the other, as `grid_cell` says; a single client
/// so receives the whole content rectangle. No two clients overlap, and every
/// client lies within the content rectangle.
pub fn gridArrange<'a>(ws: Workspace<'a>) -> (r: Workspace<'a>)
    requires
        ws.area_ok(),
    ensures
        ws.arranged_as(r, |i: int| grid_cell(ws.content(), ws.clients@.len() as int, i)),
        forall|i: int, j: int|
            0 <= i < r.clients@.len() && 0 <= j < r.clients@.len() && i != j ==> !overlap(
                #[trigger] r.clients@[i],
                #[trigger] r.clients@[j],
            ),
        forall|i: int| 0 <= i < r.clients@.len() ==> inside(#[trigger] r.clients@[i], ws.content()),
{
    let n = ws.clients.len();
    if n == 0 {
        return ws;
    }
    let x = minX(&ws);
    let y = minY(&ws);
    let w = maxW(&ws);
    let h = maxH(&ws);
    let ghost area = ws.content();
    let cols = countGridCols(n);
    proof {
        lemma_grid_shape(n as int);
    }
    let rows: usize = n / cols;
    let rem: usize = n % cols;
    let short: usize = cols - rem;
    let split: usize = short * rows;
    let cw: u32 = (w as u64 / cols as u64) as u32;
    let mut out: Vec<Client<'a>> = Vec::new();
    let mut i: usize = 0;
    while i < n
        invariant
            ws.area_ok(),
            area == ws.content(),
            x == area.x,
            y == area.y,
            w == area.w,
            h == area.h,
            1 <= n == ws.clients@.len(),
            cols == grid_cols(n as int),
            rows == grid_rows(n as int),
            rem == n as int % cols as int,
            short == grid_short_cols(n as int),
            split == short * rows,
            cw == w as int / cols as int,
            i <= n,
            out@.len() == i,
            forall|j: int|
                0 <= j < i ==> same_but_geom(ws.clients@[j], #[trigger] out@[j]) && placed(
                    out@[j],
                    grid_cell(area, n as int, j),
                ),
        decreases n - i,
    {
        let c = ws.clients[i];
        proof {
            lemma_grid_shape(n as int);
            lemma_grid_place(n as int, i as int);
            lemma_grid_cell_inside(area, n as int, i as int);
            if i >= split {
                assert(rows + 1 <= rem * (rows + 1)) by (nonlinear_arith)
                    requires
                        1 <= rem,
                        0 <= rows,
                ;
            }
        }
        let tall: bool = i >= split;
        let rc: usize = if tall {
            rows + 1
        } else {
            rows
        };
        let k: usize = if tall {
            i - split
        } else {
            i
        };
        let col: usize = if tall {
            short + k / rc
        } else {
            k / rc
        };
        let row: usize = k % rc;
        let ch: u32 = (h as u64 / rc as u64) as u32;
        assert(col == grid_col(n as int, i as int));
        assert(row == grid_row(n as int, i as int));
        assert(rc == grid_rows_in(n as int, col as int));
        let xo: u64 = col as u64 * cw as u64;
        let yo: u64 = row as u64 * ch as u64;
        out.push(setGeom(c, (x as i64 + xo as i64) as i32, (y as i64 + yo as i64) as i32, cw, ch));
        i += 1;
    }
    let r = Workspace { clients: out, ..ws };
    proof {
        assert forall|i: int, j: int|
            0 <= i < r.clients@.len() && 0 <= j < r.clients@.len() && i != j implies !overlap(
            #[trigger] r.clients@[i],
            #[trigger] r.clients@[j],
        ) by {
            assert(placed(r.clients@[i], grid_cell(area, n as int, i)));
            assert(placed(r.clients@[j], grid_cell(area, n as int, j)));
            lemma_grid_cells_apart(area, n as int, i, j);
        }
        assert forall|i: int| 0 <= i < r.clients@.len() implies inside(
            #[trigger] r.clients@[i],
            area,
        ) by {
            assert(placed(r.clients@[i], grid_cell(area, n as int, i)));
            lemma_grid_cell_inside(area, n as int, i);
        }
    }
    r
}

/// The cell the monocle layout gives to every client: the whole content rectangle.
pub open spec fn monocle_cell(area: Cell) -> Cell {
    area
}

/// The monocle layout: every client receives the whole content rectangle.
pub fn monocleArrange<'a>(ws: Workspace<'a>) -> (r: Workspace<'a>)
    requires
        ws.area_ok(),
    ensures
        ws.arranged_as(r, |i: int| monocle_cell(ws.content())),
{
    let n = ws.clients.len();
    let x = minX(&ws);
    let y = minY(&ws);
    let w = maxW(&ws);
    let h = maxH(&ws);
    let mut out: Vec<Client<'a>> = Vec::new();
    let mut i: usize = 0;
    while i < n
        invariant
            n == ws.clients@.len(),
            i <= n,
            out@.len() == i,
            forall|j: int|
                0 <= j < i ==> #[trigger] out@[j] == with_geom(ws.clients@[j], x, y, w, h),
        decreases n - i,
    {
        let c = ws.clients[i];
        out.push(setGeom(c, x, y, w, h));
        i += 1;
    }
    Workspace { clients: out, ..ws }
}

/// The cell that the layout and the settings of `ws` give to client `i` of the
/// sequence `clients`. The floating layout leaves each client the rectangle it
/// has.
pub open spec fn layout_cell_of(ws: Workspace, clients: Seq<Client>, i: int) -> Cell {
    match ws.lt.arrange {
        Arrange::Tile => tile_cell(
            ws.content(),
            clients.len() as int,
            ws.nmaster as int,
            ws.mfact as int,
            i,
        ),
        Arrange::Monocle => monocle_cell(ws.content()),
        Arrange::Floating => Cell {
            x: clients[i].x as int,
            y: clients[i].y as int,
            w: clients[i].w as int,
            h: clients[i].h as int,
        },
        Arrange::Grid => grid_cell(ws.content(), clients.len() as int, i),
    }
}

/// The cell that the workspace's own layout gives to its client `i`.
pub open spec fn layout_cell(ws: Workspace, i: int) -> Cell {
    layout_cell_of(ws, ws.clients@, i)
}

/// Some client of the sequence has the handle `win`.
pub open spec fn holds(clients: Seq<Client>, win: u64) -> bool {
    exists|i: int| 0 <= i < clients.len() && (#[trigger] clients[i]).win == win
}

/// `i` is the place of the first client with the handle `win`.
pub open spec fn first_at(clients: Seq<Client>, win: u64, i: int) -> bool {
    &&& 0 <= i < clients.len()
    &&& clients[i].win == win
    &&& forall|j: int| 0 <= j < i ==> (#[trigger] clients[j]).win != win
}

/// A workspace as it is created for a tag: no clients, the configured
/// defaults, no extent and no bar window yet.
pub open spec fn is_fresh(ws: Workspace, tag: &str) -> bool {
    &&& ws.tag == tag
    &&& ws.mfact == config::mfact
    &&& ws.nmaster == config::nmaster
    &&& ws.showbar == config::showbar
    &&& ws.topbar == config::topbar
    &&& ws.num == 0 && ws.by == 0 && ws.bh == 0
    &&& ws.x == 0 && ws.y == 0 && ws.w == 0 && ws.h == 0
    &&& ws.seltags == 0 && ws.sellt == 0 && ws.barwin == 0
    &&& ws.tagset@ == seq![1u32, 1u32]
    &&& ws.clients@.len() == 0
    &&& ws.lt.arrange == Arrange::Tile
    &&& ws.lt.symbol@ == "[]="@
    &&& ws.pertag.curtag == 1 && ws.pertag.prevtag == 1
    &&& ws.pertag.nmasters@.len() == 0 && ws.pertag.mfacts@.len() == 0
    &&& ws.pertag.selltds@.len() == 0 && ws.pertag.ltidxs@.len() == 0
    &&& ws.pertag.showbars@.len() == 0 && ws.pertag.prefzooms@.len() == 0
}

/// Creates a new workspace for a tag.
pub fn createWorkspace<'a>(tag: &'a str) -> (ws: Workspace<'a>)
    ensures
        is_fresh(ws, tag),
{
    let mut tagset: Vec<u32> = Vec::new();
    tagset.push(1);
    tagset.push(1);
    assert(tagset@ =~= seq![1u32, 1u32]);
    Workspace {
        mfact: config::mfact,
        nmaster: config::nmaster,
        num: 0,
        tag,
        by: 0,
        bh: 0,
        x: 0,
        y: 0,
        w: 0,
        h: 0,
        seltags: 0,
        sellt: 0,
        tagset,
        showbar: config::showbar,
        topbar: config::topbar,
        clients: Vec::new(),
        barwin: 0,
        lt: config::defaultLayout(),
        pertag: Pertag {
            curtag: 1,
            prevtag: 1,
            nmasters: Vec::new(),
            mfacts: Vec::new(),
            selltds: Vec::new(),
            ltidxs: Vec::new(),
            showbars: Vec::new(),
            prefzooms: Vec::new(),
        },
    }
}

/// Where the bar of height `bh` goes: on the workspace's top edge, or at its
/// bottom, or out of sight above the screen where the bar does not show.
pub open spec fn bar_y(ws: Workspace, bh: u32) -> int {
    if ws.showbar {
        if ws.topbar {
            ws.y as int
        } else {
            ws.y + ws.h - bh
        }
    } else {
        -bh
    }
}

/// Updates the position of the status bar for this workspace, and records the
/// bar's height.
pub fn updateBarPos<'a>(ws: Workspace<'a>, bh: u32) -> (r: Workspace<'a>)
    requires
        i32::MIN <= bar_y(ws, bh) <= i32::MAX,
    ensures
        r == (Workspace { by: r.by, bh, ..ws }),
        r.by == bar_y(ws, bh),
{
    let by: i64 = if ws.showbar {
        if ws.topbar {
            ws.y as i64
        } else {
            ws.y as i64 + ws.h as i64 - bh as i64
        }
    } else {
        -(bh as i64)
    };
    Workspace { by: by as i32, bh, ..ws }
}

/// Finds the place of the first client with the handle `win`.
pub fn findClient(clients: &Vec<Client>, win: u64) -> (r: Option<usize>)
    ensures
        match r {
            Some(i) => first_at(clients@, win, i as int),
            None => !holds(clients@, win),
        },
{
    let n = clients.len();
    let mut i: usize = 0;
    while i < n
        invariant
            n == clients@.len(),
            i <= n,
            forall|j: int| 0 <= j < i ==> (#[trigger] clients@[j]).win != win,
        decreases n - i,
    {
        if clients[i].win == win {
            return Some(i);
        }
        i += 1;
    }
    None
}

/// Adds a client to this workspace, at the head of its sequence.
pub fn addClient<'a>(ws: &mut Workspace<'a>, c: Client<'a>)
    ensures
        *final(ws) == (Workspace { clients: final(ws).clients, ..*old(ws) }),
        final(ws).clients@ == old(ws).clients@.insert(0, c),
        distinct_handles(old(ws).clients@) && !holds(old(ws).clients@, c.win) ==> distinct_handles(
            final(ws).clients@,
        ),
{
    ws.clients.insert(0, c);
    proof {
        let before = old(ws).clients@;
        let after = ws.clients@;
        if distinct_handles(before) && !holds(before, c.win) {
            assert forall|i: int, j: int|
                0 <= i < after.len() && 0 <= j < after.len() && #[trigger] after[i].win
                    == #[trigger] after[j].win implies i == j by {
                if i > 0 {
                    assert(after[i] == before[i - 1]);
                }
                if j > 0 {
                    assert(after[j] == before[j - 1]);
                }
            }
        }
    }
}

/// Removes the client with the handle of `c` from this workspace and returns
/// it; the first such client if there are more. Without one, nothing changes.
pub fn removeClient<'a>(ws: &mut Workspace<'a>, c: &Client<'a>) -> (r: Option<Client<'a>>)
    ensures
        *final(ws) == (Workspace { clients: final(ws).clients, ..*old(ws) }),
        match r {
            Some(cl) => exists|i: int|
                first_at(old(ws).clients@, c.win, i) && cl == old(ws).clients@[i]
                    && final(ws).clients@ == old(ws).clients@.remove(i),
            None => !holds(old(ws).clients@, c.win) && final(ws).clients@ == old(ws).clients@,
        },
        distinct_handles(old(ws).clients@) ==> distinct_handles(final(ws).clients@) && !holds(
            final(ws).clients@,
            c.win,
        ),
{
    match findClient(&ws.clients, c.win) {
        Some(i) => {
            let cl = ws.clients.remove(i);
            proof {
                lemma_remove_keeps_distinct(old(ws).clients@, i as int);
            }
            Some(cl)
        },
        None => None,
    }
}

/// Taking a client out of a sequence without repeated handles leaves such a
/// sequence, and one that no longer holds the handle taken out.
pub proof fn lemma_remove_keeps_distinct(clients: Seq<Client>, i: int)
    requires
        0 <= i < clients.len(),
    ensures
        distinct_handles(clients) ==> distinct_handles(clients.remove(i)) && !holds(
            clients.remove(i),
            clients[i].win,
        ),
{
    let after = clients.remove(i);
    if distinct_handles(clients) {
        assert forall|a: int, b: int|
            0 <= a < after.len() && 0 <= b < after.len() && #[trigger] after[a].win
                == #[trigger] after[b].win implies a == b by {
            let a0 = if a < i {
                a
            } else {
                a + 1
            };
            let b0 = if b < i {
                b
            } else {
                b + 1
            };
            assert(after[a] == clients[a0]);
            assert(after[b] == clients[b0]);
        }
        assert forall|a: int| 0 <= a < after.len() implies (#[trigger] after[a]).win
            != clients[i].win by {
            let a0 = if a < i {
                a
            } else {
                a + 1
            };
            assert(after[a] == clients[a0]);
        }
    }
}

/// A sequence with a client put at its head holds that client's handle and
/// the handles it held, and no others.
pub proof fn lemma_holds_insert(clients: Seq<Client>, c: Client, win: u64)
    ensures
        holds(clients.insert(0, c), win) <==> (win == c.win || holds(clients, win)),
        first_at(clients.insert(0, c), c.win, 0),
{
    let after = clients.insert(0, c);
    assert(after[0] == c);
    if holds(clients, win) {
        let i = choose|i: int| 0 <= i < clients.len() && (#[trigger] clients[i]).win == win;
        assert(after[i + 1] == clients[i]);
    }
    if holds(after, win) && win != c.win {
        let i = choose|i: int| 0 <= i < after.len() && (#[trigger] after[i]).win == win;
        assert(after[i] == clients[i - 1]);
    }
}

/// A sequence without repeated handles holds, after one client is taken out,
/// the handles it held but that client's.
pub proof fn lemma_holds_remove(clients: Seq<Client>, i: int, win: u64)
    requires
        0 <= i < clients.len(),
        distinct_handles(clients),
    ensures
        holds(clients.remove(i), win) <==> (holds(clients, win) && win != clients[i].win),
{
    let after = clients.remove(i);
    lemma_remove_keeps_distinct(clients, i);
    if holds(clients, win) && win != clients[i].win {
        let j = choose|j: int| 0 <= j < clients.len() && (#[trigger] clients[j]).win == win;
        let j1 = if j < i {
            j
        } else {
            j - 1
        };
        assert(after[j1] == clients[j]);
    }
    if holds(after, win) {
        let j = choose|j: int| 0 <= j < after.len() && (#[trigger] after[j]).win == win;
        let j0 = if j < i {
            j
        } else {
            j + 1
        };
        assert(after[j] == clients[j0]);
    }
}

/// An arrangement changes no handle: the handles stay what and where they
/// were.
pub proof fn lemma_arranged_handles(before: Seq<Client>, after: Seq<Client>, cell: spec_fn(int) -> Cell)
    requires
        arranged(before, after, cell),
    ensures
        handles(after) == handles(before),
        distinct_handles(before) <==> distinct_handles(after),
        forall|win: u64| holds(before, win) <==> holds(after, win),
        forall|win: u64, i: int| first_at(before, win, i) <==> first_at(after, win, i),
{
    assert forall|i: int| 0 <= i < before.len() implies (#[trigger] after[i]).win
        == before[i].win by {
        assert(same_but_geom(before[i], after[i]));
    }
    assert(handles(after) =~= handles(before));
    assert forall|win: u64| holds(before, win) <==> holds(after, win) by {
        if holds(before, win) {
            let i = choose|i: int| 0 <= i < before.len() && (#[trigger] before[i]).win == win;
            assert(after[i].win == win);
        }
        if holds(after, win) {
            let i = choose|i: int| 0 <= i < after.len() && (#[trigger] after[i]).win == win;
            assert(before[i].win == after[i].win);
        }
    }
    if distinct_handles(before) {
        assert forall|i: int, j: int|
            0 <= i < after.len() && 0 <= j < after.len() && #[trigger] after[i].win
                == #[trigger] after[j].win implies i == j by {
            assert(before[i].win == after[i].win);
            assert(before[j].win == after[j].win);
        }
    }
    if distinct_handles(after) {
        assert forall|i: int, j: int|
            0 <= i < before.len() && 0 <= j < before.len() && #[trigger] before[i].win
                == #[trigger] before[j].win implies i == j by {
            assert(before[i].win == after[i].win);
            assert(before[j].win == after[j].win);
        }
    }
    assert forall|win: u64, i: int| first_at(before, win, i) <==> first_at(after, win, i) by {
        if first_at(before, win, i) {
            assert(after[i].win == before[i].win);
            assert forall|j: int| 0 <= j < i implies (#[trigger] after[j]).win != win by {
                assert(before[j].win == after[j].win);
            }
        }
        if first_at(after, win, i) {
            assert(after[i].win == before[i].win);
            assert forall|j: int| 0 <= j < i implies (#[trigger] before[j]).win != win by {
                assert(before[j].win == after[j].win);
            }
        }
    }
}

/// Arranges the clients of the workspace by the layout it has selected.
pub fn arrange<'a>(ws: Workspace<'a>) -> (r: Workspace<'a>)
    requires
        ws.geom_ok(),
    ensures
        ws.arranged_as(r, |i: int| layout_cell(ws, i)),
{
    match ws.lt.arrange {
        Arrange::Tile => tileArrange(ws),
        Arrange::Monocle => monocleArrange(ws),
        Arrange::Floating => noArrange(ws),
        Arrange::Grid => gridArrange(ws),
    }
}

/// Updates the geometry of the workspace: arranges its clients by its layout
/// and tells every client, in order, the geometry it now has.
pub fn updateGeom<'a>(ws: Workspace<'a>) -> (r: (Workspace<'a>, Vec<Action<'a>>))
    requires
        ws.geom_ok(),
    ensures
        ws.arranged_as(r.0, |i: int| layout_cell(ws, i)),
        r.1@ == configure_all(r.0.clients@),
{
    let ws = arrange(ws);
    let n = ws.clients.len();
    let mut actions: Vec<Action<'a>> = Vec::new();
    let mut i: usize = 0;
    while i < n
        invariant
            n == ws.clients@.len(),
            i <= n,
            actions@.len() == i,
            forall|j: int| 0 <= j < i ==> #[trigger] actions@[j] == configure_of(ws.clients@[j]),
        decreases n - i,
    {
        actions.push(configure(&ws.clients[i]));
        i += 1;
    }
    assert(actions@ =~= configure_all(ws.clients@));
    (ws, actions)
}

/// The instructions that show all the windows of this workspace, in order.
pub fn showAllClients<'a>(ws: &Workspace<'a>) -> (actions: Vec<Action<'a>>)
    ensures
        actions@ == show_all(ws.clients@),
{
    let n = ws.clients.len();
    let mut actions: Vec<Action<'a>> = Vec::new();
    let mut i: usize = 0;
    while i < n
        invariant
            n == ws.clients@.len(),
            i <= n,
            actions@.len() == i,
            forall|j: int| 0 <= j < i ==> #[trigger] actions@[j] == Action::Show(ws.clients@[j].win),
        decreases n - i,
    {
        actions.push(showClient(&ws.clients[i]));
        i += 1;
    }
    assert(actions@ =~= show_all(ws.clients@));
    actions
}

/// The instructions that hide all the windows of this workspace, in order.
pub fn hideAllClients<'a>(ws: &Workspace<'a>) -> (actions: Vec<Action<'a>>)
    ensures
        actions@ == hide_all(ws.clients@),
{
    let n = ws.clients.len();
    let mut actions: Vec<Action<'a>> = Vec::new();
    let mut i: usize = 0;
    while i < n
        invariant
            n == ws.clients@.len(),
            i <= n,
            actions@.len() == i,
            forall|j: int| 0 <= j < i ==> #[trigger] actions@[j] == Action::Hide(ws.clients@[j].win),
        decreases n - i,
    {
        actions.push(hideClient(&ws.clients[i]));
        i += 1;
    }
    assert(actions@ =~= hide_all(ws.clients@));
    actions
}

/// What draws the bar: its ground; the tags one after the other, the selected
/// one standing out and each with a mark where its workspace has clients; the
/// status text at the right end; and last the copy onto the bar window of the
/// selected workspace. `extents` holds the width that each tag's text was
/// measured with, `status_extent` that of the status text.
pub open spec fn bar_plan<'a>(
    drw: Drw,
    bh: u32,
    wss: Seq<Workspace<'a>>,
    sel: int,
    stext: &'a str,
    extents: Seq<u32>,
    status_extent: u32,
) -> Seq<Draw<'a>> {
    let font = drw.fonts@[0];
    let sw = text_width(status_extent, font);
    seq![Draw::Rect { scheme: SCHEMENORM, x: 0, y: 0, w: drw.w, h: bh, filled: true, invert: true }]
        + tags_plan(wss, extents, font, sel, bh, wss.len() as int) + seq![
        Draw::Text {
            scheme: SCHEMENORM,
            x: (drw.w - sw) as i32,
            y: 1,
            w: sw as u32,
            h: bh,
            text: stext,
            invert: false,
        },
        Draw::Flush { win: wss[sel].barwin, x: 0, y: 0, w: drw.w, h: bh },
    ]
}

/// Plans the drawing of the status bar, as `bar_plan` says.
pub fn drawBar<'a>(
    drw: &Drw,
    bh: u32,
    wss: &Vec<Workspace<'a>>,
    selmonindex: usize,
    stext: &'a str,
    extents: &Vec<u32>,
    status_extent: u32,
) -> (plan: Vec<Draw<'a>>)
    requires
        drw.fonts@.len() >= 1,
        drw.fonts@[0].wf(),
        selmonindex < wss@.len(),
        extents@.len() == wss@.len(),
        drw.w <= i32::MAX,
        tag_x(extents@, drw.fonts@[0], wss@.len() as int) < i32::MAX,
        text_width(status_extent, drw.fonts@[0]) <= i32::MAX,
    ensures
        plan@ == bar_plan(*drw, bh, wss@, selmonindex as int, stext, extents@, status_extent),
{
    let font = drw.fonts[0];
    let n = wss.len();
    let dx: u32 = ((font.ascent as i64 + font.descent as i64 + 2) / 4) as u32;
    let mut plan: Vec<Draw<'a>> = Vec::new();
    plan.push(
        Draw::Rect { scheme: SCHEMENORM, x: 0, y: 0, w: drw.w, h: bh, filled: true, invert: true },
    );
    let ghost ground = plan@;
    let mut x: i32 = 0;
    let mut i: usize = 0;
    while i < n
        invariant
            n == wss@.len(),
            extents@.len() == n,
            font == drw.fonts@[0],
            font.wf(),
            dx == marker_side(font),
            tag_x(extents@, font, n as int) < i32::MAX,
            i <= n,
            x == tag_x(extents@, font, i as int),
            plan@ == ground + tags_plan(wss@, extents@, font, selmonindex as int, bh, i as int),
        decreases n - i,
    {
        proof {
            lemma_tag_x_grows(extents@, font, i as int, i as int);
            lemma_tag_x_grows(extents@, font, i as int + 1, n as int);
        }
        let w: u32 = extents[i] + font.h;
        let scheme: usize = if i == selmonindex {
            SCHEMESEL
        } else {
            SCHEMENORM
        };
        let ghost before = plan@;
        plan.push(Draw::Text { scheme, x, y: 1, w, h: bh, text: wss[i].tag, invert: false });
        if wss[i].clients.len() > 0 {
            plan.push(
                Draw::Rect {
                    scheme,
                    x: x + 1,
                    y: 1,
                    w: dx,
                    h: dx,
                    filled: i == selmonindex,
                    invert: false,
                },
            );
        }
        proof {
            assert(plan@ =~= before + tag_draws(
                wss@,
                extents@,
                font,
                selmonindex as int,
                bh,
                i as int,
            ));
            assert(plan@ =~= ground + tags_plan(
                wss@,
                extents@,
                font,
                selmonindex as int,
                bh,
                i as int + 1,
            ));
        }
        x = x + w as i32;
        i += 1;
    }
    let sw: u32 = status_extent + font.h;
    plan.push(
        Draw::Text {
            scheme: SCHEMENORM,
            x: (drw.w as i64 - sw as i64) as i32,
            y: 1,
            w: sw,
            h: bh,
            text: stext,
            invert: false,
        },
    );
    plan.push(Draw::Flush { win: wss[selmonindex].barwin, x: 0, y: 0, w: drw.w, h: bh });
    assert(plan@ =~= bar_plan(*drw, bh, wss@, selmonindex as int, stext, extents@, status_extent));
    plan
}

/// Tells whether the geometry of the workspace is sound.
pub fn geomOk(ws: &Workspace) -> (r: bool)
    ensures
        r == ws.geom_ok(),
{
    ws.x as i64 + ws.w as i64 <= i32::MAX as i64 && ws.y as i64 + ws.h as i64 <= i32::MAX as i64
        && (!ws.showbar || ws.bh <= ws.h) && ws.mfact <= 1000
}

/// Tells whether no window handle occurs twice among the clients.
pub fn distinctHandles(clients: &Vec<Client>) -> (r: bool)
    ensures
        r == distinct_handles(clients@),
{
    let n = clients.len();
    let mut i: usize = 0;
    while i < n
        invariant
            n == clients@.len(),
            i <= n,
            forall|a: int, b: int|
                0 <= a < i && a < b < n ==> (#[trigger] clients@[a]).win != (
                #[trigger] clients@[b]).win,
        decreases n - i,
    {
        let mut j: usize = i + 1;
        while j < n
            invariant
                n == clients@.len(),
                i < n,
                i < j <= n,
                forall|b: int| i < b < j ==> clients@[i as int].win != (#[trigger] clients@[b]).win,
            decreases n - j,
        {
            if clients[i].win == clients[j].win {
                assert(clients@[i as int].win == clients@[j as int].win);
                return false;
            }
            j += 1;
        }
        i += 1;
    }
    assert forall|a: int, b: int|
        0 <= a < clients@.len() && 0 <= b < clients@.len() && #[trigger] clients@[a].win
            == #[trigger] clients@[b].win implies a == b by {
        if a < b {
            assert(clients@[a].win != clients@[b].win);
        }
        if b < a {
            assert(clients@[b].win != clients@[a].win);
        }
    }
    true
}

} // verus!
