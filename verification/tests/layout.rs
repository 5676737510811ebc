use dwm_rust::wm::client::{createClient, height, setGeom, width, Client, WindowAttributes};
use dwm_rust::wm::workspace::{
    arrange, createWorkspace, gridArrange, maxH, maxW, minX, minY, monocleArrange, noArrange,
    tileArrange, updateBarPos, Arrange, Workspace,
};

fn attrs(x: i32, y: i32, width: u32, height: u32) -> WindowAttributes {
    WindowAttributes { x, y, width, height, border_width: 0, override_redirect: false }
}

fn workspace(w: u32, h: u32, clients: u64) -> Workspace<'static> {
    let mut ws = createWorkspace("1");
    ws.w = w;
    ws.h = h;
    ws.showbar = false;
    for win in 1..=clients {
        ws.clients.push(createClient(win, &attrs(5, 6, 70, 80), 0));
    }
    ws
}

fn rects(ws: &Workspace) -> Vec<(i32, i32, u32, u32)> {
    ws.clients.iter().map(|c| (c.x, c.y, c.w, c.h)).collect()
}

fn overlap(a: &Client, b: &Client) -> bool {
    (a.x as i64) < b.x as i64 + b.w as i64
        && (b.x as i64) < a.x as i64 + a.w as i64
        && (a.y as i64) < b.y as i64 + b.h as i64
        && (b.y as i64) < a.y as i64 + a.h as i64
}

#[test]
fn tile_without_master_stacks_every_client() {
    let mut ws = workspace(900, 600, 3);
    ws.nmaster = 0;
    let ws = tileArrange(ws);
    assert_eq!(rects(&ws), vec![(0, 0, 900, 200), (0, 200, 900, 200), (0, 400, 900, 200)]);
}

#[test]
fn tile_master_and_stack_share_the_width() {
    let mut ws = workspace(900, 600, 3);
    ws.nmaster = 1;
    ws.mfact = 500;
    let ws = tileArrange(ws);
    assert_eq!(rects(&ws), vec![(0, 0, 450, 600), (450, 0, 450, 300), (450, 300, 450, 300)]);
}

#[test]
fn tile_master_fraction_is_in_thousandths() {
    let mut ws = workspace(1000, 500, 3);
    ws.nmaster = 2;
    ws.mfact = 600;
    let ws = tileArrange(ws);
    assert_eq!(rects(&ws), vec![(0, 0, 600, 250), (0, 250, 600, 250), (600, 0, 400, 500)]);
}

#[test]
fn tile_master_width_is_rounded_down() {
    let mut ws = workspace(101, 90, 4);
    ws.nmaster = 1;
    ws.mfact = 333;
    let ws = tileArrange(ws);
    assert_eq!(
        rects(&ws),
        vec![(0, 0, 33, 90), (33, 0, 68, 30), (33, 30, 68, 30), (33, 60, 68, 30)]
    );
}

#[test]
fn tile_without_stack_gives_masters_the_full_width() {
    let mut ws = workspace(900, 600, 2);
    ws.nmaster = 5;
    let ws = tileArrange(ws);
    assert_eq!(rects(&ws), vec![(0, 0, 900, 300), (0, 300, 900, 300)]);
    let mut ws = workspace(900, 600, 2);
    ws.nmaster = 2;
    ws.mfact = 100;
    let ws = tileArrange(ws);
    assert_eq!(rects(&ws), vec![(0, 0, 900, 300), (0, 300, 900, 300)]);
}

#[test]
fn tile_single_client_gets_the_content_rectangle() {
    let mut ws = workspace(900, 600, 1);
    ws.x = 10;
    ws.nmaster = 1;
    let ws = tileArrange(ws);
    assert_eq!(rects(&ws), vec![(10, 0, 900, 600)]);
    let mut ws = workspace(900, 600, 1);
    ws.nmaster = 0;
    let ws = tileArrange(ws);
    assert_eq!(rects(&ws), vec![(0, 0, 900, 600)]);
}

#[test]
fn tile_no_client_is_a_no_op() {
    let ws = tileArrange(workspace(900, 600, 0));
    assert!(ws.clients.is_empty());
    assert_eq!((ws.w, ws.h), (900, 600));
}

#[test]
fn tile_clients_keep_apart_and_within_the_content_rectangle() {
    for n in 1..=12u64 {
        for nmaster in 0..=4u32 {
            for (width, height) in [(100u32, 77u32), (101, 600), (899, 1), (900, 0), (1, 50), (0, 9)] {
                let mut ws = workspace(width, height, n);
                ws.x = -40;
                ws.y = 25;
                ws.nmaster = nmaster;
                ws.mfact = 550;
                let ws = tileArrange(ws);
                for i in 0..ws.clients.len() {
                    let c = &ws.clients[i];
                    assert!(c.x >= -40 && c.y >= 25);
                    assert!(c.x as i64 + c.w as i64 <= -40 + width as i64);
                    assert!(c.y as i64 + c.h as i64 <= 25 + height as i64);
                    for j in 0..ws.clients.len() {
                        if i != j {
                            assert!(!overlap(c, &ws.clients[j]));
                        }
                    }
                }
                let masters = (nmaster as u64).min(n);
                let stacked = n - masters;
                let master_h: u64 = ws.clients.iter().take(masters as usize).map(|c| c.h as u64).sum();
                let stack_h: u64 = ws.clients.iter().skip(masters as usize).map(|c| c.h as u64).sum();
                if masters > 0 {
                    assert!(master_h <= height as u64 && master_h + masters > height as u64);
                }
                if stacked > 0 {
                    assert!(stack_h <= height as u64 && stack_h + stacked > height as u64);
                }
            }
        }
    }
}

#[test]
fn tile_widths_add_up_to_the_width_with_one_client_per_region() {
    let mut ws = workspace(901, 600, 2);
    ws.nmaster = 1;
    ws.mfact = 550;
    let ws = tileArrange(ws);
    assert_eq!(rects(&ws), vec![(0, 0, 495, 600), (495, 0, 406, 600)]);
    for n in 1..=6u64 {
        for nmaster in 0..=3u32 {
            for mfact in [0u32, 500, 1000] {
                let mut ws = workspace(900, 600, n);
                ws.nmaster = nmaster;
                ws.mfact = mfact;
                let ws = tileArrange(ws);
                let sum: u64 = ws.clients.iter().map(|c| c.w as u64).sum();
                let masters = (nmaster as u64).min(n);
                let stacked = n - masters;
                let mw = ws.clients.iter().take(masters as usize).map(|c| c.w as u64).max().unwrap_or(0);
                let one_per_region = (masters <= 1 || mw == 0) && (stacked <= 1 || mw == 900);
                assert!(sum >= 900);
                assert_eq!(sum == 900, one_per_region);
            }
        }
    }
}

#[test]
fn tile_rounding_leaves_less_than_one_pixel_per_client() {
    let mut ws = workspace(100, 50, 3);
    ws.nmaster = 0;
    let ws = tileArrange(ws);
    assert_eq!(rects(&ws), vec![(0, 0, 100, 16), (0, 16, 100, 16), (0, 32, 100, 16)]);
}

#[test]
fn tile_keeps_clear_of_the_bar() {
    let mut ws = workspace(900, 600, 2);
    ws.showbar = true;
    ws.topbar = true;
    ws.nmaster = 1;
    let ws = tileArrange(updateBarPos(ws, 20));
    assert_eq!(rects(&ws), vec![(0, 20, 450, 580), (450, 20, 450, 580)]);
    let mut ws = workspace(900, 600, 2);
    ws.showbar = true;
    ws.topbar = false;
    ws.nmaster = 1;
    let ws = tileArrange(updateBarPos(ws, 20));
    assert_eq!(rects(&ws), vec![(0, 0, 450, 580), (450, 0, 450, 580)]);
}

#[test]
fn tile_changes_nothing_but_geometry() {
    let mut ws = workspace(900, 600, 3);
    ws.clients[1].bw = 3;
    ws.clients[1].isurgent = true;
    ws.clients[2].tags = 4;
    let ws = tileArrange(ws);
    let wins: Vec<u64> = ws.clients.iter().map(|c| c.win).collect();
    assert_eq!(wins, vec![1, 2, 3]);
    assert_eq!(ws.clients[1].bw, 3);
    assert!(ws.clients[1].isurgent);
    assert_eq!(ws.clients[2].tags, 4);
    assert_eq!(ws.tag, "1");
}

#[test]
fn monocle_gives_every_client_the_content_rectangle() {
    for n in 1..=6u64 {
        let mut ws = workspace(900, 600, n);
        ws.x = 7;
        let ws = monocleArrange(ws);
        assert_eq!(ws.clients.len() as u64, n);
        for c in ws.clients.iter() {
            assert_eq!((c.x, c.y, c.w, c.h), (7, 0, 900, 600));
        }
    }
}

#[test]
fn monocle_keeps_clear_of_the_bar() {
    let mut ws = workspace(900, 600, 2);
    ws.showbar = true;
    let ws = monocleArrange(updateBarPos(ws, 16));
    assert_eq!(rects(&ws), vec![(0, 16, 900, 584), (0, 16, 900, 584)]);
}

#[test]
fn monocle_no_client_is_a_no_op() {
    let ws = monocleArrange(workspace(900, 600, 0));
    assert!(ws.clients.is_empty());
}

#[test]
fn no_arrange_keeps_every_geometry() {
    let mut ws = workspace(900, 600, 0);
    ws.clients.push(createClient(1, &attrs(-20, 30, 400, 500), 0));
    ws.clients.push(createClient(2, &attrs(2000, -7, 0, 1), 0));
    ws.clients.push(createClient(3, &attrs(i32::MAX, i32::MIN, u32::MAX, u32::MAX), 0));
    let ws = noArrange(ws);
    assert_eq!(
        rects(&ws),
        vec![(-20, 30, 400, 500), (2000, -7, 0, 1), (i32::MAX, i32::MIN, u32::MAX, u32::MAX)]
    );
}

#[test]
fn grid_single_client_gets_the_content_rectangle() {
    let ws = gridArrange(workspace(900, 600, 1));
    assert_eq!(rects(&ws), vec![(0, 0, 900, 600)]);
}

#[test]
fn grid_no_client_is_a_no_op() {
    let ws = gridArrange(workspace(900, 600, 0));
    assert!(ws.clients.is_empty());
}

#[test]
fn grid_two_clients_stand_side_by_side() {
    let ws = gridArrange(workspace(900, 600, 2));
    assert_eq!(rects(&ws), vec![(0, 0, 450, 600), (450, 0, 450, 600)]);
}

#[test]
fn grid_three_clients_last_column_takes_the_remainder() {
    let ws = gridArrange(workspace(900, 600, 3));
    assert_eq!(rects(&ws), vec![(0, 0, 450, 600), (450, 0, 450, 300), (450, 300, 450, 300)]);
}

#[test]
fn grid_four_clients_make_a_square() {
    let ws = gridArrange(workspace(900, 600, 4));
    assert_eq!(
        rects(&ws),
        vec![(0, 0, 450, 300), (0, 300, 450, 300), (450, 0, 450, 300), (450, 300, 450, 300)]
    );
}

#[test]
fn grid_five_clients_use_two_columns() {
    let ws = gridArrange(workspace(900, 600, 5));
    assert_eq!(
        rects(&ws),
        vec![
            (0, 0, 450, 300),
            (0, 300, 450, 300),
            (450, 0, 450, 200),
            (450, 200, 450, 200),
            (450, 400, 450, 200)
        ]
    );
}

#[test]
fn grid_seven_clients_fill_three_columns_without_gaps() {
    let ws = gridArrange(workspace(900, 600, 7));
    assert_eq!(
        rects(&ws),
        vec![
            (0, 0, 300, 300),
            (0, 300, 300, 300),
            (300, 0, 300, 300),
            (300, 300, 300, 300),
            (600, 0, 300, 200),
            (600, 200, 300, 200),
            (600, 400, 300, 200)
        ]
    );
}

#[test]
fn grid_nine_clients_make_three_by_three() {
    let mut ws = workspace(900, 600, 9);
    ws.x = 100;
    ws.y = 50;
    let ws = gridArrange(ws);
    let mut expected = Vec::new();
    for col in 0..3 {
        for row in 0..3 {
            expected.push((100 + col * 300, 50 + row * 200, 300u32, 200u32));
        }
    }
    assert_eq!(rects(&ws), expected);
}

#[test]
fn grid_cells_hold_one_client_each() {
    for n in 1..=40u64 {
        let ws = gridArrange(workspace(1200, 1000, n));
        let mut cols: Vec<i32> = ws.clients.iter().map(|c| c.x).collect();
        cols.sort();
        cols.dedup();
        let mut tallest = 0u64;
        for x in cols.iter() {
            let rows = ws.clients.iter().filter(|c| c.x == *x).count() as u64;
            if rows > tallest {
                tallest = rows;
            }
        }
        let ncols = cols.len() as u64;
        assert!(ncols * tallest >= n);
        assert!(ncols * (tallest - 1) < n);
        if n != 5 {
            assert!(ncols * ncols >= n);
            assert!((ncols - 1) * (ncols - 1) < n);
        } else {
            assert_eq!(ncols, 2);
        }
        for i in 0..ws.clients.len() {
            for j in 0..ws.clients.len() {
                if i != j {
                    let a = &ws.clients[i];
                    let b = &ws.clients[j];
                    assert!((a.x, a.y) != (b.x, b.y));
                    assert!(!overlap(a, b));
                }
            }
        }
    }
}

#[test]
fn arrange_follows_the_selected_layout() {
    let mut ws = workspace(900, 600, 2);
    ws.lt.arrange = Arrange::Monocle;
    assert_eq!(rects(&arrange(ws)), vec![(0, 0, 900, 600), (0, 0, 900, 600)]);
    let mut ws = workspace(900, 600, 2);
    ws.lt.arrange = Arrange::Floating;
    assert_eq!(rects(&arrange(ws)), vec![(5, 6, 70, 80), (5, 6, 70, 80)]);
    let mut ws = workspace(900, 600, 3);
    ws.lt.arrange = Arrange::Grid;
    assert_eq!(
        rects(&arrange(ws)),
        vec![(0, 0, 450, 600), (450, 0, 450, 300), (450, 300, 450, 300)]
    );
    let mut ws = workspace(900, 600, 2);
    ws.lt.arrange = Arrange::Tile;
    ws.nmaster = 1;
    assert_eq!(rects(&arrange(ws)), vec![(0, 0, 450, 600), (450, 0, 450, 600)]);
}

#[test]
fn content_rectangle_is_the_area_less_the_bar() {
    let mut ws = workspace(900, 600, 0);
    ws.x = 3;
    assert_eq!((minX(&ws), minY(&ws), maxW(&ws), maxH(&ws)), (3, 0, 900, 600));
    ws.showbar = true;
    ws.topbar = true;
    let ws = updateBarPos(ws, 18);
    assert_eq!((minX(&ws), minY(&ws), maxW(&ws), maxH(&ws)), (3, 18, 900, 582));
    assert_eq!(ws.by, 0);
    let mut ws = workspace(900, 600, 0);
    ws.showbar = true;
    ws.topbar = false;
    let ws = updateBarPos(ws, 18);
    assert_eq!((minX(&ws), minY(&ws), maxW(&ws), maxH(&ws)), (0, 0, 900, 582));
    assert_eq!(ws.by, 582);
}

#[test]
fn hidden_bar_lies_above_the_screen() {
    let ws = updateBarPos(workspace(900, 600, 0), 18);
    assert_eq!(ws.by, -18);
    assert_eq!(ws.bh, 18);
}

#[test]
fn client_extent_includes_the_border() {
    let mut c = createClient(9, &attrs(1, 2, 100, 50), 0);
    assert_eq!((width(&c), height(&c)), (100, 50));
    c.bw = 2;
    assert_eq!((width(&c), height(&c)), (104, 54));
}

#[test]
fn new_client_has_the_reported_geometry_and_no_flags() {
    let c = createClient(42, &attrs(-3, 4, 640, 480), 0);
    assert_eq!((c.win, c.x, c.y, c.w, c.h, c.bw, c.tags), (42, -3, 4, 640, 480, 0, 0));
    assert_eq!(c.name, "");
    assert!(!c.isfixed && !c.isfloating && !c.isurgent && !c.neverfocus);
    assert!(!c.oldwm && !c.isfullscreen && !c.oldstate);
}

#[test]
fn set_geom_replaces_position_and_size_only() {
    let mut c = createClient(42, &attrs(-3, 4, 640, 480), 0);
    c.bw = 1;
    c.isfloating = true;
    let c = setGeom(c, 10, 20, 30, 40);
    assert_eq!((c.x, c.y, c.w, c.h), (10, 20, 30, 40));
    assert_eq!((c.win, c.bw, c.isfloating), (42, 1, true));
}

#[test]
fn clients_are_equal_by_handle() {
    let a = createClient(1, &attrs(0, 0, 10, 10), 0);
    let b = createClient(1, &attrs(5, 5, 20, 20), 0);
    let c = createClient(2, &attrs(0, 0, 10, 10), 0);
    assert!(a == b);
    assert!(a != c);
}
