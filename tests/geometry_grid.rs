use benchbot::geometry::{
    determ_center_of_element, get_reaction_area_coordinates, inset_region, region_center, ChromeOffset, Point,
    Quad, Region, WindowBounds, WindowOrigin, AIM_AREA_INSET_Y,
};
use benchbot::grid::{ChimpGrid, GridCell};

fn quad(l: i32, t: i32, r: i32, b: i32) -> Quad {
    Quad {
        top_left: Point { x: l, y: t },
        top_right: Point { x: r, y: t },
        bottom_left: Point { x: l, y: b },
        bottom_right: Point { x: r, y: b },
    }
}

fn cell(row: usize, col: usize, x: i32, y: i32) -> GridCell {
    GridCell { row, col, screen_position: Point { x, y } }
}

#[test]
fn center_maps_through_window_and_offset() {
    let q = quad(100, 200, 141, 251);
    let p = determ_center_of_element(&q, &WindowOrigin { x: 10, y: 20 }, &ChromeOffset::browser_default());
    assert_eq!(p, Point { x: 120 + 10 + 5, y: 225 + 20 + 140 });
}

#[test]
fn center_rounds_toward_zero_for_negative_sums() {
    let q = quad(-3, -5, 0, 0);
    let p = determ_center_of_element(&q, &WindowOrigin { x: 0, y: 0 }, &ChromeOffset { dx: 0, dy: 0 });
    assert_eq!(p, Point { x: -1, y: -2 });
}

#[test]
fn center_lies_within_shifted_box() {
    let q = quad(7, 9, 31, 40);
    let w = WindowOrigin { x: -50, y: 60 };
    let o = ChromeOffset { dx: 5, dy: 140 };
    let p = determ_center_of_element(&q, &w, &o);
    assert!(7 - 50 + 5 <= p.x && p.x <= 31 - 50 + 5);
    assert!(9 + 60 + 140 <= p.y && p.y <= 40 + 60 + 140);
    assert_eq!(p, determ_center_of_element(&q, &w, &o));
}

#[test]
fn inset_region_shrinks_vertically() {
    let q = quad(100, 200, 500, 600);
    let r = inset_region(&q, &WindowOrigin { x: 10, y: 20 }, &ChromeOffset::browser_default(), 0, AIM_AREA_INSET_Y);
    assert_eq!(r, Region { left: 115, top: 410, right: 515, bottom: 710 });
    assert_eq!(region_center(&r), Point { x: 315, y: 560 });
}

#[test]
fn reaction_area_is_window_middle() {
    let b = WindowBounds { left: 30, top: 40, width: 1001, height: 800 };
    assert_eq!(get_reaction_area_coordinates(&b), Point { x: 530, y: 440 });
}

#[test]
fn out_of_order_grid_scenario() {
    let order = [(1, 2), (0, 0), (1, 0), (0, 2), (0, 1), (1, 1)];
    let mut g = ChimpGrid::new();
    for (r, c) in order {
        g.add_cell(cell(r, c, (10 * r + c) as i32, 100 + (10 * r + c) as i32));
    }
    assert_eq!(g.get_coordinates(0, 1), Some(Point { x: 1, y: 101 }));
    assert_eq!(g.bounds(), (2, 3));
    for r in 0..2usize {
        for c in 0..3usize {
            assert_eq!(g.get_coordinates(r, c), Some(Point { x: (10 * r + c) as i32, y: 100 + (10 * r + c) as i32 }));
        }
    }
}

#[test]
fn grid_lookup_out_of_bounds_is_none() {
    let mut g = ChimpGrid::new();
    assert_eq!(g.get_coordinates(0, 0), None);
    g.add_cell(cell(1, 1, 5, 6));
    assert_eq!(g.get_coordinates(2, 0), None);
    assert_eq!(g.get_coordinates(1, 2), None);
    assert_eq!(g.get_coordinates(0, 0), None);
    assert_eq!(g.get_coordinates(usize::MAX, usize::MAX), None);
}

#[test]
fn grid_gap_holds_placeholder_at_origin() {
    let mut g = ChimpGrid::new();
    g.add_cell(cell(0, 3, 9, 9));
    assert_eq!(g.get_coordinates(0, 1), Some(Point { x: 0, y: 0 }));
    assert_eq!(g.get_coordinates(0, 3), Some(Point { x: 9, y: 9 }));
    assert_eq!(g.bounds(), (1, 4));
}

#[test]
fn grid_rediscovered_cell_overwrites() {
    let mut g = ChimpGrid::new();
    g.add_cell(cell(0, 0, 1, 1));
    g.add_cell(cell(0, 0, 2, 2));
    assert_eq!(g.get_coordinates(0, 0), Some(Point { x: 2, y: 2 }));
}

#[test]
fn grid_permuted_insertion_matches_row_major() {
    let cells = vec![cell(0, 0, 1, 2), cell(0, 1, 3, 4), cell(1, 0, 5, 6), cell(2, 3, 7, 8)];
    let mut a = ChimpGrid::new();
    for c in &cells {
        a.add_cell(*c);
    }
    let mut b = ChimpGrid::new();
    for i in [3usize, 1, 2, 0] {
        b.add_cell(cells[i]);
    }
    for r in 0..4usize {
        for c in 0..5usize {
            assert_eq!(a.get_coordinates(r, c), b.get_coordinates(r, c));
        }
    }
    assert_eq!(a.bounds(), b.bounds());
}

#[test]
fn grid_from_rows_places_each_point() {
    let rows = vec![vec![Point { x: 1, y: 1 }, Point { x: 2, y: 1 }], vec![], vec![Point { x: 1, y: 3 }]];
    let g = ChimpGrid::from_rows(&rows);
    assert_eq!(g.get_coordinates(0, 1), Some(Point { x: 2, y: 1 }));
    assert_eq!(g.get_coordinates(1, 0), None);
    assert_eq!(g.get_coordinates(2, 0), Some(Point { x: 1, y: 3 }));
    assert_eq!(g.bounds(), (3, 2));
}
