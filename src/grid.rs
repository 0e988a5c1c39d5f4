//! The chimp-test grid: a sparse table from (row, col) to a screen point that
//! grows as cells are discovered, in any order.

use vstd::prelude::*;
use crate::geometry::Point;

verus! {

/// One discovered cell and where it sits on the screen.
#[derive(Clone, Copy, Debug, PartialEq, Eq, Structural)]
pub struct GridCell {
    pub row: usize,
    pub col: usize,
    pub screen_position: Point,
}

/// Rows of cells; a gap left by out-of-order insertion holds a placeholder
/// cell at the screen origin.
#[derive(Debug)]
pub struct ChimpGrid {
    cells: Vec<Vec<GridCell>>,
    grid_bounds: (usize, usize),
}

pub open spec fn origin() -> Point {
    Point { x: 0, y: 0 }
}

/// The cell that fills a gap at (r, c).
pub open spec fn placeholder(r: int, c: int) -> GridCell {
    GridCell { row: r as usize, col: c as usize, screen_position: origin() }
}

/// `g` with empty rows appended until it has at least `n` rows.
pub open spec fn grow_rows(g: Seq<Seq<GridCell>>, n: int) -> Seq<Seq<GridCell>> {
    if g.len() >= n {
        g
    } else {
        g + Seq::new((n - g.len()) as nat, |i: int| Seq::<GridCell>::empty())
    }
}

/// Row `r` of a grid, with placeholders appended until it has at least `n` cells.
pub open spec fn grow_row(row: Seq<GridCell>, r: int, n: int) -> Seq<GridCell> {
    if row.len() >= n {
        row
    } else {
        row + Seq::new((n - row.len()) as nat, |j: int| placeholder(r, row.len() + j))
    }
}

/// The rows after `cell` is inserted into `g`.
pub open spec fn insert_spec(g: Seq<Seq<GridCell>>, cell: GridCell) -> Seq<Seq<GridCell>> {
    let g1 = grow_rows(g, cell.row + 1);
    let row = grow_row(g1[cell.row as int], cell.row as int, cell.col + 1);
    g1.update(cell.row as int, row.update(cell.col as int, cell))
}

/// The rows of a grid built from nothing by inserting the cells of `s` in order.
pub open spec fn built(s: Seq<GridCell>) -> Seq<Seq<GridCell>>
    decreases s.len(),
{
    if s.len() == 0 {
        Seq::empty()
    } else {
        insert_spec(built(s.drop_last()), s.last())
    }
}

/// The screen point stored at (r, c), if the grid reaches that far.
pub open spec fn grid_lookup(g: Seq<Seq<GridCell>>, r: int, c: int) -> Option<Point> {
    if 0 <= r < g.len() && 0 <= c < g[r].len() {
        Some(g[r][c].screen_position)
    } else {
        None
    }
}

/// `m` is the length of the longest row of `g` (0 when there is none).
pub open spec fn is_widest(g: Seq<Seq<GridCell>>, m: int) -> bool {
    &&& forall|i: int| 0 <= i < g.len() ==> g[i].len() <= m
    &&& (m == 0 || exists|i: int| 0 <= i < g.len() && g[i].len() == m)
}

/// Some cell of `s` sits at (r, c).
pub open spec fn has_key(s: Seq<GridCell>, r: int, c: int) -> bool {
    exists|i: int| 0 <= i < s.len() && s[i].row == r && s[i].col == c
}

/// Some cell of `s` sits in row r to the right of column c.
pub open spec fn covers(s: Seq<GridCell>, r: int, c: int) -> bool {
    exists|i: int| 0 <= i < s.len() && s[i].row == r && s[i].col > c
}

/// No two cells of `s` share a position with different screen points.
pub open spec fn positions_consistent(s: Seq<GridCell>) -> bool {
    forall|i: int, j: int|
        0 <= i < s.len() && 0 <= j < s.len() && s[i].row == s[j].row && s[i].col == s[j].col
            ==> s[i].screen_position == s[j].screen_position
}

/// The screen point given for (r, c) by a cell of `s`.
pub open spec fn point_at(s: Seq<GridCell>, r: int, c: int) -> Point {
    s[choose|i: int| 0 <= i < s.len() && s[i].row == r && s[i].col == c].screen_position
}

/// What a lookup of (r, c) gives once every cell of `s` has been inserted.
pub open spec fn cells_lookup(s: Seq<GridCell>, r: int, c: int) -> Option<Point> {
    if has_key(s, r, c) {
        Some(point_at(s, r, c))
    } else if covers(s, r, c) {
        Some(origin())
    } else {
        None
    }
}

proof fn lemma_point_at(s: Seq<GridCell>, i: int)
    requires
        positions_consistent(s),
        0 <= i < s.len(),
    ensures
        point_at(s, s[i].row as int, s[i].col as int) == s[i].screen_position,
{
    let r = s[i].row as int;
    let c = s[i].col as int;
    assert(s[i].row == r && s[i].col == c);
    let k = choose|k: int| 0 <= k < s.len() && s[k].row == r && s[k].col == c;
}

proof fn lemma_insert_lookup(g: Seq<Seq<GridCell>>, x: GridCell, r: usize, c: usize)
    ensures
        grid_lookup(insert_spec(g, x), r as int, c as int) == if x.row == r && x.col == c {
            Some(x.screen_position)
        } else if grid_lookup(g, r as int, c as int).is_some() {
            grid_lookup(g, r as int, c as int)
        } else if x.row == r && c < x.col {
            Some(origin())
        } else {
            None
        },
{
    let g1 = grow_rows(g, x.row + 1);
    assert(r < g.len() ==> g1[r as int] == g[r as int]);
    let row = grow_row(g1[x.row as int], x.row as int, x.col + 1);
    if x.row == r {
        assert(c < g1[r as int].len() ==> row[c as int] == g1[r as int][c as int]);
    }
}

/// The lookups of a grid built from `s` depend only on which cells `s` holds.
pub proof fn lemma_built_lookup(s: Seq<GridCell>, r: usize, c: usize)
    requires
        positions_consistent(s),
    ensures
        grid_lookup(built(s), r as int, c as int) == cells_lookup(s, r as int, c as int),
    decreases s.len(),
{
    if s.len() > 0 {
        let s0 = s.drop_last();
        let x = s.last();
        let n = s.len() - 1;
        assert forall|i: int| 0 <= i < s0.len() implies s0[i] == s[i] by {}
        lemma_built_lookup(s0, r, c);
        lemma_insert_lookup(built(s0), x, r, c);
        if x.row == r && x.col == c {
            assert(has_key(s, r as int, c as int)) by {
                assert(s[n].row == r && s[n].col == c);
            }
            lemma_point_at(s, n);
        } else {
            if has_key(s0, r as int, c as int) {
                let i = choose|i: int| 0 <= i < s0.len() && s0[i].row == r && s0[i].col == c;
                assert(s[i] == s0[i]);
                lemma_point_at(s, i);
                lemma_point_at(s0, i);
            }
            if has_key(s, r as int, c as int) {
                let i = choose|i: int| 0 <= i < s.len() && s[i].row == r && s[i].col == c;
                assert(i != n);
                assert(s0[i] == s[i]);
            }
            if covers(s0, r as int, c as int) {
                let i = choose|i: int| 0 <= i < s0.len() && s0[i].row == r && s0[i].col > c;
                assert(s[i] == s0[i]);
            }
            if covers(s, r as int, c as int) && !(x.row == r && c < x.col) {
                let i = choose|i: int| 0 <= i < s.len() && s[i].row == r && s[i].col > c;
                assert(i != n);
                assert(s0[i] == s[i]);
            }
            if x.row == r && c < x.col {
                assert(s[n].row == r && s[n].col > c);
            }
        }
    }
}

/// Inserting the same cells in any order leaves the same lookups, provided no
/// two of them give one position different screen points.
pub proof fn lemma_insertion_order_irrelevant(s1: Seq<GridCell>, s2: Seq<GridCell>, r: usize, c: usize)
    requires
        positions_consistent(s1),
        s2.to_multiset() == s1.to_multiset(),
    ensures
        grid_lookup(built(s1), r as int, c as int) == grid_lookup(built(s2), r as int, c as int),
{
    s1.to_multiset_ensures();
    s2.to_multiset_ensures();
    assert forall|a: GridCell| s1.contains(a) <==> s2.contains(a) by {
        assert(s1.to_multiset().count(a) == s2.to_multiset().count(a));
        assert(s1.contains(a) <==> s1.to_multiset().count(a) > 0);
        assert(s2.contains(a) <==> s2.to_multiset().count(a) > 0);
    }
    assert forall|i: int, j: int|
        0 <= i < s2.len() && 0 <= j < s2.len() && s2[i].row == s2[j].row && s2[i].col == s2[j].col
            implies s2[i].screen_position == s2[j].screen_position by {
        assert(s2.contains(s2[i]));
        assert(s2.contains(s2[j]));
        let a = choose|k: int| 0 <= k < s1.len() && s1[k] == s2[i];
        let b = choose|k: int| 0 <= k < s1.len() && s1[k] == s2[j];
    }
    lemma_built_lookup(s1, r, c);
    lemma_built_lookup(s2, r, c);
    if has_key(s1, r as int, c as int) {
        let i = choose|i: int| 0 <= i < s1.len() && s1[i].row == r && s1[i].col == c;
        assert(s1.contains(s1[i]));
        let j = choose|j: int| 0 <= j < s2.len() && s2[j] == s1[i];
        lemma_point_at(s1, i);
        lemma_point_at(s2, j);
    }
    if has_key(s2, r as int, c as int) {
        let j = choose|j: int| 0 <= j < s2.len() && s2[j].row == r && s2[j].col == c;
        assert(s2.contains(s2[j]));
        let i = choose|i: int| 0 <= i < s1.len() && s1[i] == s2[j];
    }
    if covers(s1, r as int, c as int) {
        let i = choose|i: int| 0 <= i < s1.len() && s1[i].row == r && s1[i].col > c;
        assert(s1.contains(s1[i]));
        let j = choose|j: int| 0 <= j < s2.len() && s2[j] == s1[i];
    }
    if covers(s2, r as int, c as int) {
        let j = choose|j: int| 0 <= j < s2.len() && s2[j].row == r && s2[j].col > c;
        assert(s2.contains(s2[j]));
        let i = choose|i: int| 0 <= i < s1.len() && s1[i] == s2[j];
    }
}

/// The rows of the grid built from `s` reach exactly as far as its cells: every
/// cell's row and column lie inside, and the last row and the last cell of
/// each row are reached by some cell.
proof fn lemma_built_shape(s: Seq<GridCell>)
    ensures
        forall|i: int| 0 <= i < s.len() ==> #[trigger] s[i].row < built(s).len() && s[i].col < built(s)[s[i].row as int].len(),
        built(s).len() > 0 ==> exists|i: int| 0 <= i < s.len() && #[trigger] s[i].row == built(s).len() - 1,
        forall|r: int| 0 <= r < built(s).len() && #[trigger] built(s)[r].len() > 0 ==> exists|i: int|
            0 <= i < s.len() && s[i].row == r && #[trigger] s[i].col == built(s)[r].len() - 1,
    decreases s.len(),
{
    if s.len() > 0 {
        let d = s.drop_last();
        let x = s.last();
        let n = s.len() - 1;
        lemma_built_shape(d);
        let g = built(d);
        let h = built(s);
        let g1 = grow_rows(g, x.row + 1);
        assert(h == insert_spec(g, x));
        assert forall|r: int| 0 <= r < h.len() && r != x.row implies h[r].len() == (if r < g.len() { g[r].len() } else { 0 }) by {
            if r < g.len() {
                assert(g1[r] == g[r]);
            }
        }
        assert(h[x.row as int].len() >= (if x.row < g.len() { g[x.row as int].len() } else { 0 }));
        assert forall|i: int| 0 <= i < s.len() implies #[trigger] s[i].row < h.len() && s[i].col < h[s[i].row as int].len() by {
            if i < n {
                assert(s[i] == d[i]);
            }
        }
        if h.len() > 0 {
            if x.row == h.len() - 1 {
                assert(s[n].row == h.len() - 1);
            } else {
                let i = choose|i: int| 0 <= i < d.len() && #[trigger] d[i].row == g.len() - 1;
                assert(s[i] == d[i]);
            }
        }
        assert forall|r: int| 0 <= r < h.len() && #[trigger] h[r].len() > 0 implies exists|i: int|
            0 <= i < s.len() && s[i].row == r && #[trigger] s[i].col == h[r].len() - 1 by {
            if r == x.row && x.col == h[r].len() - 1 {
                assert(s[n].row == r && s[n].col == h[r].len() - 1);
            } else {
                assert(r < g.len() && g[r].len() == h[r].len() && g[r].len() > 0);
                let i = choose|i: int| 0 <= i < d.len() && d[i].row == r && #[trigger] d[i].col == g[r].len() - 1;
                assert(s[i] == d[i]);
            }
        }
    }
}

/// Inserting the same cells in any order gives the same bounds: the same
/// number of rows, the same length of every row, and so the same widest row.
pub proof fn lemma_insertion_order_keeps_bounds(s1: Seq<GridCell>, s2: Seq<GridCell>, m1: int, m2: int)
    requires
        s2.to_multiset() == s1.to_multiset(),
        is_widest(built(s1), m1),
        is_widest(built(s2), m2),
    ensures
        built(s1).len() == built(s2).len(),
        forall|r: int| 0 <= r < built(s1).len() ==> #[trigger] built(s1)[r].len() == built(s2)[r].len(),
        m1 == m2,
{
    s1.to_multiset_ensures();
    s2.to_multiset_ensures();
    assert forall|a: GridCell| s1.contains(a) <==> s2.contains(a) by {
        assert(s1.to_multiset().count(a) == s2.to_multiset().count(a));
        assert(s1.contains(a) <==> s1.to_multiset().count(a) > 0);
        assert(s2.contains(a) <==> s2.to_multiset().count(a) > 0);
    }
    lemma_built_shape(s1);
    lemma_built_shape(s2);
    lemma_same_shape(s1, s2);
    lemma_same_shape(s2, s1);
    let g1 = built(s1);
    let g2 = built(s2);
    if m1 < m2 {
        let i = choose|i: int| 0 <= i < g2.len() && g2[i].len() == m2;
        assert(g1[i].len() == g2[i].len());
    }
    if m2 < m1 {
        let i = choose|i: int| 0 <= i < g1.len() && g1[i].len() == m1;
        assert(g1[i].len() == g2[i].len());
    }
}

proof fn lemma_same_shape(s1: Seq<GridCell>, s2: Seq<GridCell>)
    requires
        forall|a: GridCell| s1.contains(a) <==> s2.contains(a),
        forall|i: int| 0 <= i < s1.len() ==> #[trigger] s1[i].row < built(s1).len() && s1[i].col < built(s1)[s1[i].row as int].len(),
        built(s1).len() > 0 ==> exists|i: int| 0 <= i < s1.len() && #[trigger] s1[i].row == built(s1).len() - 1,
        forall|r: int| 0 <= r < built(s1).len() && #[trigger] built(s1)[r].len() > 0 ==> exists|i: int|
            0 <= i < s1.len() && s1[i].row == r && #[trigger] s1[i].col == built(s1)[r].len() - 1,
        forall|i: int| 0 <= i < s2.len() ==> #[trigger] s2[i].row < built(s2).len() && s2[i].col < built(s2)[s2[i].row as int].len(),
    ensures
        built(s1).len() <= built(s2).len(),
        forall|r: int| 0 <= r < built(s1).len() ==> #[trigger] built(s1)[r].len() <= built(s2)[r].len(),
{
    let g1 = built(s1);
    let g2 = built(s2);
    if g1.len() > 0 {
        let i = choose|i: int| 0 <= i < s1.len() && #[trigger] s1[i].row == g1.len() - 1;
        assert(s1.contains(s1[i]));
        let j = choose|j: int| 0 <= j < s2.len() && s2[j] == s1[i];
        assert(s2[j].row < g2.len());
    }
    assert forall|r: int| 0 <= r < g1.len() implies #[trigger] g1[r].len() <= g2[r].len() by {
        if g1[r].len() > 0 {
            let i = choose|i: int| 0 <= i < s1.len() && s1[i].row == r && #[trigger] s1[i].col == g1[r].len() - 1;
            assert(s1.contains(s1[i]));
            let j = choose|j: int| 0 <= j < s2.len() && s2[j] == s1[i];
            assert(s2[j].col < g2[s2[j].row as int].len());
        }
    }
}

/// The cells of `row`, placed in row `r` at their column index.
pub open spec fn row_cells(row: Seq<Point>, r: int) -> Seq<GridCell> {
    Seq::new(row.len(), |j: int| GridCell { row: r as usize, col: j as usize, screen_position: row[j] })
}

/// The cells of `rows`, row after row, each at its own (row, col).
pub open spec fn row_major_cells(rows: Seq<Seq<Point>>) -> Seq<GridCell>
    decreases rows.len(),
{
    if rows.len() == 0 {
        Seq::empty()
    } else {
        row_major_cells(rows.drop_last()) + row_cells(rows.last(), rows.len() - 1)
    }
}

proof fn lemma_row_major_cells(p: Seq<Seq<Point>>)
    requires
        p.len() <= usize::MAX,
        forall|i: int| 0 <= i < p.len() ==> #[trigger] p[i].len() <= usize::MAX,
    ensures
        forall|k: int| 0 <= k < row_major_cells(p).len() ==> {
            let c = #[trigger] row_major_cells(p)[k];
            &&& c.row < p.len()
            &&& c.col < p[c.row as int].len()
            &&& c.screen_position == p[c.row as int][c.col as int]
        },
        forall|i: int, j: int| 0 <= i < p.len() && 0 <= j < p[i].len() ==> has_key(row_major_cells(p), i, j),
    decreases p.len(),
{
    if p.len() > 0 {
        let d = p.drop_last();
        let n = p.len() - 1;
        lemma_row_major_cells(d);
        let a = row_major_cells(d);
        let b = row_cells(p.last(), n);
        let s = row_major_cells(p);
        assert(s == a + b);
        assert forall|k: int| 0 <= k < s.len() implies {
            let c = #[trigger] s[k];
            &&& c.row < p.len()
            &&& c.col < p[c.row as int].len()
            &&& c.screen_position == p[c.row as int][c.col as int]
        } by {
            if k < a.len() {
                assert(s[k] == a[k]);
                assert(d[a[k].row as int] == p[a[k].row as int]);
            } else {
                assert(s[k] == b[k - a.len()]);
                assert(p.last() == p[n]);
            }
        }
        assert forall|i: int, j: int| 0 <= i < p.len() && 0 <= j < p[i].len() implies has_key(s, i, j) by {
            if i < n {
                assert(d[i] == p[i]);
                assert(has_key(a, i, j));
                let k = choose|k: int| 0 <= k < a.len() && a[k].row == i && a[k].col == j;
                assert(s[k] == a[k]);
            } else {
                assert(s[a.len() + j] == b[j]);
            }
        }
    }
}

/// In a grid built from rows of points, (i, j) gives the point at column j of
/// row i, and nothing outside the rows.
pub proof fn lemma_row_major_lookup(p: Seq<Seq<Point>>, i: usize, j: usize)
    requires
        p.len() <= usize::MAX,
        forall|r: int| 0 <= r < p.len() ==> #[trigger] p[r].len() <= usize::MAX,
    ensures
        grid_lookup(built(row_major_cells(p)), i as int, j as int) == if i < p.len() && j < p[i as int].len() {
            Some(p[i as int][j as int])
        } else {
            None
        },
{
    let s = row_major_cells(p);
    lemma_row_major_cells(p);
    assert(positions_consistent(s));
    lemma_built_lookup(s, i, j);
    if has_key(s, i as int, j as int) {
        let k = choose|k: int| 0 <= k < s.len() && s[k].row == i && s[k].col == j;
        lemma_point_at(s, k);
    } else if covers(s, i as int, j as int) {
        let k = choose|k: int| 0 <= k < s.len() && s[k].row == i && s[k].col > j;
        assert(s[k].row < p.len());
    }
}

pub open spec fn points_view(rows: Seq<Vec<Point>>) -> Seq<Seq<Point>> {
    rows.map_values(|v: Vec<Point>| v@)
}

impl ChimpGrid {
    pub closed spec fn rows(&self) -> Seq<Seq<GridCell>> {
        self.cells@.map_values(|v: Vec<GridCell>| v@)
    }

    /// The bounds are (row count, widest row), and every cell knows its place.
    pub closed spec fn wf(&self) -> bool {
        let g = self.rows();
        &&& self.grid_bounds.0 == g.len()
        &&& is_widest(g, self.grid_bounds.1 as int)
        &&& forall|i: int, j: int|
            0 <= i < g.len() && 0 <= j < g[i].len() ==> g[i][j].row == i && g[i][j].col == j
    }

    pub closed spec fn bounds_spec(&self) -> (usize, usize) {
        self.grid_bounds
    }

    /// An empty grid.
    pub fn new() -> (r: ChimpGrid)
        ensures
            r.wf(),
            r.rows() == Seq::<Seq<GridCell>>::empty(),
    {
        let r = ChimpGrid { cells: Vec::new(), grid_bounds: (0, 0) };
        assert(r.rows() =~= Seq::<Seq<GridCell>>::empty());
        r
    }

    /// A grid built by inserting, row after row, the screen point of every
    /// cell of `rows` at its own (row, col).
    pub fn from_rows(rows: &Vec<Vec<Point>>) -> (g: ChimpGrid)
        ensures
            g.wf(),
            g.rows() == built(row_major_cells(points_view(rows@))),
            forall|i: usize, j: usize|
                #[trigger] grid_lookup(g.rows(), i as int, j as int) == if i < rows.len() && j < rows@[i as int].len() {
                    Some(rows@[i as int]@[j as int])
                } else {
                    None
                },
    {
        let mut g = ChimpGrid::new();
        let ghost mut cells: Seq<GridCell> = Seq::empty();
        let mut i: usize = 0;
        while i < rows.len()
            invariant
                i <= rows.len(),
                g.wf(),
                cells == row_major_cells(points_view(rows@).take(i as int)),
                g.rows() == built(cells),
            decreases rows.len() - i,
        {
            let row = &rows[i];
            let ghost base = cells;
            let mut j: usize = 0;
            while j < row.len()
                invariant
                    i < rows.len(),
                    row == &rows@[i as int],
                    j <= row.len(),
                    g.wf(),
                    cells == base + row_cells(row@, i as int).take(j as int),
                    g.rows() == built(cells),
                decreases row.len() - j,
            {
                let cell = GridCell { row: i, col: j, screen_position: row[j] };
                g.add_cell(cell);
                proof {
                    let next = cells.push(cell);
                    assert(next.drop_last() =~= cells);
                    assert(base + row_cells(row@, i as int).take(j + 1) =~= next);
                    cells = next;
                }
                j = j + 1;
            }
            proof {
                let p = points_view(rows@);
                assert(p.take(i + 1).drop_last() =~= p.take(i as int));
                assert(row_cells(row@, i as int).take(j as int) =~= row_cells(row@, i as int));
                assert(p.take(i + 1).last() == row@);
            }
            i = i + 1;
        }
        assert(points_view(rows@).take(rows.len() as int) =~= points_view(rows@));
        assert forall|a: usize, b: usize|
            #[trigger] grid_lookup(g.rows(), a as int, b as int) == if a < rows.len() && b < rows@[a as int].len() {
                Some(rows@[a as int]@[b as int])
            } else {
                None
            } by {
            let pv = points_view(rows@);
            assert forall|r: int| 0 <= r < pv.len() implies #[trigger] pv[r].len() <= usize::MAX by {
                assert(pv[r] == rows@[r]@);
                assert(rows@[r].len() == rows@[r]@.len());
            }
            lemma_row_major_lookup(pv, a, b);
        }
        g
    }

    /// (number of rows, length of the longest row).
    pub fn bounds(&self) -> (r: (usize, usize))
        requires
            self.wf(),
        ensures
            r.0 == self.rows().len(),
            is_widest(self.rows(), r.1 as int),
    {
        self.grid_bounds
    }

    /// Stores `cell` at its (row, col), growing the grid as needed and filling
    /// new gaps with placeholders at the origin.
    pub fn add_cell(&mut self, cell: GridCell)
        requires
            old(self).wf(),
        ensures
            final(self).wf(),
            final(self).rows() == insert_spec(old(self).rows(), cell),
    {
        let ghost g0 = self.rows();
        let ghost m0 = self.grid_bounds.1 as int;
        let target_row = cell.row;
        let target_col = cell.col;
        while self.cells.len() <= target_row
            invariant
                self.grid_bounds.1 == m0,
                g0.len() <= self.cells.len() <= if g0.len() > target_row + 1 { g0.len() as int } else { target_row + 1 },
                forall|i: int| 0 <= i < g0.len() ==> #[trigger] self.cells@[i]@ == g0[i],
                forall|i: int| g0.len() <= i < self.cells.len() ==> #[trigger] self.cells@[i]@ == Seq::<GridCell>::empty(),
            decreases target_row + 1 - self.cells.len(),
        {
            self.cells.push(Vec::new());
        }
        let ghost g1 = self.rows();
        assert(g1 =~= grow_rows(g0, target_row + 1));
        let ghost row0 = g1[target_row as int];
        while self.cells[target_row].len() <= target_col
            invariant
                self.grid_bounds.1 == m0,
                target_row < self.cells.len(),
                self.cells.len() == g1.len(),
                forall|i: int| 0 <= i < g1.len() && i != target_row ==> #[trigger] self.cells@[i]@ == g1[i],
                row0.len() <= self.cells@[target_row as int].len(),
                self.cells@[target_row as int].len() <= if row0.len() > target_col + 1 { row0.len() as int } else { target_col + 1 },
                self.cells@[target_row as int]@.subrange(0, row0.len() as int) == row0,
                forall|j: int| row0.len() <= j < self.cells@[target_row as int].len() ==>
                    #[trigger] self.cells@[target_row as int]@[j] == placeholder(target_row as int, j),
            decreases target_col + 1 - self.cells@[target_row as int].len(),
        {
            let c = self.cells[target_row].len();
            self.cells[target_row].push(GridCell { row: target_row, col: c, screen_position: Point { x: 0, y: 0 } });
        }
        let ghost row1 = self.cells@[target_row as int]@;
        assert(row1 =~= grow_row(row0, target_row as int, target_col + 1));
        self.cells[target_row].set(target_col, cell);
        let width = self.cells[target_row].len();
        assert(self.rows() =~= insert_spec(g0, cell));
        self.grid_bounds.0 = self.cells.len();
        if width > self.grid_bounds.1 {
            self.grid_bounds.1 = width;
        }
        let ghost g2 = self.rows();
        let ghost m2 = self.grid_bounds.1 as int;
        proof {
            assert(is_widest(g0, m0));
            assert(m2 >= m0 && m2 >= width);
            assert forall|i: int| 0 <= i < g2.len() implies g2[i].len() <= m2 by {
                if i == target_row {
                    assert(g2[i].len() == width);
                } else if i < g0.len() {
                    assert(g2[i] == g0[i]);
                } else {
                    assert(g2[i].len() == 0);
                }
            }
            if m2 == width as int {
                assert(g2[target_row as int].len() == m2);
            } else if m2 != 0 {
                let w = choose|i: int| 0 <= i < g0.len() && g0[i].len() == m0;
                if w == target_row {
                    assert(g2[w].len() >= g0[w].len());
                }
                assert(g2[w].len() == m2);
            }
            assert(is_widest(g2, m2));
        }
    }

    /// The screen point of (row, col), or `None` outside the grid.
    pub fn get_coordinates(&self, row: usize, col: usize) -> (r: Option<Point>)
        requires
            self.wf(),
        ensures
            r == grid_lookup(self.rows(), row as int, col as int),
    {
        if row < self.cells.len() && col < self.cells[row].len() {
            Some(self.cells[row][col].screen_position)
        } else {
            None
        }
    }
}

} // verus!
