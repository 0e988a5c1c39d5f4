//! One round of the chimp test: read which cells carry which number, order
//! them by number, and turn them into screen points to click.

use vstd::prelude::*;
use crate::geometry::Point;
use crate::grid::{ChimpGrid, GridCell, grid_lookup};
use crate::text::{parse_u32, is_u32_text, digits_value, digits_part};

verus! {

/// Selector of a row of the chimp grid.
pub const ROW_SELECTOR: &'static str = ".css-k008qs";

/// Selector of a cell of the chimp grid, numbered or not.
pub const CELL_SELECTOR: &'static str = ".css-ggichp, .css-19b5rdt";

/// Attribute that holds a cell's number.
pub const NUMBER_ATTRIBUTE: &'static str = "data-cellnumber";

/// Number of rounds the chimp test is played for.
pub const MAX_CHIMP_PASSES: u8 = 37;

/// A numbered cell at (row, col).
#[derive(Clone, Copy, Debug, PartialEq, Eq, Structural)]
pub struct NumberPosition {
    pub number: u32,
    pub row: usize,
    pub col: usize,
}

pub open spec fn opt_view(o: Option<String>) -> Option<Seq<char>> {
    match o {
        Some(s) => Some(s@),
        None => None,
    }
}

pub open spec fn row_view(row: Vec<Option<String>>) -> Seq<Option<Seq<char>>> {
    row@.map_values(|o: Option<String>| opt_view(o))
}

pub open spec fn table_view(t: Seq<Vec<Option<String>>>) -> Seq<Seq<Option<Seq<char>>>> {
    t.map_values(|row: Vec<Option<String>>| row_view(row))
}

/// For each element of `html` that matches the selector `rows`, in document
/// order, the value of `attr` on each of its descendants that match `cells`.
pub uninterp spec fn cell_attributes_of(
    html: Seq<char>,
    rows: Seq<char>,
    cells: Seq<char>,
    attr: Seq<char>,
) -> Seq<Seq<Option<Seq<char>>>>;

/// Whether `s` parses as a CSS selector list.
pub uninterp spec fn selector_parses_of(s: Seq<char>) -> bool;

/// Relies on scraper: `Selector::parse` of both selectors (the only step that
/// can fail, and only on the selector text), `Html::parse_document`,
/// `select` on the document and on each row, and `attr` on each cell.
#[verifier::external_body]
fn select_cell_attributes(html: &str, rows: &str, cells: &str, attr: &str) -> (r: Option<Vec<Vec<Option<String>>>>)
    ensures
        r.is_some() == (selector_parses_of(rows@) && selector_parses_of(cells@)),
        r matches Some(t) ==> table_view(t@) == cell_attributes_of(html@, rows@, cells@, attr@),
{
    let row_selector = scraper::Selector::parse(rows).ok()?;
    let cell_selector = scraper::Selector::parse(cells).ok()?;
    let document = scraper::Html::parse_document(html);
    Some(
        document.select(&row_selector).map(
            |row| row.select(&cell_selector).map(|cell| cell.value().attr(attr).map(String::from)).collect(),
        ).collect(),
    )
}

/// The numbered cells of one row `r`: each attribute that reads as a `u32`.
pub open spec fn numbers_in_row(row: Seq<Option<Seq<char>>>, r: int) -> Seq<NumberPosition>
    decreases row.len(),
{
    if row.len() == 0 {
        Seq::empty()
    } else {
        let rest = numbers_in_row(row.drop_last(), r);
        match row.last() {
            Some(s) => if is_u32_text(s) {
                rest.push(
                    NumberPosition {
                        number: digits_value(digits_part(s)) as u32,
                        row: r as usize,
                        col: (row.len() - 1) as usize,
                    },
                )
            } else {
                rest
            },
            None => rest,
        }
    }
}

/// The numbered cells of a table of attributes, row after row.
pub open spec fn numbers_of(t: Seq<Seq<Option<Seq<char>>>>) -> Seq<NumberPosition>
    decreases t.len(),
{
    if t.len() == 0 {
        Seq::empty()
    } else {
        numbers_of(t.drop_last()) + numbers_in_row(t.last(), t.len() - 1)
    }
}

/// The numbered cells of a table of cell attributes, in row-major order.
pub fn numbers_from_attributes(table: &Vec<Vec<Option<String>>>) -> (r: Vec<NumberPosition>)
    ensures
        r@ == numbers_of(table_view(table@)),
{
    let mut out: Vec<NumberPosition> = Vec::new();
    let mut i: usize = 0;
    while i < table.len()
        invariant
            i <= table.len(),
            out@ == numbers_of(table_view(table@).take(i as int)),
        decreases table.len() - i,
    {
        let row = &table[i];
        let ghost base = out@;
        let mut j: usize = 0;
        while j < row.len()
            invariant
                i < table.len(),
                row == &table@[i as int],
                j <= row.len(),
                out@ == base + numbers_in_row(row_view(*row).take(j as int), i as int),
            decreases row.len() - j,
        {
            let ghost rv = row_view(*row);
            assert(rv.take(j + 1).drop_last() =~= rv.take(j as int));
            match &row[j] {
                Some(s) => {
                    match parse_u32(s.as_str()) {
                        Some(n) => {
                            out.push(NumberPosition { number: n, row: i, col: j });
                        },
                        None => {},
                    }
                },
                None => {},
            }
            assert(out@ =~= base + numbers_in_row(rv.take(j + 1), i as int));
            j = j + 1;
        }
        proof {
            let tv = table_view(table@);
            assert(tv.take(i + 1).drop_last() =~= tv.take(i as int));
            assert(row_view(*row).take(j as int) =~= row_view(*row));
            assert(tv.take(i + 1).last() == row_view(*row));
        }
        i = i + 1;
    }
    assert(table_view(table@).take(table.len() as int) =~= table_view(table@));
    out
}

/// Reads the numbered cells of the chimp grid out of the page's HTML; `None`
/// only if the grid's selectors do not parse.
pub fn parse_numbers_from_html(html: &str) -> (r: Option<Vec<NumberPosition>>)
    ensures
        r.is_some() <==> selector_parses_of(ROW_SELECTOR@) && selector_parses_of(CELL_SELECTOR@),
        r matches Some(v) ==> v@ == numbers_of(
            cell_attributes_of(html@, ROW_SELECTOR@, CELL_SELECTOR@, NUMBER_ATTRIBUTE@),
        ),
{
    match select_cell_attributes(html, ROW_SELECTOR, CELL_SELECTOR, NUMBER_ATTRIBUTE) {
        Some(t) => Some(numbers_from_attributes(&t)),
        None => None,
    }
}

/// `t` with `x` placed after every element whose number is not larger.
pub open spec fn insert_sorted(t: Seq<NumberPosition>, x: NumberPosition) -> Seq<NumberPosition>
    decreases t.len(),
{
    if t.len() == 0 {
        seq![x]
    } else if t.last().number <= x.number {
        t.push(x)
    } else {
        insert_sorted(t.drop_last(), x).push(t.last())
    }
}

/// `s` ordered by number; cells with equal numbers keep their order.
pub open spec fn sorted_spec(s: Seq<NumberPosition>) -> Seq<NumberPosition>
    decreases s.len(),
{
    if s.len() == 0 {
        Seq::empty()
    } else {
        insert_sorted(sorted_spec(s.drop_last()), s.last())
    }
}

pub open spec fn sorted_by_number(s: Seq<NumberPosition>) -> bool {
    forall|i: int, j: int| 0 <= i < j < s.len() ==> s[i].number <= s[j].number
}

proof fn lemma_insert_sorted(t: Seq<NumberPosition>, x: NumberPosition)
    requires
        sorted_by_number(t),
    ensures
        sorted_by_number(insert_sorted(t, x)),
        insert_sorted(t, x).to_multiset() == t.to_multiset().insert(x),
        forall|y: NumberPosition| #[trigger] insert_sorted(t, x).contains(y) ==> t.contains(y) || y == x,
    decreases t.len(),
{
    broadcast use vstd::seq_lib::group_to_multiset_ensures;

    if t.len() == 0 {
        assert(seq![x] =~= Seq::<NumberPosition>::empty().push(x));
    } else if t.last().number <= x.number {
        let r = t.push(x);
        assert forall|y: NumberPosition| r.contains(y) implies t.contains(y) || y == x by {
            let k = choose|k: int| 0 <= k < r.len() && r[k] == y;
            if k < t.len() {
                assert(t[k] == y);
            }
        }
    } else {
        let d = t.drop_last();
        assert(sorted_by_number(d));
        lemma_insert_sorted(d, x);
        let m = insert_sorted(d, x);
        let r = m.push(t.last());
        assert forall|k: int| 0 <= k < m.len() implies m[k].number <= t.last().number by {
            assert(m.contains(m[k]));
            if d.contains(m[k]) {
                let q = choose|q: int| 0 <= q < d.len() && d[q] == m[k];
                assert(t[q] == d[q]);
            }
        }
        assert(t =~= d.push(t.last()));
        assert forall|y: NumberPosition| r.contains(y) implies t.contains(y) || y == x by {
            let k = choose|k: int| 0 <= k < r.len() && r[k] == y;
            if k < m.len() {
                assert(m.contains(y));
                if d.contains(y) {
                    let q = choose|q: int| 0 <= q < d.len() && d[q] == y;
                    assert(t[q] == y);
                }
            } else {
                assert(t[t.len() - 1] == y);
            }
        }
        assert(r.to_multiset() =~= t.to_multiset().insert(x));
    }
}

/// Ordering by number gives a sorted permutation.
pub proof fn lemma_sorted_spec(s: Seq<NumberPosition>)
    ensures
        sorted_by_number(sorted_spec(s)),
        sorted_spec(s).to_multiset() == s.to_multiset(),
    decreases s.len(),
{
    broadcast use vstd::seq_lib::group_to_multiset_ensures;

    if s.len() > 0 {
        lemma_sorted_spec(s.drop_last());
        lemma_insert_sorted(sorted_spec(s.drop_last()), s.last());
        assert(s =~= s.drop_last().push(s.last()));
    }
}

/// The cells of `v` ordered by number; cells with equal numbers stay in the
/// order they came in.
pub fn sort_by_number(v: &Vec<NumberPosition>) -> (r: Vec<NumberPosition>)
    ensures
        r@ == sorted_spec(v@),
        sorted_by_number(r@),
        r@.to_multiset() == v@.to_multiset(),
{
    let mut out: Vec<NumberPosition> = Vec::new();
    let mut i: usize = 0;
    while i < v.len()
        invariant
            i <= v.len(),
            out@ == sorted_spec(v@.take(i as int)),
        decreases v.len() - i,
    {
        let x = v[i];
        let ghost t = out@;
        out.push(x);
        let mut j: usize = out.len() - 1;
        assert(t.take(j as int) + seq![x] + t.skip(j as int) =~= out@);
        assert(t.skip(j as int) =~= Seq::<NumberPosition>::empty());
        assert(insert_sorted(t, x) =~= insert_sorted(t.take(j as int), x) + t.skip(j as int)) by {
            assert(t.take(j as int) =~= t);
        }
        while j > 0 && out[j - 1].number > out[j].number
            invariant
                j < out.len(),
                out.len() == t.len() + 1,
                j <= t.len(),
                out@ == t.take(j as int) + seq![x] + t.skip(j as int),
                forall|k: int| j <= k < t.len() ==> #[trigger] t[k].number > x.number,
                insert_sorted(t, x) == insert_sorted(t.take(j as int), x) + t.skip(j as int),
            decreases j,
        {
            let a = out[j - 1];
            let b = out[j];
            out.set(j - 1, b);
            out.set(j, a);
            proof {
                let tj = t.take(j as int);
                assert(a == t[j - 1]);
                assert(tj.drop_last() =~= t.take(j - 1));
                assert(tj.last() == t[j - 1]);
                assert(insert_sorted(t.take(j - 1), x).push(t[j - 1]) + t.skip(j as int) =~= insert_sorted(
                    t.take(j - 1),
                    x,
                ) + t.skip(j - 1));
            }
            j = j - 1;
            assert(out@ =~= t.take(j as int) + seq![x] + t.skip(j as int));
        }
        proof {
            let tj = t.take(j as int);
            if j == 0 {
                assert(tj =~= Seq::<NumberPosition>::empty());
            } else {
                assert(out[j - 1] == t[j - 1]);
                assert(tj.last() == t[j - 1]);
            }
            assert(insert_sorted(tj, x) =~= tj + seq![x]);
            assert(v@.take(i + 1).drop_last() =~= v@.take(i as int));
            assert(out@ =~= insert_sorted(t, x));
        }
        i = i + 1;
    }
    assert(v@.take(v.len() as int) =~= v@);
    proof {
        lemma_sorted_spec(v@);
    }
    out
}

/// The points to click for `order`, skipping cells the grid does not reach.
pub open spec fn click_plan(g: Seq<Seq<GridCell>>, order: Seq<NumberPosition>) -> Seq<Point>
    decreases order.len(),
{
    if order.len() == 0 {
        Seq::empty()
    } else {
        let rest = click_plan(g, order.drop_last());
        match grid_lookup(g, order.last().row as int, order.last().col as int) {
            Some(p) => rest.push(p),
            None => rest,
        }
    }
}

/// The screen points of `order`, in order; a cell outside the grid is skipped.
pub fn click_points(grid: &ChimpGrid, order: &Vec<NumberPosition>) -> (r: Vec<Point>)
    requires
        grid.wf(),
    ensures
        r@ == click_plan(grid.rows(), order@),
{
    let mut out: Vec<Point> = Vec::new();
    let mut i: usize = 0;
    while i < order.len()
        invariant
            grid.wf(),
            i <= order.len(),
            out@ == click_plan(grid.rows(), order@.take(i as int)),
        decreases order.len() - i,
    {
        assert(order@.take(i + 1).drop_last() =~= order@.take(i as int));
        let pos = order[i];
        match grid.get_coordinates(pos.row, pos.col) {
            Some(p) => out.push(p),
            None => {},
        }
        i = i + 1;
    }
    assert(order@.take(order.len() as int) =~= order@);
    out
}

/// The clicks of one round: the numbered cells read from the page's HTML,
/// ordered by number, mapped through `grid`.
pub fn round_clicks(grid: &ChimpGrid, html: &str) -> (r: Option<Vec<Point>>)
    requires
        grid.wf(),
    ensures
        r.is_some() <==> selector_parses_of(ROW_SELECTOR@) && selector_parses_of(CELL_SELECTOR@),
        r matches Some(v) ==> v@ == click_plan(
            grid.rows(),
            sorted_spec(numbers_of(cell_attributes_of(html@, ROW_SELECTOR@, CELL_SELECTOR@, NUMBER_ATTRIBUTE@))),
        ),
{
    match parse_numbers_from_html(html) {
        Some(numbers) => {
            let order = sort_by_number(&numbers);
            Some(click_points(grid, &order))
        },
        None => None,
    }
}

/// The next pass number, or `None` once the last pass has been played.
pub fn next_pass(pass: u8) -> (r: Option<u8>)
    ensures
        r == (if pass >= MAX_CHIMP_PASSES { None::<u8> } else { Some((pass + 1) as u8) }),
{
    if pass >= MAX_CHIMP_PASSES {
        None
    } else {
        Some(pass + 1)
    }
}

/// The cells of `order` that the grid does not reach, in order.
pub open spec fn missing_plan(g: Seq<Seq<GridCell>>, order: Seq<NumberPosition>) -> Seq<NumberPosition>
    decreases order.len(),
{
    if order.len() == 0 {
        Seq::empty()
    } else {
        let rest = missing_plan(g, order.drop_last());
        match grid_lookup(g, order.last().row as int, order.last().col as int) {
            Some(p) => rest,
            None => rest.push(order.last()),
        }
    }
}

/// The cells of `order` that have no screen point in `grid` (and so are not
/// clicked), in order.
pub fn missing_positions(grid: &ChimpGrid, order: &Vec<NumberPosition>) -> (r: Vec<NumberPosition>)
    requires
        grid.wf(),
    ensures
        r@ == missing_plan(grid.rows(), order@),
{
    let mut out: Vec<NumberPosition> = Vec::new();
    let mut i: usize = 0;
    while i < order.len()
        invariant
            grid.wf(),
            i <= order.len(),
            out@ == missing_plan(grid.rows(), order@.take(i as int)),
        decreases order.len() - i,
    {
        assert(order@.take(i + 1).drop_last() =~= order@.take(i as int));
        let pos = order[i];
        match grid.get_coordinates(pos.row, pos.col) {
            Some(_) => {},
            None => out.push(pos),
        }
        i = i + 1;
    }
    assert(order@.take(order.len() as int) =~= order@);
    out
}

} // verus!
