//! Rows of the board: stamping cells, finding full rows, and taking cleared
//! rows out while the rows above move down.

use vstd::prelude::*;

use crate::geometry::int_cells;
use crate::{COLUMNS, PALETTE_LEN, ROWS};

verus! {

/// The rows of a grid as values.
pub open spec fn rows_of(g: Seq<Vec<usize>>) -> Seq<Seq<usize>> {
    g.map_values(|r: Vec<usize>| r@)
}

/// `ROWS` rows of `COLUMNS` cells.
pub open spec fn is_board(g: Seq<Seq<usize>>) -> bool {
    &&& g.len() == ROWS
    &&& forall|y: int| 0 <= y < ROWS ==> (#[trigger] g[y]).len() == COLUMNS
}

/// The grid `g` with every cell listed in `cells` set to `color`.
pub open spec fn stamped(g: Seq<Seq<usize>>, cells: Seq<(int, int)>, color: usize) -> Seq<Seq<usize>> {
    Seq::new(
        g.len(),
        |y: int| Seq::new(g[y].len(), |x: int| if cells.contains((x, y)) { color } else { g[y][x] }),
    )
}

/// No cell of the row is empty.
pub open spec fn full_row(row: Seq<usize>) -> bool {
    forall|x: int| 0 <= x < row.len() ==> #[trigger] row[x] != 0
}

/// Some cell lies in row `y`.
pub open spec fn touches_row(cells: Seq<(int, int)>, y: int) -> bool {
    exists|i: int| 0 <= i < cells.len() && (#[trigger] cells[i]).1 == y
}

/// Row `y` of `g` is full and touched by one of `cells`.
pub open spec fn clears(g: Seq<Seq<usize>>, cells: Seq<(int, int)>, y: int) -> bool {
    0 <= y < g.len() && touches_row(cells, y) && full_row(g[y])
}

/// The rows below `hi` that `clears` picks, in ascending order.
pub open spec fn cleared_upto(g: Seq<Seq<usize>>, cells: Seq<(int, int)>, hi: int) -> Seq<int>
    decreases hi,
{
    if hi <= 0 {
        seq![]
    } else {
        cleared_upto(g, cells, hi - 1) + if clears(g, cells, hi - 1) {
            seq![hi - 1]
        } else {
            seq![]
        }
    }
}

/// The indices as integers.
pub open spec fn as_ints(s: Seq<usize>) -> Seq<int> {
    s.map_values(|u: usize| u as int)
}

/// Each element is smaller than the next.
pub open spec fn increasing(s: Seq<int>) -> bool {
    forall|i: int, j: int| 0 <= i < j < s.len() ==> s[i] < s[j]
}

/// The rows of `g` from `lo` up to `hi` that are not in `gone`, in order.
pub open spec fn kept_between(g: Seq<Seq<usize>>, gone: Seq<int>, lo: int, hi: int) -> Seq<
    Seq<usize>,
>
    decreases hi - lo,
{
    if lo >= hi {
        seq![]
    } else {
        (if gone.contains(lo) {
            seq![]
        } else {
            seq![g[lo]]
        }) + kept_between(g, gone, lo + 1, hi)
    }
}

/// A row of `width` empty cells.
pub open spec fn empty_row(width: nat) -> Seq<usize> {
    Seq::new(width, |x: int| 0usize)
}

/// The grid `g` with the rows in `gone` taken out, the other rows moved down
/// in order, and as many empty rows of `width` cells put on top.
pub open spec fn compacted(g: Seq<Seq<usize>>, gone: Seq<int>, width: nat) -> Seq<Seq<usize>> {
    let kept = kept_between(g, gone, 0, g.len() as int);
    Seq::new((g.len() - kept.len()) as nat, |i: int| empty_row(width)) + kept
}

/// A row of `COLUMNS` palette colors.
pub open spec fn good_row(row: Seq<usize>) -> bool {
    row.len() == COLUMNS && forall|x: int| 0 <= x < COLUMNS ==> #[trigger] row[x] < PALETTE_LEN
}

pub(crate) proof fn lemma_kept_len(g: Seq<Seq<usize>>, gone: Seq<int>, lo: int, hi: int)
    requires
        lo <= hi,
    ensures
        kept_between(g, gone, lo, hi).len() <= hi - lo,
    decreases hi - lo,
{
    if lo < hi {
        lemma_kept_len(g, gone, lo + 1, hi);
    }
}

proof fn lemma_kept_split(g: Seq<Seq<usize>>, gone: Seq<int>, lo: int, mid: int, hi: int)
    requires
        lo <= mid <= hi,
    ensures
        kept_between(g, gone, lo, hi) == kept_between(g, gone, lo, mid) + kept_between(
            g,
            gone,
            mid,
            hi,
        ),
    decreases mid - lo,
{
    if lo < mid {
        lemma_kept_split(g, gone, lo + 1, mid, hi);
        assert(kept_between(g, gone, lo, hi) =~= kept_between(g, gone, lo, mid) + kept_between(
            g,
            gone,
            mid,
            hi,
        ));
    } else {
        assert(kept_between(g, gone, lo, mid) =~= seq![]);
        assert(kept_between(g, gone, lo, hi) =~= kept_between(g, gone, lo, mid) + kept_between(
            g,
            gone,
            mid,
            hi,
        ));
    }
}

proof fn lemma_kept_untouched(g: Seq<Seq<usize>>, gone: Seq<int>, lo: int, hi: int)
    requires
        0 <= lo <= hi <= g.len(),
        forall|k: int| 0 <= k < gone.len() ==> !(lo <= #[trigger] gone[k] < hi),
    ensures
        kept_between(g, gone, lo, hi) == g.subrange(lo, hi),
    decreases hi - lo,
{
    if lo < hi {
        lemma_kept_untouched(g, gone, lo + 1, hi);
        if gone.contains(lo) {
            let k = choose|k: int| 0 <= k < gone.len() && gone[k] == lo;
        }
        assert(kept_between(g, gone, lo, hi) =~= g.subrange(lo, hi));
    } else {
        assert(g.subrange(lo, hi) =~= seq![]);
    }
}

pub(crate) proof fn lemma_kept_good(g: Seq<Seq<usize>>, gone: Seq<int>, lo: int, hi: int)
    requires
        0 <= lo,
        hi <= g.len(),
        forall|r: int| lo <= r < hi ==> good_row(#[trigger] g[r]),
    ensures
        forall|k: int|
            0 <= k < kept_between(g, gone, lo, hi).len() ==> good_row(
                #[trigger] kept_between(g, gone, lo, hi)[k],
            ),
    decreases hi - lo,
{
    if lo < hi {
        lemma_kept_good(g, gone, lo + 1, hi);
        let rest = kept_between(g, gone, lo + 1, hi);
        let head: Seq<Seq<usize>> = if gone.contains(lo) {
            seq![]
        } else {
            seq![g[lo]]
        };
        assert forall|k: int|
            0 <= k < kept_between(g, gone, lo, hi).len() implies good_row(
            #[trigger] kept_between(g, gone, lo, hi)[k],
        ) by {
            if k >= head.len() {
                assert(kept_between(g, gone, lo, hi)[k] == rest[k - head.len()]);
            }
        }
    }
}

pub(crate) proof fn lemma_cleared_upto(g: Seq<Seq<usize>>, cells: Seq<(int, int)>, hi: int)
    requires
        0 <= hi,
    ensures
        increasing(cleared_upto(g, cells, hi)),
        cleared_upto(g, cells, hi).len() <= hi,
        forall|k: int|
            0 <= k < cleared_upto(g, cells, hi).len() ==> 0 <= #[trigger] cleared_upto(
                g,
                cells,
                hi,
            )[k] < hi && clears(g, cells, cleared_upto(g, cells, hi)[k]),
        forall|y: int| 0 <= y < hi && clears(g, cells, y) ==> cleared_upto(g, cells, hi).contains(y),
    decreases hi,
{
    if hi > 0 {
        lemma_cleared_upto(g, cells, hi - 1);
        let prev = cleared_upto(g, cells, hi - 1);
        let cur = cleared_upto(g, cells, hi);
        assert forall|y: int| 0 <= y < hi && clears(g, cells, y) implies cur.contains(y) by {
            if y < hi - 1 {
                let k = choose|k: int| 0 <= k < prev.len() && prev[k] == y;
                assert(cur[k] == y);
            } else {
                assert(cur[prev.len() as int] == y);
            }
        }
    }
}

fn holds(v: &Vec<usize>, x: usize) -> (r: bool)
    ensures
        r == v@.contains(x),
{
    let mut i: usize = 0;
    while i < v.len()
        invariant
            0 <= i <= v@.len(),
            forall|j: int| 0 <= j < i ==> v@[j] != x,
        decreases v@.len() - i,
    {
        if v[i] == x {
            return true;
        }
        i = i + 1;
    }
    false
}

pub(crate) fn copy_row(row: &Vec<usize>) -> (r: Vec<usize>)
    ensures
        r@ == row@,
{
    let mut r: Vec<usize> = Vec::new();
    let mut i: usize = 0;
    while i < row.len()
        invariant
            0 <= i <= row@.len(),
            r@ == row@.subrange(0, i as int),
        decreases row@.len() - i,
    {
        r.push(row[i]);
        i = i + 1;
        assert(r@ =~= row@.subrange(0, i as int));
    }
    assert(r@ =~= row@);
    r
}

pub(crate) fn new_empty_row(width: usize) -> (r: Vec<usize>)
    ensures
        r@ == empty_row(width as nat),
{
    let mut r: Vec<usize> = Vec::new();
    let mut i: usize = 0;
    while i < width
        invariant
            0 <= i <= width,
            r@ == empty_row(i as nat),
        decreases width - i,
    {
        r.push(0);
        i = i + 1;
        assert(r@ =~= empty_row(i as nat));
    }
    r
}

pub(crate) fn stamp(grid: &mut Vec<Vec<usize>>, cells: &Vec<(i32, i32)>, color: usize)
    requires
        is_board(rows_of(old(grid)@)),
    ensures
        rows_of(final(grid)@) == stamped(rows_of(old(grid)@), int_cells(cells@), color),
{
    let ghost g = rows_of(grid@);
    let ghost cv = int_cells(cells@);
    let mut i: usize = 0;
    assert forall|y: int| 0 <= y < ROWS implies (#[trigger] grid@[y])@.len() == COLUMNS by {
        assert(g[y] == grid@[y]@);
    }
    assert(stamped(g, cv.subrange(0, 0), color) =~~= g);
    while i < cells.len()
        invariant
            0 <= i <= cells@.len(),
            cv == int_cells(cells@),
            g.len() == ROWS,
            forall|y: int| 0 <= y < ROWS ==> (#[trigger] g[y]).len() == COLUMNS,
            grid@.len() == ROWS,
            forall|y: int| 0 <= y < ROWS ==> (#[trigger] grid@[y])@.len() == COLUMNS,
            rows_of(grid@) == stamped(g, cv.subrange(0, i as int), color),
        decreases cells@.len() - i,
    {
        let (x, y) = cells[i];
        let ghost before = rows_of(grid@);
        if 0 <= x && x < COLUMNS as i32 && 0 <= y && y < ROWS as i32 {
            let mut row = copy_row(&grid[y as usize]);
            row.set(x as usize, color);
            grid.set(y as usize, row);
            assert(rows_of(grid@) =~= before.update(
                y as int,
                before[y as int].update(x as int, color),
            ));
        }
        assert(cv[i as int] == (x as int, y as int));
        i = i + 1;
        let ghost now = stamped(g, cv.subrange(0, i as int), color);
        assert forall|yy: int, xx: int| 0 <= yy < ROWS && 0 <= xx < COLUMNS implies #[trigger] now[yy][xx]
            == rows_of(grid@)[yy][xx] by {
            let a = cv.subrange(0, i as int);
            let b = cv.subrange(0, i - 1);
            if a.contains((xx, yy)) {
                let k = choose|k: int| 0 <= k < a.len() && a[k] == (xx, yy);
                if k < i - 1 {
                    assert(b[k] == (xx, yy));
                }
            }
            if b.contains((xx, yy)) {
                let k = choose|k: int| 0 <= k < b.len() && b[k] == (xx, yy);
                assert(a[k] == (xx, yy));
            }
            if cv[i - 1] == (xx, yy) {
                assert(a[i - 1] == (xx, yy));
            }
            assert(a.contains((xx, yy)) == (b.contains((xx, yy)) || cv[i - 1] == (xx, yy)));
            assert(before[yy][xx] == stamped(g, b, color)[yy][xx]);
        }
        assert(rows_of(grid@) =~~= now);
    }
    assert(cv.subrange(0, cells@.len() as int) =~= cv);
}

fn row_is_full(row: &Vec<usize>) -> (r: bool)
    ensures
        r == full_row(row@),
{
    let mut x: usize = 0;
    while x < row.len()
        invariant
            0 <= x <= row@.len(),
            forall|j: int| 0 <= j < x ==> row@[j] != 0,
        decreases row@.len() - x,
    {
        if row[x] == 0 {
            return false;
        }
        x = x + 1;
    }
    true
}

fn touches(cells: &Vec<(i32, i32)>, y: usize) -> (r: bool)
    ensures
        r == touches_row(int_cells(cells@), y as int),
{
    let ghost cv = int_cells(cells@);
    let mut i: usize = 0;
    while i < cells.len()
        invariant
            0 <= i <= cells@.len(),
            cv == int_cells(cells@),
            forall|j: int| 0 <= j < i ==> (#[trigger] cv[j]).1 != y,
        decreases cells@.len() - i,
    {
        if cells[i].1 >= 0 && cells[i].1 as usize == y {
            assert(cv[i as int].1 == y);
            return true;
        }
        i = i + 1;
    }
    false
}

/// The full rows of `grid` that one of `cells` lies in, in ascending order.
pub(crate) fn find_cleared_rows(grid: &Vec<Vec<usize>>, cells: &Vec<(i32, i32)>) -> (r: Vec<usize>)
    ensures
        as_ints(r@) == cleared_upto(rows_of(grid@), int_cells(cells@), grid@.len() as int),
{
    let ghost g = rows_of(grid@);
    let ghost cv = int_cells(cells@);
    let mut r: Vec<usize> = Vec::new();
    let mut y: usize = 0;
    while y < grid.len()
        invariant
            0 <= y <= grid@.len(),
            g == rows_of(grid@),
            cv == int_cells(cells@),
            as_ints(r@) == cleared_upto(g, cv, y as int),
        decreases grid@.len() - y,
    {
        let ghost prev = r@;
        if touches(cells, y) && row_is_full(&grid[y]) {
            r.push(y);
            assert(as_ints(r@) =~= as_ints(prev) + seq![y as int]);
        } else {
            assert(as_ints(r@) =~= as_ints(prev) + seq![]);
        }
        y = y + 1;
    }
    r
}

/// Takes the rows listed in `cleared_rows` out of `grid`: walking up from the
/// lowest cleared row, each remaining row moves down by the number of cleared
/// rows met so far, and the rows left free at the top become empty rows of
/// `width` cells.
pub fn fill_cleared_rows(grid: &mut Vec<Vec<usize>>, cleared_rows: &Vec<usize>, width: usize)
    requires
        increasing(as_ints(cleared_rows@)),
        forall|k: int| 0 <= k < cleared_rows@.len() ==> #[trigger] cleared_rows@[k] < old(grid)@.len(),
    ensures
        rows_of(final(grid)@) == compacted(rows_of(old(grid)@), as_ints(cleared_rows@), width as nat),
{
    let ghost g = rows_of(grid@);
    let ghost c = as_ints(cleared_rows@);
    let ghost n = g.len() as int;
    let total = grid.len();
    if cleared_rows.len() == 0 {
        proof {
            lemma_kept_untouched(g, c, 0, n);
            assert(compacted(g, c, width as nat) =~= g);
        }
        return;
    }
    let last = cleared_rows[cleared_rows.len() - 1];
    proof {
        assert forall|k: int| 0 <= k < c.len() implies #[trigger] c[k] <= last by {
            if k < c.len() - 1 {
                assert(c[k] < c[c.len() - 1]);
            }
        }
        assert(c.contains(last as int)) by {
            assert(c[c.len() - 1] == last);
        }
    }
    let mut jump: usize = 1;
    let mut i: usize = last;
    assert(kept_between(g, c, last + 1, last + 1) =~= seq![]);
    assert(kept_between(g, c, last as int, last + 1) =~= seq![]);
    assert(rows_of(grid@).subrange(last + 1, last + 1) =~= seq![]);
    while i > 0
        invariant
            grid@.len() == n,
            n == total,
            0 <= i <= last < n,
            1 <= jump,
            forall|k: int| 0 <= k < c.len() ==> #[trigger] c[k] <= last,
            c == as_ints(cleared_rows@),
            g == rows_of(old(grid)@),
            n == g.len(),
            rows_of(grid@).subrange(i + jump, last + 1) == kept_between(g, c, i as int, last + 1),
            jump + kept_between(g, c, i as int, last + 1).len() == last + 1 - i,
            forall|r: int| 0 <= r < i ==> (#[trigger] grid@[r])@ == g[r],
            forall|r: int| last < r < n ==> (#[trigger] grid@[r])@ == g[r],
        decreases i,
    {
        let y = i - 1;
        proof {
            lemma_kept_len(g, c, i as int, last + 1);
        }
        let gone = holds(cleared_rows, y);
        assert(gone == c.contains(y as int)) by {
            if gone {
                let k = choose|k: int| 0 <= k < cleared_rows@.len() && cleared_rows@[k] == y;
                assert(c[k] == y);
            }
            if c.contains(y as int) {
                let k = choose|k: int| 0 <= k < c.len() && c[k] == y;
                assert(cleared_rows@[k] == y);
            }
        }
        if gone {
            jump = jump + 1;
        } else {
            let row = copy_row(&grid[y]);
            let ghost before = rows_of(grid@);
            grid.set(y + jump, row);
            assert(rows_of(grid@).subrange(y + jump, last + 1) =~= seq![g[y as int]]
                + before.subrange(i + jump, last + 1));
        }
        i = y;
        assert(kept_between(g, c, i as int, last + 1) == (if c.contains(i as int) {
            seq![]
        } else {
            seq![g[i as int]]
        }) + kept_between(g, c, i + 1, last + 1));
    }
    proof {
        lemma_kept_len(g, c, 0, last + 1);
    }
    let ghost middle = rows_of(grid@);
    let mut r: usize = 0;
    while r < jump
        invariant
            grid@.len() == n,
            0 <= r <= jump <= last + 1,
            last < n,
            forall|t: int| 0 <= t < r ==> (#[trigger] grid@[t])@ == empty_row(width as nat),
            forall|t: int| jump <= t < n ==> (#[trigger] grid@[t])@ == middle[t],
            middle.len() == n,
        decreases jump - r,
    {
        let row = new_empty_row(width);
        grid.set(r, row);
        r = r + 1;
    }
    proof {
        lemma_kept_split(g, c, 0, last + 1, n);
        lemma_kept_untouched(g, c, last + 1, n);
        let kept = kept_between(g, c, 0, n);
        assert(kept == middle.subrange(jump as int, last + 1) + g.subrange(last + 1, n));
        assert(rows_of(grid@) =~= compacted(g, c, width as nat));
    }
}

proof fn lemma_kept_same(g: Seq<Seq<usize>>, c1: Seq<int>, c2: Seq<int>, lo: int, hi: int)
    requires
        forall|y: int| lo <= y < hi ==> c1.contains(y) == c2.contains(y),
    ensures
        kept_between(g, c1, lo, hi) == kept_between(g, c2, lo, hi),
    decreases hi - lo,
{
    if lo < hi {
        lemma_kept_same(g, c1, c2, lo + 1, hi);
    }
}

proof fn lemma_kept_count(g: Seq<Seq<usize>>, c: Seq<int>, lo: int, hi: int)
    requires
        lo <= hi,
        increasing(c),
        forall|k: int| 0 <= k < c.len() ==> lo <= #[trigger] c[k] < hi,
    ensures
        kept_between(g, c, lo, hi).len() == (hi - lo) - c.len(),
    decreases hi - lo,
{
    if lo < hi {
        if c.len() > 0 && c[0] == lo {
            let rest = c.drop_first();
            assert forall|y: int| lo + 1 <= y < hi implies c.contains(y) == rest.contains(y) by {
                if c.contains(y) {
                    let k = choose|k: int| 0 <= k < c.len() && c[k] == y;
                    assert(rest[k - 1] == y);
                }
                if rest.contains(y) {
                    let k = choose|k: int| 0 <= k < rest.len() && rest[k] == y;
                    assert(c[k + 1] == y);
                }
            }
            assert forall|k: int| 0 <= k < rest.len() implies lo + 1 <= #[trigger] rest[k] < hi by {
                assert(c[0] < c[k + 1]);
            }
            lemma_kept_same(g, c, rest, lo + 1, hi);
            lemma_kept_count(g, rest, lo + 1, hi);
            assert(c.contains(lo)) by {
                assert(c[0] == lo);
            }
        } else {
            assert(!c.contains(lo)) by {
                if c.contains(lo) {
                    let k = choose|k: int| 0 <= k < c.len() && c[k] == lo;
                    assert(c[0] <= c[k]);
                }
            }
            assert forall|k: int| 0 <= k < c.len() implies lo + 1 <= #[trigger] c[k] < hi by {
                assert(c[0] <= c[k]);
                assert(c[k] != lo);
            }
            lemma_kept_count(g, c, lo + 1, hi);
        }
    } else {
        if c.len() > 0 {
            assert(lo <= c[0] < hi);
        }
    }
}

/// Clearing rows `c[0] < c[1] < ... < c[k-1]` keeps the number of rows,
/// leaves `k` empty rows on top, moves every row above the highest cleared
/// row down by exactly `k`, and leaves the rows below the lowest cleared row
/// where they were.
pub proof fn clearing_shifts_rows_above(g: Seq<Seq<usize>>, c: Seq<int>, width: nat)
    requires
        increasing(c),
        c.len() > 0,
        forall|k: int| 0 <= k < c.len() ==> 0 <= #[trigger] c[k] < g.len(),
    ensures
        compacted(g, c, width).len() == g.len(),
        forall|t: int| 0 <= t < c.len() ==> #[trigger] compacted(g, c, width)[t] == empty_row(width),
        forall|y: int| 0 <= y < c[0] ==> #[trigger] compacted(g, c, width)[y + c.len()] == g[y],
        forall|y: int| c[c.len() - 1] < y < g.len() ==> #[trigger] compacted(g, c, width)[y] == g[y],
{
    let n = g.len() as int;
    let k = c.len() as int;
    let first = c[0];
    let last = c[k - 1];
    let kept = kept_between(g, c, 0, n);
    let r = compacted(g, c, width);
    assert forall|j: int| 0 <= j < k implies first <= #[trigger] c[j] <= last by {
        if j > 0 {
            assert(c[0] < c[j]);
        }
        if j < k - 1 {
            assert(c[j] < c[k - 1]);
        }
    }
    lemma_kept_count(g, c, 0, n);
    assert(r.len() == n);
    lemma_kept_split(g, c, 0, first, n);
    lemma_kept_untouched(g, c, 0, first);
    assert forall|y: int| 0 <= y < first implies #[trigger] r[y + k] == g[y] by {
        assert(kept[y] == g.subrange(0, first)[y]);
    }
    lemma_kept_split(g, c, 0, last + 1, n);
    lemma_kept_untouched(g, c, last + 1, n);
    lemma_kept_count(g, c, 0, last + 1);
    assert forall|y: int| last < y < n implies #[trigger] r[y] == g[y] by {
        assert(r[y] == kept[y - k]);
        assert(kept[y - k] == g.subrange(last + 1, n)[y - last - 1]);
    }
}

} // verus!
