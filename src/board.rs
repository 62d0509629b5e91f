//! The game state: the board of placed cells, the falling piece, the bag of
//! shapes still to be dealt, and the score.

use vstd::prelude::*;

use rand::seq::SliceRandom;
use rand::Rng;

use crate::geometry::{
    catalog_shape, half_toward_zero, half_toward_zero_exec, int_cells, lemma_opposite_undoes,
    lemma_turns_modulo_four, Collision, PieceView, Player, PlayerMove, Shape, CATALOG_LEN,
};
use crate::rows::{
    as_ints, cleared_upto, compacted, copy_row, empty_row, find_cleared_rows, fill_cleared_rows,
    good_row, is_board, kept_between, lemma_cleared_upto, lemma_kept_good, lemma_kept_len,
    new_empty_row, rows_of, stamp, stamped,
};
use crate::{COLUMNS, PALETTE_LEN, ROWS};

verus! {

pub open spec fn on_board(c: (int, int)) -> bool {
    0 <= c.0 < COLUMNS && 0 <= c.1 < ROWS
}

pub open spec fn hits_wall(c: (int, int)) -> bool {
    c.0 < 0 || c.0 >= COLUMNS
}

pub open spec fn hits_floor(c: (int, int)) -> bool {
    c.1 >= ROWS
}

pub open spec fn hits_block(g: Seq<Seq<usize>>, c: (int, int)) -> bool {
    on_board(c) && g[c.1][c.0] != 0
}

/// What a piece covering `cells` runs into on board `g`: a wall if any cell
/// lies left or right of the board, else the floor if any lies below it,
/// else a block if any covers a placed cell. Cells above the board are free.
pub open spec fn collision_of(g: Seq<Seq<usize>>, cells: Seq<(int, int)>) -> Option<Collision> {
    if exists|i: int| 0 <= i < cells.len() && hits_wall(#[trigger] cells[i]) {
        Some(Collision::Wall)
    } else if exists|i: int| 0 <= i < cells.len() && hits_floor(#[trigger] cells[i]) {
        Some(Collision::Floor)
    } else if exists|i: int| 0 <= i < cells.len() && hits_block(g, #[trigger] cells[i]) {
        Some(Collision::Block)
    } else {
        None
    }
}

pub open spec fn pow2(k: nat) -> nat
    decreases k,
{
    if k == 0 {
        1
    } else {
        2 * pow2((k - 1) as nat)
    }
}

/// Points for clearing `k` rows at once: `100 * 2^k`, nothing for none.
pub open spec fn points_for(k: nat) -> int {
    if k == 0 {
        0
    } else {
        100 * pow2(k) as int
    }
}

/// The most points one piece can bring.
pub open spec fn max_points_per_piece() -> int {
    100 * pow2(ROWS as nat) as int
}

proof fn lemma_pow2_rows()
    ensures
        pow2(ROWS as nat) == 1048576,
{
    reveal_with_fuel(pow2, 21);
}

proof fn lemma_pow2_monotone(a: nat, b: nat)
    requires
        a <= b,
    ensures
        1 <= pow2(a) <= pow2(b),
    decreases b,
{
    if a < b {
        lemma_pow2_monotone(a, (b - 1) as nat);
    } else if a > 0 {
        lemma_pow2_monotone((a - 1) as nat, (a - 1) as nat);
    }
}

/// The indices `0..n` in ascending order.
pub open spec fn index_range(n: nat) -> Seq<usize> {
    Seq::new(n, |i: int| i as usize)
}

/// A new piece of `shape` in `color`, centered on the top row.
pub open spec fn spawned(shape: Shape, color: usize) -> PieceView {
    PieceView {
        x: half_toward_zero(COLUMNS - shape.pivot().0),
        y: 0,
        offsets: shape.offsets(),
        pivot: shape.pivot(),
        color,
    }
}

/// Relies on rand's `SliceRandom::shuffle` with `thread_rng`: the same
/// elements come back, each as often as it was given, in some order.
#[verifier::external_body]
fn shuffled(v: Vec<usize>) -> (r: Vec<usize>)
    ensures
        r@.to_multiset() == v@.to_multiset(),
{
    let mut v = v;
    v.shuffle(&mut rand::thread_rng());
    v
}

/// Relies on rand's `Rng::gen_range` with `thread_rng`: a value in
/// `lo..hi`. It panics on an empty range, which `requires` leaves out.
#[verifier::external_body]
fn random_in(lo: usize, hi: usize) -> (r: usize)
    requires
        lo < hi,
    ensures
        lo <= r < hi,
{
    rand::thread_rng().gen_range(lo..hi)
}

proof fn lemma_range_has_no_duplicates(n: nat)
    requires
        n <= usize::MAX,
    ensures
        index_range(n).no_duplicates(),
        forall|x: usize| index_range(n).contains(x) <==> x < n,
{
    let s = index_range(n);
    assert forall|x: usize| s.contains(x) <==> x < n by {
        if x < n {
            assert(s[x as int] == x);
        }
    }
}

/// A sequence with the multiset of `0..n` holds each index below `n` once
/// and nothing else.
proof fn lemma_permutation_of_range(s: Seq<usize>, n: nat)
    requires
        s.to_multiset() == index_range(n).to_multiset(),
        n <= usize::MAX,
    ensures
        s.len() == n,
        s.no_duplicates(),
        forall|x: usize| s.contains(x) <==> x < n,
        forall|i: int| 0 <= i < s.len() ==> #[trigger] s[i] < n,
{
    s.to_multiset_ensures();
    index_range(n).to_multiset_ensures();
    lemma_range_has_no_duplicates(n);
    index_range(n).lemma_multiset_has_no_duplicates();
    assert forall|x: usize| s.contains(x) <==> x < n by {
        assert(s.to_multiset().count(x) == index_range(n).to_multiset().count(x));
        assert(s.contains(x) <==> s.to_multiset().count(x) > 0);
        assert(index_range(n).contains(x) <==> index_range(n).to_multiset().count(x) > 0);
        assert(index_range(n).contains(x) <==> x < n);
    }
    s.lemma_multiset_has_no_duplicates_conv();
    assert forall|i: int| 0 <= i < s.len() implies #[trigger] s[i] < n by {
        assert(s.contains(s[i]));
    }
}

/// A piece that lies partly left or right of the board is reported as
/// running into a wall, even where other cells of it cover placed blocks or
/// lie below the floor.
pub proof fn wall_takes_precedence(g: Seq<Seq<usize>>, cells: Seq<(int, int)>, i: int)
    requires
        0 <= i < cells.len(),
        cells[i].0 < 0 || cells[i].0 >= COLUMNS,
    ensures
        collision_of(g, cells) == Some(Collision::Wall),
{
    assert(hits_wall(cells[i]));
}

/// A piece that reaches below the board, and lies within it left to right,
/// is reported as running into the floor, even where other cells of it cover
/// placed blocks.
pub proof fn floor_before_block(g: Seq<Seq<usize>>, cells: Seq<(int, int)>, i: int)
    requires
        0 <= i < cells.len(),
        cells[i].1 >= ROWS,
        forall|j: int| 0 <= j < cells.len() ==> 0 <= (#[trigger] cells[j]).0 < COLUMNS,
    ensures
        collision_of(g, cells) == Some(Collision::Floor),
{
    assert(hits_floor(cells[i]));
}

/// A freshly filled bag deals every catalog shape exactly once before any
/// repeats. When a spawn refills the bag, it deals `first` and leaves `rest`
/// with `rest.push(first)` a permutation of the catalog indices; the next
/// spawns take `rest` from the back. The indices dealt, in order, are
/// `first` followed by `rest` reversed: as many as the catalog holds, none
/// twice, and every index among them.
pub proof fn bag_deals_every_shape_once(first: usize, rest: Seq<usize>)
    requires
        rest.push(first).to_multiset() == index_range(CATALOG_LEN as nat).to_multiset(),
    ensures
        (seq![first] + rest.reverse()).len() == CATALOG_LEN,
        (seq![first] + rest.reverse()).no_duplicates(),
        forall|x: usize| x < CATALOG_LEN ==> #[trigger] (seq![first] + rest.reverse()).contains(x),
{
    let full = rest.push(first);
    let dealt = seq![first] + rest.reverse();
    lemma_permutation_of_range(full, CATALOG_LEN as nat);
    assert(dealt =~= full.reverse());
    assert forall|i: int, j: int|
        0 <= i < dealt.len() && 0 <= j < dealt.len() && i != j implies dealt[i] != dealt[j] by {
        assert(dealt[i] == full[full.len() - 1 - i]);
        assert(dealt[j] == full[full.len() - 1 - j]);
    }
    assert forall|x: usize| x < CATALOG_LEN implies #[trigger] dealt.contains(x) by {
        assert(full.contains(x));
        let k = choose|k: int| 0 <= k < full.len() && full[k] == x;
        assert(dealt[full.len() - 1 - k] == x);
    }
}

proof fn lemma_bag_prefix(dealt: Seq<usize>, bags: Seq<Seq<usize>>, j: int)
    requires
        1 <= j < bags.len(),
        dealt.len() == bags.len(),
        bags[0].len() == bags.len() - 1,
        forall|i: int|
            1 <= i < bags.len() ==> (#[trigger] bags[i - 1]).len() > 0 && dealt[i] == bags[i
                - 1].last() && bags[i] == bags[i - 1].drop_last(),
    ensures
        bags[j] == bags[0].subrange(0, bags[0].len() - j),
        dealt[j] == bags[0][bags[0].len() - j],
    decreases j,
{
    let b0 = bags[0];
    if j > 1 {
        lemma_bag_prefix(dealt, bags, j - 1);
    }
    assert(bags[j - 1] == b0.subrange(0, b0.len() - (j - 1))) by {
        if j == 1 {
            assert(b0.subrange(0, b0.len() as int) =~= b0);
        }
    }
    assert(bags[j] =~= b0.subrange(0, b0.len() - j));
}

/// Spawns from an empty bag deal every catalog shape exactly once before
/// any repeats. `dealt[i]` is the index the `i`-th spawn uses and `bags[i]`
/// the bag it leaves: the first spawn refills the bag, so that its bag and
/// its index together are a permutation of the catalog indices; each later
/// spawn takes the last index of the bag before it. Then the indices dealt
/// by as many spawns as the catalog holds are all distinct and cover it.
pub proof fn spawns_deal_every_shape_once(dealt: Seq<usize>, bags: Seq<Seq<usize>>)
    requires
        dealt.len() == CATALOG_LEN,
        bags.len() == CATALOG_LEN,
        bags[0].push(dealt[0]).to_multiset() == index_range(CATALOG_LEN as nat).to_multiset(),
        forall|i: int|
            1 <= i < CATALOG_LEN ==> (#[trigger] bags[i - 1]).len() > 0 && dealt[i] == bags[i
                - 1].last() && bags[i] == bags[i - 1].drop_last(),
    ensures
        dealt.no_duplicates(),
        forall|x: usize| x < CATALOG_LEN ==> #[trigger] dealt.contains(x),
{
    let b0 = bags[0];
    lemma_permutation_of_range(b0.push(dealt[0]), CATALOG_LEN as nat);
    assert(b0.len() == CATALOG_LEN - 1);
    assert forall|j: int| 1 <= j < CATALOG_LEN implies #[trigger] dealt[j] == b0[b0.len() - j] by {
        lemma_bag_prefix(dealt, bags, j);
    }
    assert(dealt =~= seq![dealt[0]] + b0.reverse());
    bag_deals_every_shape_once(dealt[0], b0);
}

/// The move one row down.
pub open spec fn down() -> PlayerMove {
    PlayerMove::Translate(0, 1)
}

/// The piece cannot take move `m`: it would leave `POSITION_BOUND` or run
/// into something.
pub open spec fn blocked(v: GameView, m: PlayerMove) -> bool {
    match v.piece {
        Some(p) => !p.can_apply(m) || collision_of(v.grid, p.moved(m).cells()) is Some,
        None => false,
    }
}

/// The state after trying move `m`: the piece moved, or nothing changed
/// where it is blocked or there is no piece.
pub open spec fn tried(v: GameView, m: PlayerMove) -> GameView {
    match v.piece {
        Some(p) => if blocked(v, m) {
            v
        } else {
            GameView { piece: Some(p.moved(m)), ..v }
        },
        None => v,
    }
}

/// The state after trying to move down `n` times.
pub open spec fn fallen(v: GameView, n: nat) -> GameView
    decreases n,
{
    if n == 0 {
        v
    } else {
        tried(fallen(v, (n - 1) as nat), down())
    }
}

/// The state after the piece lands: stamped onto the board, the full rows
/// it lies in cleared and scored, the piece gone.
pub open spec fn landed(v: GameView) -> GameView {
    match v.piece {
        Some(p) => {
            let placed = stamped(v.grid, p.cells(), p.color);
            let cleared = cleared_upto(placed, p.cells(), ROWS as int);
            GameView {
                grid: compacted(placed, cleared, COLUMNS as nat),
                piece: None,
                points: v.points + points_for(cleared.len()),
                ..v
            }
        },
        None => GameView { piece: None, ..v },
    }
}

/// What the board shows: the placed cells with the piece drawn over them.
pub open spec fn frame_of(v: GameView) -> Seq<Seq<usize>> {
    match v.piece {
        Some(p) => stamped(v.grid, p.cells(), p.color),
        None => v.grid,
    }
}

/// The game state as values.
pub struct GameView {
    pub grid: Seq<Seq<usize>>,
    pub piece: Option<PieceView>,
    pub bag: Seq<usize>,
    pub points: int,
}

/// The board, the falling piece, the shapes still to be dealt, and the score.
pub struct GameState {
    grid: Vec<Vec<usize>>,
    player: Option<Player>,
    shapes: Vec<Shape>,
    shape_order: Vec<usize>,
    pub points: usize,
}

impl View for GameState {
    type V = GameView;

    closed spec fn view(&self) -> GameView {
        GameView {
            grid: rows_of(self.grid@),
            piece: match self.player {
                Some(p) => Some(p@),
                None => None,
            },
            bag: self.shape_order@,
            points: self.points as int,
        }
    }
}

impl GameState {
    /// The catalog of shapes the game deals from.
    pub closed spec fn catalog(&self) -> Seq<Shape> {
        self.shapes@
    }

    /// The board is `ROWS` by `COLUMNS` with palette colors in its cells, the
    /// piece is within bounds with a color other than empty, and the bag holds
    /// distinct indices into the catalog.
    pub closed spec fn wf(&self) -> bool {
        &&& is_board(self@.grid)
        &&& forall|y: int, x: int|
            0 <= y < ROWS && 0 <= x < COLUMNS ==> #[trigger] self@.grid[y][x] < PALETTE_LEN
        &&& match self.player {
            Some(p) => p.wf() && 1 <= p@.color < PALETTE_LEN,
            None => true,
        }
        &&& self.shapes@.len() == CATALOG_LEN
        &&& forall|i: int|
            0 <= i < CATALOG_LEN ==> (#[trigger] self.shapes@[i]).wf()
                && self.shapes@[i].offsets().len() > 0
        &&& self.shape_order@.no_duplicates()
        &&& forall|i: int|
            0 <= i < self.shape_order@.len() ==> (#[trigger] self.shape_order@[i]) < CATALOG_LEN
    }

    /// A well-formed state holds a `ROWS` by `COLUMNS` board of palette
    /// colors, a catalog of `CATALOG_LEN` shapes within their bounds, and a
    /// bag of distinct catalog indices.
    pub proof fn lemma_wf(&self)
        requires
            self.wf(),
        ensures
            is_board(self@.grid),
            forall|y: int, x: int|
                0 <= y < ROWS && 0 <= x < COLUMNS ==> #[trigger] self@.grid[y][x] < PALETTE_LEN,
            self.catalog().len() == CATALOG_LEN,
            forall|i: int| 0 <= i < CATALOG_LEN ==> (#[trigger] self.catalog()[i]).wf(),
            self@.bag.no_duplicates(),
            forall|i: int| 0 <= i < self@.bag.len() ==> (#[trigger] self@.bag[i]) < CATALOG_LEN,
            match self@.piece {
                Some(p) => 1 <= p.color < PALETTE_LEN,
                None => true,
            },
    {
    }

    /// The move `m` can be applied to the piece, if there is one.
    pub open spec fn can_try(&self, m: PlayerMove) -> bool {
        match self@.piece {
            Some(v) => v.can_apply(m),
            None => true,
        }
    }

    /// What the board blocks for the piece where it stands.
    fn collision(&self) -> (r: Option<Collision>)
        requires
            self.wf(),
        ensures
            r == match self@.piece {
                Some(v) => collision_of(self@.grid, v.cells()),
                None => None,
            },
    {
        match &self.player {
            None => None,
            Some(p) => {
                let cells = p.extent();
                let ghost cv = p@.cells();
                let ghost g = self@.grid;
                let n = cells.len();
                let mut wall = false;
                let mut floor = false;
                let mut block = false;
                let mut i: usize = 0;
                while i < n
                    invariant
                        0 <= i <= n,
                        n == cells@.len(),
                        n == cv.len(),
                        self.wf(),
                        g == self@.grid,
                        forall|j: int|
                            0 <= j < n ==> (#[trigger] cells@[j]).0 as int == cv[j].0
                                && cells@[j].1 as int == cv[j].1,
                        wall <==> exists|j: int| 0 <= j < i && hits_wall(#[trigger] cv[j]),
                        floor <==> exists|j: int| 0 <= j < i && hits_floor(#[trigger] cv[j]),
                        block <==> exists|j: int| 0 <= j < i && hits_block(g, #[trigger] cv[j]),
                    decreases n - i,
                {
                    let (x, y) = cells[i];
                    let ghost c = cv[i as int];
                    if x < 0 || x >= COLUMNS as i32 {
                        wall = true;
                    }
                    if y >= ROWS as i32 {
                        floor = true;
                    }
                    if 0 <= x && x < COLUMNS as i32 && 0 <= y && y < ROWS as i32 {
                        assert(self.grid@[y as int]@ == g[y as int]);
                        if self.grid[y as usize][x as usize] != 0 {
                            block = true;
                        }
                    }
                    i = i + 1;
                    assert(hits_wall(c) ==> (exists|j: int| 0 <= j < i && hits_wall(#[trigger] cv[j])));
                    assert(hits_floor(c) ==> (exists|j: int| 0 <= j < i && hits_floor(#[trigger] cv[j])));
                    assert(hits_block(g, c) ==> (exists|j: int|
                        0 <= j < i && hits_block(g, #[trigger] cv[j])));
                }
                if wall {
                    Some(Collision::Wall)
                } else if floor {
                    Some(Collision::Floor)
                } else if block {
                    Some(Collision::Block)
                } else {
                    None
                }
            },
        }
    }

    /// An empty board with no piece, an empty bag and no points.
    pub fn new() -> (r: GameState)
        ensures
            r.wf(),
            r.catalog().len() == CATALOG_LEN,
            forall|i: int|
                0 <= i < CATALOG_LEN ==> (#[trigger] r.catalog()[i]).offsets() == catalog_shape(i).0
                    && r.catalog()[i].pivot() == catalog_shape(i).1,
            r@ == (GameView {
                grid: Seq::new(ROWS as nat, |y: int| empty_row(COLUMNS as nat)),
                piece: None,
                bag: seq![],
                points: 0,
            }),
    {
        let mut grid: Vec<Vec<usize>> = Vec::new();
        let mut y: usize = 0;
        while y < ROWS
            invariant
                0 <= y <= ROWS,
                grid@.len() == y,
                rows_of(grid@) == Seq::new(y as nat, |i: int| empty_row(COLUMNS as nat)),
            decreases ROWS - y,
        {
            let row = new_empty_row(COLUMNS);
            let ghost prev = grid@;
            grid.push(row);
            assert(grid@ == prev.push(row));
            assert forall|k: int| 0 <= k <= y implies #[trigger] rows_of(grid@)[k] == empty_row(
                COLUMNS as nat,
            ) by {
                if k < y {
                    assert(rows_of(prev)[k] == empty_row(COLUMNS as nat));
                }
            }
            y = y + 1;
            assert(rows_of(grid@) =~= Seq::new(y as nat, |i: int| empty_row(COLUMNS as nat)));
        }
        let shapes = Shape::parse_shapes("");
        let r = GameState { grid, player: None, shapes, shape_order: Vec::new(), points: 0 };
        assert(r@.bag =~= seq![]);
        r
    }

    /// Adds `100 * 2^rows_cleared` points.
    fn give_points(&mut self, rows_cleared: usize)
        requires
            1 <= rows_cleared <= ROWS,
            old(self)@.points + max_points_per_piece() <= usize::MAX,
        ensures
            final(self)@ == (GameView {
                points: old(self)@.points + points_for(rows_cleared as nat),
                ..old(self)@
            }),
            final(self).wf() == old(self).wf(),
            final(self).catalog() == old(self).catalog(),
    {
        let mut factor: usize = 1;
        let mut i: usize = 0;
        proof {
            lemma_pow2_monotone(rows_cleared as nat, ROWS as nat);
            lemma_pow2_rows();
        }
        while i < rows_cleared
            invariant
                0 <= i <= rows_cleared <= ROWS,
                factor == pow2(i as nat),
                pow2(rows_cleared as nat) <= pow2(ROWS as nat),
                pow2(ROWS as nat) == 1048576,
            decreases rows_cleared - i,
        {
            proof {
                lemma_pow2_monotone((i + 1) as nat, rows_cleared as nat);
            }
            factor = factor * 2;
            i = i + 1;
        }
        self.points = self.points + 100 * factor;
    }

    /// Stamps the piece's cells onto the board in its color, takes out the
    /// full rows it lies in and moves the rows above them down, adds the
    /// points for the rows cleared, and removes the piece.
    pub fn kill_player(&mut self)
        requires
            old(self).wf(),
            old(self)@.points + max_points_per_piece() <= usize::MAX,
        ensures
            final(self).wf(),
            final(self).catalog() == old(self).catalog(),
            final(self)@ == landed(old(self)@),
            final(self)@.piece is None,
            final(self)@.bag == old(self)@.bag,
            match old(self)@.piece {
                None => final(self)@.grid == old(self)@.grid && final(self)@.points == old(
                    self,
                )@.points,
                Some(v) => {
                    let placed = stamped(old(self)@.grid, v.cells(), v.color);
                    let cleared = cleared_upto(placed, v.cells(), ROWS as int);
                    &&& final(self)@.grid == compacted(placed, cleared, COLUMNS as nat)
                    &&& final(self)@.points == old(self)@.points + points_for(cleared.len())
                },
            },
    {
        match &self.player {
            None => {},
            Some(p) => {
                let cells = p.extent();
                let color = p.color();
                let ghost v = p@;
                let ghost g0 = self@.grid;
                stamp(&mut self.grid, &cells, color);
                let ghost placed = self@.grid;
                let cleared = find_cleared_rows(&self.grid, &cells);
                proof {
                    lemma_cleared_upto(placed, v.cells(), ROWS as int);
                    assert forall|y: int| 0 <= y < ROWS implies good_row(#[trigger] placed[y]) by {
                        assert forall|x: int| 0 <= x < COLUMNS implies #[trigger] placed[y][x]
                            < PALETTE_LEN by {
                            assert(g0[y][x] < PALETTE_LEN);
                        }
                    }
                }
                proof {
                    let c = cleared_upto(placed, v.cells(), ROWS as int);
                    assert(g0.len() == ROWS);
                    assert(placed.len() == ROWS);
                    assert(self.grid@.len() == ROWS);
                    assert(as_ints(cleared@) == c);
                    assert forall|k: int| 0 <= k < cleared@.len() implies #[trigger] cleared@[k]
                        < self.grid@.len() by {
                        assert(as_ints(cleared@)[k] == c[k]);
                    }
                }
                if cleared.len() > 0 {
                    self.give_points(cleared.len());
                }
                fill_cleared_rows(&mut self.grid, &cleared, COLUMNS);
                proof {
                    let c = cleared_upto(placed, v.cells(), ROWS as int);
                    assert(as_ints(cleared@) == c);
                    lemma_kept_len(placed, c, 0, ROWS as int);
                    lemma_kept_good(placed, c, 0, ROWS as int);
                    let fin = compacted(placed, c, COLUMNS as nat);
                    let kept = kept_between(placed, c, 0, ROWS as int);
                    assert forall|y: int| 0 <= y < ROWS implies good_row(#[trigger] fin[y]) by {
                        let k = ROWS - kept.len();
                        if y >= k {
                            assert(fin[y] == kept[y - k]);
                        }
                    }
                    assert forall|y: int, x: int|
                        0 <= y < ROWS && 0 <= x < COLUMNS implies #[trigger] self@.grid[y][x]
                        < PALETTE_LEN by {
                        assert(good_row(fin[y]));
                    }
                }
            },
        }
        self.player = None;
    }

    /// Fills the bag with every catalog index, in random order.
    fn fill_shape_order(&mut self)
        requires
            old(self).wf(),
        ensures
            final(self).wf(),
            final(self).catalog() == old(self).catalog(),
            final(self)@.bag.to_multiset() == index_range(CATALOG_LEN as nat).to_multiset(),
            final(self)@ == (GameView { bag: final(self)@.bag, ..old(self)@ }),
    {
        let mut nums: Vec<usize> = Vec::new();
        let n = self.shapes.len();
        let mut i: usize = 0;
        while i < n
            invariant
                0 <= i <= n,
                n == CATALOG_LEN,
                nums@ == index_range(i as nat),
            decreases n - i,
        {
            nums.push(i);
            i = i + 1;
            assert(nums@ =~= index_range(i as nat));
        }
        self.shape_order = shuffled(nums);
        proof {
            lemma_permutation_of_range(self.shape_order@, CATALOG_LEN as nat);
        }
    }

    /// Takes the next index from the back of the bag, refilling the bag first
    /// when it is empty.
    pub fn next_shape_index(&mut self) -> (r: usize)
        requires
            old(self).wf(),
        ensures
            final(self).wf(),
            final(self).catalog() == old(self).catalog(),
            r < CATALOG_LEN,
            final(self)@ == (GameView { bag: final(self)@.bag, ..old(self)@ }),
            old(self)@.bag.len() > 0 ==> r == old(self)@.bag.last() && final(self)@.bag == old(
                self,
            )@.bag.drop_last(),
            old(self)@.bag.len() == 0 ==> final(self)@.bag.push(r).to_multiset() == index_range(
                CATALOG_LEN as nat,
            ).to_multiset(),
    {
        if self.shape_order.len() == 0 {
            self.fill_shape_order();
            proof {
                lemma_permutation_of_range(self.shape_order@, CATALOG_LEN as nat);
            }
        }
        let ghost full = self.shape_order@;
        let last = self.shape_order.len() - 1;
        let r = self.shape_order[last];
        self.shape_order.pop();
        proof {
            assert(full.drop_last().push(r) =~= full);
            assert(full.drop_last().no_duplicates());
        }
        r
    }

    /// Places a new piece of catalog shape `shape_index` in `color`, its
    /// pivot at the middle column of the top row.
    pub fn spawn_shape(&mut self, shape_index: usize, color: usize)
        requires
            old(self).wf(),
            shape_index < CATALOG_LEN,
            1 <= color < PALETTE_LEN,
        ensures
            final(self).wf(),
            final(self).catalog() == old(self).catalog(),
            final(self)@ == (GameView {
                piece: Some(spawned(old(self).catalog()[shape_index as int], color)),
                ..old(self)@
            }),
    {
        let shape = self.shapes[shape_index].duplicate();
        let (px, _py) = shape.get_offset();
        let x = half_toward_zero_exec(COLUMNS as i32 - px);
        self.player = Some(Player::spawn(x, 0, shape, color));
    }

    /// Places a new piece: the next shape from the bag, in a random color
    /// other than empty, its pivot at the middle column of the top row.
    pub fn spawn(&mut self)
        requires
            old(self).wf(),
        ensures
            final(self).wf(),
            final(self).catalog() == old(self).catalog(),
            exists|k: usize, c: usize|
                {
                    &&& k < CATALOG_LEN
                    &&& 1 <= c < PALETTE_LEN
                    &&& final(self)@ == (GameView {
                        piece: Some(#[trigger] spawned(old(self).catalog()[k as int], c)),
                        bag: final(self)@.bag,
                        ..old(self)@
                    })
                    &&& old(self)@.bag.len() > 0 ==> k == old(self)@.bag.last() && final(self)@.bag
                        == old(self)@.bag.drop_last()
                    &&& old(self)@.bag.len() == 0 ==> final(self)@.bag.push(k).to_multiset()
                        == index_range(CATALOG_LEN as nat).to_multiset()
                },
    {
        let shape_index = self.next_shape_index();
        let color = random_in(1, PALETTE_LEN);
        self.spawn_shape(shape_index, color);
    }

    /// Moves the piece one row down; where it cannot go down, it lands.
    /// Returns whether it landed. Without a piece nothing happens.
    pub fn fall(&mut self) -> (r: bool)
        requires
            old(self).wf(),
            old(self)@.points + max_points_per_piece() <= usize::MAX,
        ensures
            final(self).wf(),
            final(self).catalog() == old(self).catalog(),
            r == blocked(old(self)@, down()),
            final(self)@ == if r {
                landed(old(self)@)
            } else {
                tried(old(self)@, down())
            },
    {
        if self.try_move(PlayerMove::Translate(0, 1)).is_some() {
            self.kill_player();
            true
        } else {
            false
        }
    }

    /// Moves the piece down as far as `ROWS` rows can take it, then lands it.
    pub fn drop_piece(&mut self)
        requires
            old(self).wf(),
            old(self)@.points + max_points_per_piece() <= usize::MAX,
        ensures
            final(self).wf(),
            final(self).catalog() == old(self).catalog(),
            final(self)@ == landed(fallen(old(self)@, ROWS as nat)),
    {
        let m = PlayerMove::Translate(0, 1);
        let mut i: usize = 0;
        while i < ROWS
            invariant
                0 <= i <= ROWS,
                self.wf(),
                self.catalog() == old(self).catalog(),
                self@ == fallen(old(self)@, i as nat),
                self@.points == old(self)@.points,
                m == down(),
            decreases ROWS - i,
        {
            self.try_move(m);
            i = i + 1;
            assert(fallen(old(self)@, i as nat) == tried(fallen(old(self)@, (i - 1) as nat), down()));
        }
        self.kill_player();
    }

    /// Applies `m` to the piece, if there is one, without looking at the board.
    fn do_move(&mut self, m: PlayerMove)
        requires
            old(self).wf(),
            old(self).can_try(m),
        ensures
            final(self).wf(),
            final(self).catalog() == old(self).catalog(),
            final(self)@ == (GameView {
                piece: match old(self)@.piece {
                    Some(v) => Some(v.moved(m)),
                    None => None,
                },
                ..old(self)@
            }),
    {
        match &mut self.player {
            Some(p) => p.apply(m),
            None => {},
        }
    }

    /// Applies `m` to the piece; if the piece then runs into a wall, the
    /// floor or a placed block, the move is undone and the collision returned.
    /// Without a piece nothing happens.
    pub fn try_move(&mut self, m: PlayerMove) -> (r: Option<Collision>)
        requires
            old(self).wf(),
        ensures
            final(self).wf(),
            final(self).catalog() == old(self).catalog(),
            match old(self)@.piece {
                None => r is None && final(self)@ == old(self)@,
                Some(v) => {
                    &&& r == if v.can_apply(m) {
                        collision_of(old(self)@.grid, v.moved(m).cells())
                    } else {
                        Some(Collision::Wall)
                    }
                    &&& r is Some ==> final(self)@ == old(self)@
                    &&& r is None ==> final(self)@ == (GameView {
                        piece: Some(v.moved(m)),
                        ..old(self)@
                    })
                },
            },
    {
        if !self.movable(m) {
            return Some(Collision::Wall);
        }
        let n = m.normalized();
        proof {
            if let Some(v) = old(self)@.piece {
                if let PlayerMove::Rotate(a) = m {
                    lemma_turns_modulo_four(v, a as int);
                }
            }
        }
        self.do_move(n);
        let collision = self.collision();
        if collision.is_some() {
            let back = n.opposite();
            proof {
                if let Some(v) = old(self)@.piece {
                    lemma_opposite_undoes(v, n);
                }
            }
            self.do_move(back);
        }
        collision
    }

    /// The board with the piece drawn over it in its color, where it lies on
    /// the board.
    pub fn overlaid(&self) -> (r: Vec<Vec<usize>>)
        requires
            self.wf(),
        ensures
            rows_of(r@) == frame_of(self@),
            is_board(rows_of(r@)),
            forall|y: int, x: int|
                0 <= y < ROWS && 0 <= x < COLUMNS ==> #[trigger] rows_of(r@)[y][x] < PALETTE_LEN,
    {
        let mut grid: Vec<Vec<usize>> = Vec::new();
        let mut y: usize = 0;
        while y < ROWS
            invariant
                0 <= y <= ROWS,
                self.wf(),
                grid@.len() == y,
                rows_of(grid@) == self@.grid.subrange(0, y as int),
            decreases ROWS - y,
        {
            let row = copy_row(&self.grid[y]);
            let ghost prev = grid@;
            grid.push(row);
            assert(grid@ == prev.push(row));
            y = y + 1;
            assert(rows_of(grid@) =~= self@.grid.subrange(0, y as int));
        }
        assert(rows_of(grid@) =~= self@.grid);
        match &self.player {
            None => {},
            Some(p) => {
                let cells = p.extent();
                stamp(&mut grid, &cells, p.color());
            },
        }
        grid
    }

    /// Whether the piece, if there is one, can take `m` within
    /// `POSITION_BOUND`.
    fn movable(&self, m: PlayerMove) -> (r: bool)
        requires
            self.wf(),
        ensures
            r == self.can_try(m),
    {
        match &self.player {
            None => true,
            Some(p) => p.can_apply(m),
        }
    }

    /// Whether `kill_player` may be called: the points it can add still fit.
    pub fn has_room_for_points(&self) -> (r: bool)
        ensures
            r == (self@.points + max_points_per_piece() <= usize::MAX),
    {
        proof {
            lemma_pow2_rows();
        }
        self.points <= usize::MAX - 104857600
    }

    /// Whether a piece is falling.
    pub fn alive(&self) -> (r: bool)
        ensures
            r == self@.piece is Some,
    {
        match self.player {
            Some(_) => true,
            None => false,
        }
    }
}

} // verus!
