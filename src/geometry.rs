//! Shapes, the falling piece, and the moves that can be applied to it.

use vstd::prelude::*;

verus! {

/// Largest magnitude, in half-cell units, of a shape's offsets and pivot.
pub const SHAPE_BOUND: i32 = 64;

/// Largest magnitude of a piece's position on either axis.
pub const POSITION_BOUND: i32 = 2_000_000_000;

/// The point `p` turned by `angle` quarter turns: `(x, y)` goes to `(-y, x)`
/// once for each quarter turn, the angle taken modulo 4.
pub open spec fn rotated(p: (int, int), angle: int) -> (int, int) {
    let r = angle % 4;
    if r == 1 {
        (-p.1, p.0)
    } else if r == 2 {
        (-p.0, -p.1)
    } else if r == 3 {
        (p.1, -p.0)
    } else {
        p
    }
}

/// Half of `s`, rounded toward zero.
pub open spec fn half_toward_zero(s: int) -> int {
    if s >= 0 {
        s / 2
    } else {
        -((-s) / 2)
    }
}

/// The board cell covered by an offset `p` of a shape pivoted at `pivot`,
/// both in half-cell units.
pub open spec fn cell_of(p: (int, int), pivot: (int, int)) -> (int, int) {
    (half_toward_zero(p.0 + pivot.0), half_toward_zero(p.1 + pivot.1))
}

pub open spec fn in_shape_bound(v: int) -> bool {
    -SHAPE_BOUND <= v <= SHAPE_BOUND
}

pub open spec fn in_position_bound(v: int) -> bool {
    -POSITION_BOUND <= v <= POSITION_BOUND
}

/// The cells as integer pairs.
pub open spec fn int_cells(s: Seq<(i32, i32)>) -> Seq<(int, int)> {
    s.map_values(|p: (i32, i32)| (p.0 as int, p.1 as int))
}

/// Every offset of `s` turned by `angle` quarter turns.
pub open spec fn rotated_all(s: Seq<(int, int)>, angle: int) -> Seq<(int, int)> {
    s.map_values(|p: (int, int)| rotated(p, angle))
}

/// A geometric pattern of cells: offsets around a pivot, in half-cell units.
pub struct Shape {
    offsets: Vec<(i32, i32)>,
    pivot: (i32, i32),
}

impl Shape {
    /// The offsets, in half-cell units.
    pub closed spec fn offsets(&self) -> Seq<(int, int)> {
        self.offsets@.map_values(|p: (i32, i32)| (p.0 as int, p.1 as int))
    }

    /// The pivot, in half-cell units.
    pub closed spec fn pivot(&self) -> (int, int) {
        (self.pivot.0 as int, self.pivot.1 as int)
    }

    /// Every coordinate lies within `SHAPE_BOUND`.
    pub open spec fn wf(&self) -> bool {
        &&& in_shape_bound(self.pivot().0)
        &&& in_shape_bound(self.pivot().1)
        &&& forall|i: int|
            0 <= i < self.offsets().len() ==> in_shape_bound(#[trigger] self.offsets()[i].0)
                && in_shape_bound(self.offsets()[i].1)
    }

    /// The cells of the shape relative to its placement point.
    pub open spec fn cells(&self) -> Seq<(int, int)> {
        self.offsets().map_values(|p: (int, int)| cell_of(p, self.pivot()))
    }

    /// A shape from its offsets and pivot, in half-cell units.
    pub fn new(offsets: Vec<(i32, i32)>, pivot: (i32, i32)) -> (r: Shape)
        requires
            in_shape_bound(pivot.0 as int),
            in_shape_bound(pivot.1 as int),
            forall|i: int|
                0 <= i < offsets@.len() ==> in_shape_bound(#[trigger] offsets@[i].0 as int)
                    && in_shape_bound(offsets@[i].1 as int),
        ensures
            r.wf(),
            r.offsets() == offsets@.map_values(|p: (i32, i32)| (p.0 as int, p.1 as int)),
            r.pivot() == (pivot.0 as int, pivot.1 as int),
    {
        Shape { offsets, pivot }
    }

    /// An equal shape with storage of its own.
    pub fn duplicate(&self) -> (r: Shape)
        ensures
            r.offsets() == self.offsets(),
            r.pivot() == self.pivot(),
    {
        let mut offsets: Vec<(i32, i32)> = Vec::new();
        let n = self.offsets.len();
        let mut i: usize = 0;
        while i < n
            invariant
                0 <= i <= n,
                n == self.offsets@.len(),
                offsets@ == self.offsets@.subrange(0, i as int),
            decreases n - i,
        {
            offsets.push(self.offsets[i]);
            i = i + 1;
            assert(offsets@ =~= self.offsets@.subrange(0, i as int));
        }
        assert(offsets@ =~= self.offsets@);
        Shape { offsets, pivot: self.pivot }
    }

    /// The pivot, in half-cell units.
    pub fn get_offset(&self) -> (r: (i32, i32))
        ensures
            (r.0 as int, r.1 as int) == self.pivot(),
    {
        self.pivot
    }

    /// Turns every offset by `angle` quarter turns; the pivot stays.
    pub fn rotate(&mut self, angle: i32)
        requires
            old(self).wf(),
        ensures
            final(self).wf(),
            final(self).offsets() == rotated_all(old(self).offsets(), angle as int),
            final(self).pivot() == old(self).pivot(),
    {
        // 2^31 is a multiple of 4, so the shift keeps the residue.
        let shifted: u64 = (angle as i64 + 2147483648i64) as u64;
        let r: u64 = shifted % 4;
        assert(r as int == (angle as int) % 4) by {
            assert((angle as int + 2147483648) % 4 == (angle as int) % 4);
        }
        let ghost old_offsets = self.offsets();
        let n = self.offsets.len();
        let mut i: usize = 0;
        while i < n
            invariant
                0 <= i <= n,
                n == self.offsets@.len(),
                n == old_offsets.len(),
                self.pivot == old(self).pivot,
                r as int == (angle as int) % 4,
                old_offsets == old(self).offsets(),
                old(self).wf(),
                forall|j: int|
                    0 <= j < i ==> ((#[trigger] self.offsets@[j]).0 as int, self.offsets@[j].1 as int)
                        == rotated(old_offsets[j], angle as int),
                forall|j: int| i <= j < n ==> (#[trigger] self.offsets@[j]) == old(self).offsets@[j],
            decreases n - i,
        {
            let (x, y) = self.offsets[i];
            assert(old_offsets[i as int] == (x as int, y as int));
            assert(in_shape_bound(x as int) && in_shape_bound(y as int));
            let p: (i32, i32) = if r == 1 {
                (-y, x)
            } else if r == 2 {
                (-x, -y)
            } else if r == 3 {
                (y, -x)
            } else {
                (x, y)
            };
            self.offsets.set(i, p);
            i = i + 1;
        }
        assert(self.offsets() =~= rotated_all(old_offsets, angle as int));
    }

    /// The cells of the shape relative to its placement point: each offset
    /// plus the pivot, halved toward zero.
    pub fn extent(&self) -> (r: Vec<(i32, i32)>)
        requires
            self.wf(),
        ensures
            r@.len() == self.cells().len(),
            forall|i: int|
                0 <= i < r@.len() ==> (#[trigger] r@[i]).0 as int == self.cells()[i].0
                    && r@[i].1 as int == self.cells()[i].1,
    {
        let mut r: Vec<(i32, i32)> = Vec::new();
        let n = self.offsets.len();
        let mut i: usize = 0;
        while i < n
            invariant
                0 <= i <= n,
                n == self.offsets@.len(),
                self.wf(),
                r@.len() == i,
                forall|j: int|
                    0 <= j < i ==> (#[trigger] r@[j]).0 as int == self.cells()[j].0 && r@[j].1 as int
                        == self.cells()[j].1,
            decreases n - i,
        {
            let (x, y) = self.offsets[i];
            assert(self.offsets()[i as int] == (x as int, y as int));
            r.push((half_toward_zero_exec(x + self.pivot.0), half_toward_zero_exec(y + self.pivot.1)));
            i = i + 1;
        }
        r
    }
}

pub(crate) fn half_toward_zero_exec(s: i32) -> (r: i32)
    requires
        -2 * SHAPE_BOUND <= s <= 2 * SHAPE_BOUND,
    ensures
        r as int == half_toward_zero(s as int),
        -SHAPE_BOUND <= r <= SHAPE_BOUND,
{
    if s >= 0 {
        s / 2
    } else {
        -((-s) / 2)
    }
}

/// A move of the falling piece: a translation, or a number of quarter turns.
#[derive(Clone, Copy, Debug, PartialEq, Eq, Structural)]
pub enum PlayerMove {
    Translate(i32, i32),
    Rotate(i32),
}

impl PlayerMove {
    /// The amounts can be negated without overflow.
    pub open spec fn negatable(&self) -> bool {
        match *self {
            PlayerMove::Translate(dx, dy) => dx != i32::MIN && dy != i32::MIN,
            PlayerMove::Rotate(angle) => angle != i32::MIN,
        }
    }

    /// The same move, with a turn counted as 0 to 3 quarter turns.
    pub fn normalized(&self) -> (r: PlayerMove)
        ensures
            r is Rotate ==> r.negatable(),
            r == (match *self {
                PlayerMove::Translate(dx, dy) => *self,
                PlayerMove::Rotate(angle) => PlayerMove::Rotate(((angle as int) % 4) as i32),
            }),
    {
        match self {
            PlayerMove::Translate(_, _) => *self,
            PlayerMove::Rotate(angle) => {
                // 2^31 is a multiple of 4, so the shift keeps the residue.
                let shifted: u64 = (*angle as i64 + 2147483648i64) as u64;
                let r: u64 = shifted % 4;
                assert(r as int == (*angle as int) % 4) by {
                    assert((*angle as int + 2147483648) % 4 == (*angle as int) % 4);
                }
                PlayerMove::Rotate(r as i32)
            },
        }
    }

    /// The move in the opposite direction.
    pub fn opposite(&self) -> (r: PlayerMove)
        requires
            self.negatable(),
        ensures
            r == (match *self {
                PlayerMove::Translate(dx, dy) => PlayerMove::Translate((-dx) as i32, (-dy) as i32),
                PlayerMove::Rotate(angle) => PlayerMove::Rotate((-angle) as i32),
            }),
    {
        match self {
            PlayerMove::Rotate(angle) => PlayerMove::Rotate(-*angle),
            PlayerMove::Translate(dx, dy) => PlayerMove::Translate(-*dx, -*dy),
        }
    }
}

/// What a piece ran into.
#[derive(Clone, Copy, Debug, PartialEq, Eq, Structural)]
pub enum Collision {
    Wall,
    Floor,
    Block,
}

/// The falling piece, as values: position, shape and palette color.
pub struct PieceView {
    pub x: int,
    pub y: int,
    pub offsets: Seq<(int, int)>,
    pub pivot: (int, int),
    pub color: usize,
}

impl PieceView {
    /// The board cells the piece covers, one per offset, in order.
    pub open spec fn cells(self) -> Seq<(int, int)> {
        self.offsets.map_values(
            |p: (int, int)| (cell_of(p, self.pivot).0 + self.x, cell_of(p, self.pivot).1 + self.y),
        )
    }

    /// The move `m` keeps the piece within `POSITION_BOUND`; a turn always
    /// can be made.
    pub open spec fn can_apply(self, m: PlayerMove) -> bool {
        match m {
            PlayerMove::Translate(dx, dy) => dx != i32::MIN && dy != i32::MIN && in_position_bound(
                self.x + dx,
            ) && in_position_bound(self.y + dy),
            PlayerMove::Rotate(_) => true,
        }
    }

    /// The piece after `m`: moved by its amounts, or turned in place.
    pub open spec fn moved(self, m: PlayerMove) -> PieceView {
        match m {
            PlayerMove::Translate(dx, dy) => PieceView { x: self.x + dx, y: self.y + dy, ..self },
            PlayerMove::Rotate(angle) => PieceView {
                offsets: rotated_all(self.offsets, angle as int),
                ..self
            },
        }
    }
}

/// The falling piece: a shape placed at a position on the board, with a color.
pub struct Player {
    x: i32,
    y: i32,
    shape: Shape,
    color: usize,
}

impl View for Player {
    type V = PieceView;

    closed spec fn view(&self) -> PieceView {
        PieceView {
            x: self.x as int,
            y: self.y as int,
            offsets: self.shape.offsets(),
            pivot: self.shape.pivot(),
            color: self.color,
        }
    }
}

impl Player {
    pub closed spec fn shape_wf(&self) -> bool {
        self.shape.wf()
    }

    /// The shape is within its bounds and the position within `POSITION_BOUND`.
    pub open spec fn wf(&self) -> bool {
        &&& self.shape_wf()
        &&& in_position_bound(self@.x)
        &&& in_position_bound(self@.y)
    }

    /// A piece of `shape` at `(x, y)` with palette color `color`.
    pub fn spawn(x: i32, y: i32, shape: Shape, color: usize) -> (r: Player)
        requires
            shape.wf(),
            in_position_bound(x as int),
            in_position_bound(y as int),
        ensures
            r.wf(),
            r@ == (PieceView {
                x: x as int,
                y: y as int,
                offsets: shape.offsets(),
                pivot: shape.pivot(),
                color,
            }),
    {
        Player { x, y, shape, color }
    }

    /// The palette color of the piece.
    pub fn color(&self) -> (r: usize)
        ensures
            r == self@.color,
    {
        self.color
    }

    /// Turns the piece's shape by `angle` quarter turns.
    pub fn rotate(&mut self, angle: i32)
        requires
            old(self).wf(),
        ensures
            final(self).wf(),
            final(self)@ == old(self)@.moved(PlayerMove::Rotate(angle)),
    {
        self.shape.rotate(angle);
    }

    /// Moves the piece by `dx` columns and `dy` rows.
    pub fn translate(&mut self, dx: i32, dy: i32)
        requires
            old(self).wf(),
            in_position_bound(old(self)@.x + dx),
            in_position_bound(old(self)@.y + dy),
        ensures
            final(self).wf(),
            final(self)@ == old(self)@.moved(PlayerMove::Translate(dx, dy)),
    {
        self.x = self.x + dx;
        self.y = self.y + dy;
    }

    /// Applies `m` to the piece.
    pub fn apply(&mut self, m: PlayerMove)
        requires
            old(self).wf(),
            old(self)@.can_apply(m),
        ensures
            final(self).wf(),
            final(self)@ == old(self)@.moved(m),
    {
        match m {
            PlayerMove::Translate(dx, dy) => self.translate(dx, dy),
            PlayerMove::Rotate(angle) => self.rotate(angle),
        }
    }

    /// Whether `m` keeps the piece within `POSITION_BOUND`.
    pub fn can_apply(&self, m: PlayerMove) -> (r: bool)
        requires
            self.wf(),
        ensures
            r == self@.can_apply(m),
    {
        match m {
            PlayerMove::Translate(dx, dy) => {
                let bound = POSITION_BOUND as i64;
                let nx = self.x as i64 + dx as i64;
                let ny = self.y as i64 + dy as i64;
                dx != i32::MIN && dy != i32::MIN && -bound <= nx && nx <= bound && -bound <= ny
                    && ny <= bound
            },
            PlayerMove::Rotate(_) => true,
        }
    }

    /// The board cells the piece covers.
    pub fn extent(&self) -> (r: Vec<(i32, i32)>)
        requires
            self.wf(),
        ensures
            int_cells(r@) == self@.cells(),
            r@.len() == self@.cells().len(),
            forall|i: int|
                0 <= i < r@.len() ==> (#[trigger] r@[i]).0 as int == self@.cells()[i].0
                    && r@[i].1 as int == self@.cells()[i].1,
    {
        let cells = self.shape.extent();
        let mut r: Vec<(i32, i32)> = Vec::new();
        let n = cells.len();
        let mut i: usize = 0;
        while i < n
            invariant
                0 <= i <= n,
                n == cells@.len(),
                n == self@.cells().len(),
                self.wf(),
                forall|j: int|
                    0 <= j < n ==> (#[trigger] cells@[j]).0 as int == self.shape.cells()[j].0
                        && cells@[j].1 as int == self.shape.cells()[j].1,
                r@.len() == i,
                forall|j: int|
                    0 <= j < i ==> (#[trigger] r@[j]).0 as int == self@.cells()[j].0 && r@[j].1 as int
                        == self@.cells()[j].1,
            decreases n - i,
        {
            let (cx, cy) = cells[i];
            assert(-SHAPE_BOUND <= cx <= SHAPE_BOUND && -SHAPE_BOUND <= cy <= SHAPE_BOUND) by {
                lemma_cell_bounded(self.shape.offsets()[i as int], self.shape.pivot());
            }
            r.push((cx + self.x, cy + self.y));
            i = i + 1;
        }
        assert(int_cells(r@) =~= self@.cells());
        r
    }
}

proof fn lemma_cell_bounded(p: (int, int), pivot: (int, int))
    requires
        in_shape_bound(p.0),
        in_shape_bound(p.1),
        in_shape_bound(pivot.0),
        in_shape_bound(pivot.1),
    ensures
        in_shape_bound(cell_of(p, pivot).0),
        in_shape_bound(cell_of(p, pivot).1),
{
}

/// Offsets and pivot of shape `i` of the catalog, in half-cell units.
pub open spec fn catalog_shape(i: int) -> (Seq<(int, int)>, (int, int)) {
    if i == 0 {
        (seq![(-2, 0), (0, 0), (2, 0), (2, -2)], (2, 2))
    } else if i == 1 {
        (seq![(-2, 0), (0, 0), (2, 0)], (2, 0))
    } else if i == 2 {
        (seq![(-2, -2), (0, -2), (2, -2), (-2, 0), (2, 0), (-2, 2), (2, 2)], (2, 2))
    } else if i == 3 {
        (seq![(-2, -4), (0, -4), (2, -4), (-2, -2), (-2, 0), (0, 0), (2, 0), (2, 2), (-2, 4), (0, 4), (2, 4)], (2, 4))
    } else if i == 4 {
        (seq![(-2, 0), (0, 0), (2, 0), (-2, 2)], (2, 0))
    } else if i == 5 {
        (seq![(-2, 0), (0, 0), (2, 0), (2, 2)], (2, 0))
    } else if i == 6 {
        (seq![(-2, 0), (0, 0), (0, 2), (2, 0)], (2, 0))
    } else if i == 7 {
        (seq![(-2, 0), (0, 0), (0, 2), (2, 2)], (2, 0))
    } else if i == 8 {
        (seq![(-2, 0), (0, 0), (0, -2), (2, -2)], (2, 2))
    } else if i == 9 {
        (seq![(-2, 0), (0, 0), (2, 0), (4, 0)], (2, 0))
    } else if i == 10 {
        (seq![(-1, -1), (1, -1), (-1, 1), (1, 1)], (1, 1))
    } else if i == 11 {
        (seq![(-2, -2), (0, -2), (2, -2), (0, 0), (0, 2)], (2, 2))
    } else if i == 12 {
        (seq![(-2, 0), (0, 0), (2, 0), (-2, 2)], (2, 0))
    } else if i == 13 {
        (seq![(-2, 0), (0, 0), (2, 0), (2, 2)], (2, 0))
    } else if i == 14 {
        (seq![(-2, 0), (0, 0), (0, 2), (2, 0)], (2, 0))
    } else if i == 15 {
        (seq![(-2, 0), (0, 0), (0, 2), (2, 2)], (2, 0))
    } else if i == 16 {
        (seq![(-2, 0), (0, 0), (0, -2), (2, -2)], (2, 2))
    } else if i == 17 {
        (seq![(-2, 0), (0, 0), (2, 0), (4, 0)], (2, 0))
    } else if i == 18 {
        (seq![(-1, -1), (1, -1), (-1, 1), (1, 1)], (1, 1))
    } else if i == 19 {
        (seq![(-2, -2), (0, -2), (2, -2), (0, 0), (0, 2)], (2, 2))
    } else if i == 20 {
        (seq![(-1, -1), (1, -1), (-1, 1), (1, 1), (3, 1)], (1, 1))
    } else {
        (seq![(-1, -1), (1, -1), (-1, 1), (1, 1), (3, -1)], (1, 1))
    }
}

/// How many shapes the catalog holds.
pub const CATALOG_LEN: usize = 22;

impl Shape {
    /// The catalog of shapes the game draws from. The text is not read: the
    /// catalog is fixed.
    pub fn parse_shapes(_text: &str) -> (r: Vec<Shape>)
        ensures
            r@.len() == CATALOG_LEN,
            forall|i: int| 0 <= i < r@.len() ==> (#[trigger] r@[i]).wf() && r@[i].offsets().len() > 0,
            forall|i: int|
                0 <= i < r@.len() ==> (#[trigger] r@[i]).offsets() == catalog_shape(i).0 && r@[
                    i
                ].pivot() == catalog_shape(i).1,
    {
        let mut shapes: Vec<Shape> = Vec::new();
        shapes.push(Shape::new(vec![(-2, 0), (0, 0), (2, 0), (2, -2)], (2, 2)));
        assert(shapes@[0].offsets() =~= catalog_shape(0).0);
        shapes.push(Shape::new(vec![(-2, 0), (0, 0), (2, 0)], (2, 0)));
        assert(shapes@[1].offsets() =~= catalog_shape(1).0);
        shapes.push(Shape::new(vec![(-2, -2), (0, -2), (2, -2), (-2, 0), (2, 0), (-2, 2), (2, 2)], (2, 2)));
        assert(shapes@[2].offsets() =~= catalog_shape(2).0);
        shapes.push(Shape::new(vec![(-2, -4), (0, -4), (2, -4), (-2, -2), (-2, 0), (0, 0), (2, 0), (2, 2), (-2, 4), (0, 4), (2, 4)], (2, 4)));
        assert(shapes@[3].offsets() =~= catalog_shape(3).0);
        shapes.push(Shape::new(vec![(-2, 0), (0, 0), (2, 0), (-2, 2)], (2, 0)));
        assert(shapes@[4].offsets() =~= catalog_shape(4).0);
        shapes.push(Shape::new(vec![(-2, 0), (0, 0), (2, 0), (2, 2)], (2, 0)));
        assert(shapes@[5].offsets() =~= catalog_shape(5).0);
        shapes.push(Shape::new(vec![(-2, 0), (0, 0), (0, 2), (2, 0)], (2, 0)));
        assert(shapes@[6].offsets() =~= catalog_shape(6).0);
        shapes.push(Shape::new(vec![(-2, 0), (0, 0), (0, 2), (2, 2)], (2, 0)));
        assert(shapes@[7].offsets() =~= catalog_shape(7).0);
        shapes.push(Shape::new(vec![(-2, 0), (0, 0), (0, -2), (2, -2)], (2, 2)));
        assert(shapes@[8].offsets() =~= catalog_shape(8).0);
        shapes.push(Shape::new(vec![(-2, 0), (0, 0), (2, 0), (4, 0)], (2, 0)));
        assert(shapes@[9].offsets() =~= catalog_shape(9).0);
        shapes.push(Shape::new(vec![(-1, -1), (1, -1), (-1, 1), (1, 1)], (1, 1)));
        assert(shapes@[10].offsets() =~= catalog_shape(10).0);
        shapes.push(Shape::new(vec![(-2, -2), (0, -2), (2, -2), (0, 0), (0, 2)], (2, 2)));
        assert(shapes@[11].offsets() =~= catalog_shape(11).0);
        shapes.push(Shape::new(vec![(-2, 0), (0, 0), (2, 0), (-2, 2)], (2, 0)));
        assert(shapes@[12].offsets() =~= catalog_shape(12).0);
        shapes.push(Shape::new(vec![(-2, 0), (0, 0), (2, 0), (2, 2)], (2, 0)));
        assert(shapes@[13].offsets() =~= catalog_shape(13).0);
        shapes.push(Shape::new(vec![(-2, 0), (0, 0), (0, 2), (2, 0)], (2, 0)));
        assert(shapes@[14].offsets() =~= catalog_shape(14).0);
        shapes.push(Shape::new(vec![(-2, 0), (0, 0), (0, 2), (2, 2)], (2, 0)));
        assert(shapes@[15].offsets() =~= catalog_shape(15).0);
        shapes.push(Shape::new(vec![(-2, 0), (0, 0), (0, -2), (2, -2)], (2, 2)));
        assert(shapes@[16].offsets() =~= catalog_shape(16).0);
        shapes.push(Shape::new(vec![(-2, 0), (0, 0), (2, 0), (4, 0)], (2, 0)));
        assert(shapes@[17].offsets() =~= catalog_shape(17).0);
        shapes.push(Shape::new(vec![(-1, -1), (1, -1), (-1, 1), (1, 1)], (1, 1)));
        assert(shapes@[18].offsets() =~= catalog_shape(18).0);
        shapes.push(Shape::new(vec![(-2, -2), (0, -2), (2, -2), (0, 0), (0, 2)], (2, 2)));
        assert(shapes@[19].offsets() =~= catalog_shape(19).0);
        shapes.push(Shape::new(vec![(-1, -1), (1, -1), (-1, 1), (1, 1), (3, 1)], (1, 1)));
        assert(shapes@[20].offsets() =~= catalog_shape(20).0);
        shapes.push(Shape::new(vec![(-1, -1), (1, -1), (-1, 1), (1, 1), (3, -1)], (1, 1)));
        assert(shapes@[21].offsets() =~= catalog_shape(21).0);
        shapes
    }
}

/// Turning by `a` and then by `b` quarter turns is turning by `a + b`.
pub proof fn lemma_rotated_compose(p: (int, int), a: int, b: int)
    ensures
        rotated(rotated(p, a), b) == rotated(p, a + b),
{
    assert((a + b) % 4 == ((a % 4) + (b % 4)) % 4);
}

/// Four quarter turns in the same direction bring every offset of a piece
/// back where it was, so the piece covers the same cells again.
pub proof fn rotation_has_order_four(v: PieceView)
    ensures
        v.moved(PlayerMove::Rotate(1)).moved(PlayerMove::Rotate(1)).moved(
            PlayerMove::Rotate(1),
        ).moved(PlayerMove::Rotate(1)) == v,
        v.moved(PlayerMove::Rotate(1)).moved(PlayerMove::Rotate(1)).moved(
            PlayerMove::Rotate(1),
        ).moved(PlayerMove::Rotate(1)).cells() == v.cells(),
{
    let w = v.moved(PlayerMove::Rotate(1)).moved(PlayerMove::Rotate(1)).moved(
        PlayerMove::Rotate(1),
    ).moved(PlayerMove::Rotate(1));
    assert forall|i: int| 0 <= i < v.offsets.len() implies #[trigger] w.offsets[i] == v.offsets[i] by {
        let p = v.offsets[i];
        lemma_rotated_compose(p, 1, 1);
        lemma_rotated_compose(p, 2, 1);
        lemma_rotated_compose(p, 3, 1);
    }
    assert(w.offsets =~= v.offsets);
    assert(w == v);
}

/// Turning by `angle` quarter turns is turning by `angle` modulo 4.
pub proof fn lemma_turns_modulo_four(v: PieceView, angle: int)
    ensures
        v.moved(PlayerMove::Rotate(angle as i32)) == v.moved(
            PlayerMove::Rotate(((angle as i32 as int) % 4) as i32),
        ),
{
    let a = angle as i32 as int;
    let w1 = v.moved(PlayerMove::Rotate(angle as i32));
    let w2 = v.moved(PlayerMove::Rotate((a % 4) as i32));
    assert(((a % 4) as i32) as int == a % 4);
    assert((a % 4) % 4 == a % 4);
    assert(w1.offsets =~= w2.offsets);
}

/// A move followed by its opposite leaves the piece as it was.
pub proof fn lemma_opposite_undoes(v: PieceView, m: PlayerMove)
    requires
        m.negatable(),
    ensures
        v.moved(m).moved(
            match m {
                PlayerMove::Translate(dx, dy) => PlayerMove::Translate((-dx) as i32, (-dy) as i32),
                PlayerMove::Rotate(angle) => PlayerMove::Rotate((-angle) as i32),
            },
        ) == v,
{
    match m {
        PlayerMove::Translate(dx, dy) => {},
        PlayerMove::Rotate(a) => {
            let w = v.moved(m).moved(PlayerMove::Rotate((-a) as i32));
            assert forall|i: int| 0 <= i < v.offsets.len() implies #[trigger] w.offsets[i]
                == v.offsets[i] by {
                lemma_rotated_compose(v.offsets[i], a as int, -a);
            }
            assert(w.offsets =~= v.offsets);
        },
    }
}

} // verus!
