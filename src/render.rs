//! The renderer: keeps the last frame drawn, finds the board cells that
//! changed, and turns them into terminal instructions grouped by color.

use vstd::prelude::*;
use vstd::string::StrSliceExecFns;

use crate::board::{frame_of, GameState};
use crate::rows::{copy_row, is_board, rows_of};
use crate::{COLUMNS, PALETTE_LEN, ROWS};

verus! {

/// Terminal columns per board cell.
pub const BLOCK_WIDTH: usize = 4;

/// Terminal rows per board cell.
pub const BLOCK_HEIGHT: usize = 2;

/// Terminal columns the board covers.
pub const SCREEN_WIDTH: usize = BLOCK_WIDTH * COLUMNS;

/// Terminal rows the board covers.
pub const SCREEN_HEIGHT: usize = BLOCK_HEIGHT * ROWS;

/// Marks a cell of the last frame as unknown, so that it is painted again.
pub const STALE: usize = usize::MAX;

/// The terminal row of the score text.
pub const SCORE_ROW: usize = 6;

/// A color the renderer paints with.
#[derive(Clone, Copy, Debug, PartialEq, Eq, Structural)]
pub enum Paint {
    /// An entry of the palette.
    Palette(usize),
    /// The lighter square of the empty board's two-tone pattern.
    Light,
    /// The darker square of the empty board's two-tone pattern.
    Dark,
    /// The color of text.
    Text,
}

/// One terminal command.
pub enum Instruction {
    MoveTo(usize, usize),
    Color(Paint),
    TextColor(Paint),
    Print(Vec<char>),
}

/// A terminal command as values.
pub enum InstructionView {
    MoveTo(int, int),
    Color(Paint),
    TextColor(Paint),
    Print(Seq<char>),
}

impl View for Instruction {
    type V = InstructionView;

    open spec fn view(&self) -> InstructionView {
        match self {
            Instruction::MoveTo(x, y) => InstructionView::MoveTo(*x as int, *y as int),
            Instruction::Color(p) => InstructionView::Color(*p),
            Instruction::TextColor(p) => InstructionView::TextColor(*p),
            Instruction::Print(t) => InstructionView::Print(t@),
        }
    }
}

/// The instructions as values.
pub open spec fn views_of(s: Seq<Instruction>) -> Seq<InstructionView> {
    s.map_values(|i: Instruction| i@)
}

/// `SCREEN_HEIGHT` rows of `SCREEN_WIDTH` characters.
pub open spec fn is_screen(s: Seq<Seq<char>>) -> bool {
    &&& s.len() == SCREEN_HEIGHT
    &&& forall|y: int| 0 <= y < SCREEN_HEIGHT ==> (#[trigger] s[y]).len() == SCREEN_WIDTH
}

/// The rows of a character grid as values.
pub open spec fn char_rows(g: Seq<Vec<char>>) -> Seq<Seq<char>> {
    g.map_values(|r: Vec<char>| r@)
}

/// The lines of `t`, split at line feeds; a carriage return just before a
/// line feed belongs to the line ending, and a final line feed ends the last
/// line rather than starting an empty one.
pub open spec fn lines_of(t: Seq<char>) -> Seq<Seq<char>> {
    if t.len() == 0 || t.last() == '\n' {
        open_lines(t).drop_last()
    } else {
        open_lines(t)
    }
}

/// The line without a carriage return at its end.
pub open spec fn without_return(line: Seq<char>) -> Seq<char> {
    if line.len() > 0 && line.last() == '\r' {
        line.drop_last()
    } else {
        line
    }
}

/// The lines of `t` with the line still being written last.
pub open spec fn open_lines(t: Seq<char>) -> Seq<Seq<char>>
    decreases t.len(),
{
    if t.len() == 0 {
        seq![seq![]]
    } else {
        let p = open_lines(t.drop_last());
        if t.last() == '\n' {
            p.update(p.len() - 1, without_return(p.last())).push(seq![])
        } else {
            p.update(p.len() - 1, p.last().push(t.last()))
        }
    }
}

/// The screen with `lines` centered on it, each line centered on its own,
/// blanks elsewhere.
pub open spec fn centered(lines: Seq<Seq<char>>) -> Seq<Seq<char>> {
    Seq::new(
        SCREEN_HEIGHT as nat,
        |r: int|
            Seq::new(
                SCREEN_WIDTH as nat,
                |c: int|
                    {
                        let y = r - (SCREEN_HEIGHT - lines.len()) / 2;
                        if 0 <= y < lines.len() {
                            let x = c - (SCREEN_WIDTH - lines[y].len()) / 2;
                            if 0 <= x < lines[y].len() {
                                lines[y][x]
                            } else {
                                ' '
                            }
                        } else {
                            ' '
                        }
                    },
            ),
    )
}

/// The lines fit on the screen.
pub open spec fn fits_screen(lines: Seq<Seq<char>>) -> bool {
    &&& lines.len() <= SCREEN_HEIGHT
    &&& forall|y: int| 0 <= y < lines.len() ==> (#[trigger] lines[y]).len() <= SCREEN_WIDTH
}

/// Text over background: each foreground character that is not blank hides
/// the background character under it.
pub open spec fn composed(background: Seq<char>, foreground: Seq<char>, start: int) -> Seq<char> {
    Seq::new(
        BLOCK_WIDTH as nat,
        |i: int|
            if foreground[start + i] == ' ' {
                background[start + i]
            } else {
                foreground[start + i]
            },
    )
}

/// The color of a board cell holding `value` at column `x`, row `y`: its
/// palette entry, or for an empty cell the square of the two-tone pattern
/// at its place.
pub open spec fn paint_of(value: usize, x: int, y: int) -> Paint {
    if value == 0 {
        if (x + y) % 2 == 0 {
            Paint::Light
        } else {
            Paint::Dark
        }
    } else {
        Paint::Palette(value)
    }
}

/// The last frame, the screen layers and the offset, as values.
pub struct OutputView {
    pub grid: Seq<Seq<usize>>,
    pub background: Seq<Seq<char>>,
    pub foreground: Seq<Seq<char>>,
    pub offset: (int, int),
}

impl OutputView {
    /// The color the cell at `(x, y)` is painted with.
    pub open spec fn paint_at(self, x: int, y: int) -> Paint {
        paint_of(self.grid[y][x], x, y)
    }

    /// The text of screen row `row` of the cell at `(x, y)`: the foreground
    /// over a filled cell, the foreground over the background on an empty one.
    pub open spec fn text_at(self, x: int, y: int, row: int) -> Seq<char> {
        let line = y * BLOCK_HEIGHT + row;
        if self.grid[y][x] == 0 {
            composed(self.background[line], self.foreground[line], x * BLOCK_WIDTH)
        } else {
            self.foreground[line].subrange(x * BLOCK_WIDTH, x * BLOCK_WIDTH + BLOCK_WIDTH)
        }
    }

    /// The instructions that paint the cell at `(x, y)`, one screen row
    /// after the other.
    pub open spec fn cell_instructions(self, c: (int, int)) -> Seq<InstructionView> {
        seq![
            InstructionView::MoveTo(c.0 * BLOCK_WIDTH + self.offset.0, c.1 * BLOCK_HEIGHT + self.offset.1),
            InstructionView::Print(self.text_at(c.0, c.1, 0)),
            InstructionView::MoveTo(c.0 * BLOCK_WIDTH + self.offset.0, c.1 * BLOCK_HEIGHT + 1 + self.offset.1),
            InstructionView::Print(self.text_at(c.0, c.1, 1)),
        ]
    }

    /// The instructions for those of the first `n` cells of `cs` painted
    /// with `p`, in order.
    pub open spec fn paint_group(self, cs: Seq<(int, int)>, p: Paint, n: int) -> Seq<InstructionView>
        decreases n,
    {
        if n <= 0 {
            seq![]
        } else {
            self.paint_group(cs, p, n - 1) + if self.paint_at(cs[n - 1].0, cs[n - 1].1) == p {
                self.cell_instructions(cs[n - 1])
            } else {
                seq![]
            }
        }
    }

    /// The colors of the cells `cs`, each once, in order of first use.
    pub open spec fn paints_used(self, cs: Seq<(int, int)>, n: int) -> Seq<Paint>
        decreases n,
    {
        if n <= 0 {
            seq![]
        } else {
            let prev = self.paints_used(cs, n - 1);
            let p = self.paint_at(cs[n - 1].0, cs[n - 1].1);
            if prev.contains(p) {
                prev
            } else {
                prev.push(p)
            }
        }
    }

    /// For each of the first `m` colors of `ps`: one color change, then the
    /// instructions of every cell of `cs` painted with it.
    pub open spec fn paint_groups(self, cs: Seq<(int, int)>, ps: Seq<Paint>, m: int) -> Seq<
        InstructionView,
    >
        decreases m,
    {
        if m <= 0 {
            seq![]
        } else {
            self.paint_groups(cs, ps, m - 1) + seq![InstructionView::Color(ps[m - 1])]
                + self.paint_group(cs, ps[m - 1], cs.len() as int)
        }
    }

    /// All instructions for the cells `cs`: the text color first, then one
    /// group per color used.
    pub open spec fn instructions_for(self, cs: Seq<(int, int)>) -> Seq<InstructionView> {
        let ps = self.paints_used(cs, cs.len() as int);
        seq![InstructionView::TextColor(Paint::Text)] + self.paint_groups(cs, ps, ps.len() as int)
    }
}

/// The cells where `prev` and `next` differ, column by column, each column
/// from the top.
pub open spec fn is_change_list(
    r: Seq<(int, int)>,
    prev: Seq<Seq<usize>>,
    next: Seq<Seq<usize>>,
) -> bool {
    &&& forall|i: int|
        0 <= i < r.len() ==> 0 <= (#[trigger] r[i]).0 < COLUMNS && 0 <= r[i].1 < ROWS
    &&& forall|i: int, j: int|
        0 <= i < j < r.len() ==> r[i].0 * ROWS + r[i].1 < r[j].0 * ROWS + r[j].1
    &&& forall|x: int, y: int|
        0 <= x < COLUMNS && 0 <= y < ROWS ==> (#[trigger] r.contains((x, y)) <==> prev[y][x]
            != next[y][x])
}

/// The cell coordinates as integers.
pub open spec fn int_pairs(s: Seq<(usize, usize)>) -> Seq<(int, int)> {
    s.map_values(|p: (usize, usize)| (p.0 as int, p.1 as int))
}

/// What the renderer keeps between frames: the last frame drawn, the
/// background and foreground text layers, and where the board sits on the
/// terminal.
pub struct Output {
    grid: Vec<Vec<usize>>,
    background: Vec<Vec<char>>,
    foreground: Vec<Vec<char>>,
    offset: (usize, usize),
}

impl View for Output {
    type V = OutputView;

    closed spec fn view(&self) -> OutputView {
        OutputView {
            grid: rows_of(self.grid@),
            background: char_rows(self.background@),
            foreground: char_rows(self.foreground@),
            offset: (self.offset.0 as int, self.offset.1 as int),
        }
    }
}


/// The text `text` written into `row` from column `start` on.
pub open spec fn written(row: Seq<char>, text: Seq<char>, start: int) -> Seq<char> {
    Seq::new(row.len(), |c: int| if start <= c < start + text.len() { text[c - start] } else { row[c] })
}

/// `row` of the last frame with every cell marked stale that lies under a
/// column of `start..start + len` on the screen.
pub open spec fn marked(row: Seq<usize>, start: int, len: int) -> Seq<usize> {
    Seq::new(
        row.len(),
        |c: int|
            if len > 0 && c * BLOCK_WIDTH < start + len && start < (c + 1) * BLOCK_WIDTH {
                STALE
            } else {
                row[c]
            },
    )
}

fn copy_chars(row: &Vec<char>, start: usize, len: usize) -> (r: Vec<char>)
    requires
        start + len <= row@.len(),
    ensures
        r@ == row@.subrange(start as int, start + len),
{
    let mut r: Vec<char> = Vec::new();
    let total = row.len();
    let mut i: usize = 0;
    while i < len
        invariant
            0 <= i <= len,
            total == row@.len(),
            start + len <= row@.len(),
            r@ == row@.subrange(start as int, start + i),
        decreases len - i,
    {
        r.push(row[start + i]);
        i = i + 1;
        assert(r@ =~= row@.subrange(start as int, start + i));
    }
    r
}

fn blank_line(width: usize) -> (r: Vec<char>)
    ensures
        r@ == Seq::new(width as nat, |i: int| ' '),
{
    let mut r: Vec<char> = Vec::new();
    let mut i: usize = 0;
    while i < width
        invariant
            0 <= i <= width,
            r@ == Seq::new(i as nat, |j: int| ' '),
        decreases width - i,
    {
        r.push(' ');
        i = i + 1;
        assert(r@ =~= Seq::new(i as nat, |j: int| ' '));
    }
    r
}

fn filled_row(width: usize, value: usize) -> (r: Vec<usize>)
    ensures
        r@ == Seq::new(width as nat, |i: int| value),
{
    let mut r: Vec<usize> = Vec::new();
    let mut i: usize = 0;
    while i < width
        invariant
            0 <= i <= width,
            r@ == Seq::new(i as nat, |j: int| value),
        decreases width - i,
    {
        r.push(value);
        i = i + 1;
        assert(r@ =~= Seq::new(i as nat, |j: int| value));
    }
    r
}

fn filled_grid(value: usize) -> (r: Vec<Vec<usize>>)
    ensures
        rows_of(r@) == Seq::new(ROWS as nat, |y: int| Seq::new(COLUMNS as nat, |x: int| value)),
{
    let mut r: Vec<Vec<usize>> = Vec::new();
    let mut y: usize = 0;
    while y < ROWS
        invariant
            0 <= y <= ROWS,
            r@.len() == y,
            rows_of(r@) == Seq::new(y as nat, |k: int| Seq::new(COLUMNS as nat, |x: int| value)),
        decreases ROWS - y,
    {
        let row = filled_row(COLUMNS, value);
        let ghost prev = r@;
        r.push(row);
        assert(r@ == prev.push(row));
        assert forall|k: int| 0 <= k <= y implies #[trigger] rows_of(r@)[k] == Seq::new(
            COLUMNS as nat,
            |x: int| value,
        ) by {
            if k < y {
                assert(rows_of(prev)[k] == Seq::new(COLUMNS as nat, |x: int| value));
            }
        }
        y = y + 1;
        assert(rows_of(r@) =~= Seq::new(y as nat, |k: int| Seq::new(COLUMNS as nat, |x: int| value)));
    }
    r
}

/// The lines of `text`.
fn split_lines(text: &str) -> (r: Vec<Vec<char>>)
    ensures
        char_rows(r@) == lines_of(text@),
{
    let n = text.unicode_len();
    let mut lines: Vec<Vec<char>> = Vec::new();
    let mut current: Vec<char> = Vec::new();
    let mut i: usize = 0;
    while i < n
        invariant
            0 <= i <= n,
            n == text@.len(),
            char_rows(lines@).push(current@) == open_lines(text@.subrange(0, i as int)),
        decreases n - i,
    {
        let c = text.get_char(i);
        let ghost before = text@.subrange(0, i as int);
        let ghost after = text@.subrange(0, i + 1);
        assert(after.drop_last() =~= before);
        assert(after.last() == c);
        if c == '\n' {
            let ghost prev = lines@;
            let ghost open = current@;
            if current.len() > 0 && current[current.len() - 1] == '\r' {
                current.pop();
            }
            assert(current@ == without_return(open));
            let done = current;
            lines.push(done);
            current = Vec::new();
            assert(char_rows(lines@) =~= char_rows(prev).push(done@));
            assert(char_rows(prev).push(open).update(char_rows(prev).len() as int, done@)
                =~= char_rows(prev).push(done@));
            assert(char_rows(lines@).push(current@) =~= open_lines(after));
        } else {
            let ghost prev = current@;
            current.push(c);
            assert(char_rows(lines@).push(current@) =~= char_rows(lines@).push(prev).update(
                char_rows(lines@).len() as int,
                prev.push(c),
            ));
        }
        i = i + 1;
    }
    assert(text@.subrange(0, n as int) =~= text@);
    if n == 0 || text.get_char(n - 1) == '\n' {
        assert(char_rows(lines@) =~= open_lines(text@).drop_last());
    } else {
        let ghost prev = lines@;
        let last = current;
        lines.push(last);
        assert(char_rows(lines@) =~= char_rows(prev).push(last@));
    }
    lines
}

impl Output {
    /// The last frame is a board, both text layers cover the screen, and the
    /// offset is within a terminal's size.
    pub closed spec fn wf(&self) -> bool {
        &&& is_board(self@.grid)
        &&& is_screen(self@.background)
        &&& is_screen(self@.foreground)
        &&& self.offset.0 <= u16::MAX
        &&& self.offset.1 <= u16::MAX
    }

    /// Where the board starts on a terminal `width` columns wide: centered,
    /// with a column of margin on each side, on the top row.
    pub fn offset(width: u16) -> (r: (usize, usize))
        requires
            width >= SCREEN_WIDTH + 2,
        ensures
            r.0 == (width - (SCREEN_WIDTH + 2)) / 2,
            r.1 == 0,
    {
        (((width as usize) - (SCREEN_WIDTH + 2)) / 2, 0)
    }

    /// A well-formed renderer keeps a `ROWS` by `COLUMNS` last frame and two
    /// text layers that cover the screen.
    pub proof fn lemma_wf(&self)
        requires
            self.wf(),
        ensures
            is_board(self@.grid),
            is_screen(self@.background),
            is_screen(self@.foreground),
    {
    }

    /// Where the board starts on the terminal.
    pub fn position(&self) -> (r: (usize, usize))
        ensures
            (r.0 as int, r.1 as int) == self@.offset,
    {
        self.offset
    }

    /// The background screen: the lines of `background_str` centered.
    pub fn parse_background(background_str: &str) -> (r: Vec<Vec<char>>)
        requires
            fits_screen(lines_of(background_str@)),
        ensures
            char_rows(r@) == centered(lines_of(background_str@)),
            is_screen(char_rows(r@)),
    {
        let lines = split_lines(background_str);
        let ghost ls = lines_of(background_str@);
        let height = lines.len();
        let mut screen: Vec<Vec<char>> = Vec::new();
        let mut r: usize = 0;
        while r < SCREEN_HEIGHT
            invariant
                0 <= r <= SCREEN_HEIGHT,
                char_rows(lines@) == ls,
                height == ls.len(),
                fits_screen(ls),
                screen@.len() == r,
                forall|k: int| 0 <= k < r ==> (#[trigger] screen@[k])@ == centered(ls)[k],
            decreases SCREEN_HEIGHT - r,
        {
            let mut line: Vec<char> = Vec::new();
            let top = (SCREEN_HEIGHT - height) / 2;
            let mut c: usize = 0;
            while c < SCREEN_WIDTH
                invariant
                    0 <= c <= SCREEN_WIDTH,
                    0 <= r < SCREEN_HEIGHT,
                    char_rows(lines@) == ls,
                    height == ls.len(),
                    fits_screen(ls),
                    top == (SCREEN_HEIGHT - height) / 2,
                    line@ == centered(ls)[r as int].subrange(0, c as int),
                decreases SCREEN_WIDTH - c,
            {
                let mut ch = ' ';
                if top <= r && r - top < height {
                    let y = r - top;
                    assert(lines@[y as int]@ == ls[y as int]);
                    let w = lines[y].len();
                    let left = (SCREEN_WIDTH - w) / 2;
                    if left <= c && c - left < w {
                        ch = lines[y][c - left];
                    }
                }
                line.push(ch);
                c = c + 1;
                assert(line@ =~= centered(ls)[r as int].subrange(0, c as int));
            }
            assert(line@ =~= centered(ls)[r as int]);
            screen.push(line);
            r = r + 1;
        }
        assert(char_rows(screen@) =~= centered(ls));
        screen
    }

    /// A renderer for a terminal `width` columns wide, with `background`
    /// centered behind the board, an empty last frame and no text.
    pub fn new(width: u16, background: &str) -> (r: Output)
        requires
            width >= SCREEN_WIDTH + 2,
            fits_screen(lines_of(background@)),
        ensures
            r.wf(),
            r@.grid == Seq::new(ROWS as nat, |y: int| Seq::new(COLUMNS as nat, |x: int| 0usize)),
            r@.background == centered(lines_of(background@)),
            r@.foreground == Seq::new(
                SCREEN_HEIGHT as nat,
                |y: int| Seq::new(SCREEN_WIDTH as nat, |x: int| ' '),
            ),
            r@.offset == ((width - (SCREEN_WIDTH + 2)) / 2, 0int),
    {
        let offset = Self::offset(width);
        let mut foreground: Vec<Vec<char>> = Vec::new();
        let mut y: usize = 0;
        while y < SCREEN_HEIGHT
            invariant
                0 <= y <= SCREEN_HEIGHT,
                foreground@.len() == y,
                char_rows(foreground@) == Seq::new(
                    y as nat,
                    |k: int| Seq::new(SCREEN_WIDTH as nat, |x: int| ' '),
                ),
            decreases SCREEN_HEIGHT - y,
        {
            let line = blank_line(SCREEN_WIDTH);
            let ghost prev = foreground@;
            foreground.push(line);
            assert(foreground@ == prev.push(line));
            assert forall|k: int| 0 <= k <= y implies #[trigger] char_rows(foreground@)[k]
                == Seq::new(SCREEN_WIDTH as nat, |x: int| ' ') by {
                if k < y {
                    assert(char_rows(prev)[k] == Seq::new(SCREEN_WIDTH as nat, |x: int| ' '));
                }
            }
            y = y + 1;
            assert(char_rows(foreground@) =~= Seq::new(
                y as nat,
                |k: int| Seq::new(SCREEN_WIDTH as nat, |x: int| ' '),
            ));
        }
        let grid = filled_grid(0);
        let background = Self::parse_background(background);
        Output { grid, background, foreground, offset }
    }

    /// Text over background for `BLOCK_WIDTH` characters from `start`.
    pub fn compose_back_and_fore(background: &Vec<char>, foreground: &Vec<char>, start: usize) -> (r:
        Vec<char>)
        requires
            start + BLOCK_WIDTH <= background@.len(),
            start + BLOCK_WIDTH <= foreground@.len(),
        ensures
            r@ == composed(background@, foreground@, start as int),
    {
        let mut r: Vec<char> = Vec::new();
        let total = foreground.len();
        let mut i: usize = 0;
        while i < BLOCK_WIDTH
            invariant
                0 <= i <= BLOCK_WIDTH,
                total == foreground@.len(),
                start + BLOCK_WIDTH <= background@.len(),
                start + BLOCK_WIDTH <= foreground@.len(),
                r@ == composed(background@, foreground@, start as int).subrange(0, i as int),
            decreases BLOCK_WIDTH - i,
        {
            if foreground[start + i] == ' ' {
                r.push(background[start + i]);
            } else {
                r.push(foreground[start + i]);
            }
            i = i + 1;
            assert(r@ =~= composed(background@, foreground@, start as int).subrange(0, i as int));
        }
        assert(r@ =~= composed(background@, foreground@, start as int));
        r
    }

    /// The color the cell at `(x, y)` of the last frame is painted with.
    fn color_at(&self, x: usize, y: usize) -> (r: Paint)
        requires
            self.wf(),
            x < COLUMNS,
            y < ROWS,
        ensures
            r == self@.paint_at(x as int, y as int),
    {
        assert(self.grid@[y as int]@ == self@.grid[y as int]);
        let value = self.grid[y][x];
        if value == 0 {
            if (x + y) % 2 == 0 {
                Paint::Light
            } else {
                Paint::Dark
            }
        } else {
            Paint::Palette(value)
        }
    }

    /// The board of `data` with its piece drawn over it.
    pub fn next_grid(data: &GameState) -> (r: Vec<Vec<usize>>)
        requires
            data.wf(),
        ensures
            rows_of(r@) == frame_of(data@),
            is_board(rows_of(r@)),
            forall|y: int, x: int|
                0 <= y < ROWS && 0 <= x < COLUMNS ==> #[trigger] rows_of(r@)[y][x] < PALETTE_LEN,
    {
        data.overlaid()
    }

    /// The cells where the next frame of `data` differs from the last frame,
    /// column by column; the next frame becomes the last.
    fn changes(&mut self, data: &GameState) -> (r: Vec<(usize, usize)>)
        requires
            old(self).wf(),
            data.wf(),
        ensures
            final(self).wf(),
            is_change_list(int_pairs(r@), old(self)@.grid, frame_of(data@)),
            final(self)@ == (OutputView { grid: frame_of(data@), ..old(self)@ }),
    {
        let next_grid = Self::next_grid(data);
        let ghost prev = self@.grid;
        let ghost next = frame_of(data@);
        let mut changed: Vec<(usize, usize)> = Vec::new();
        let mut x: usize = 0;
        while x < COLUMNS
            invariant
                0 <= x <= COLUMNS,
                self.wf(),
                prev == self@.grid,
                rows_of(next_grid@) == next,
                is_board(next),
                forall|i: int|
                    0 <= i < changed@.len() ==> (#[trigger] changed@[i]).0 < x && changed@[i].1
                        < ROWS,
                forall|i: int, j: int|
                    0 <= i < j < changed@.len() ==> changed@[i].0 * ROWS + changed@[i].1
                        < changed@[j].0 * ROWS + changed@[j].1,
                forall|a: int, b: int|
                    0 <= a < x && 0 <= b < ROWS ==> (#[trigger] int_pairs(changed@).contains((a, b))
                        <==> prev[b][a] != next[b][a]),
            decreases COLUMNS - x,
        {
            let mut y: usize = 0;
            while y < ROWS
                invariant
                    0 <= x < COLUMNS,
                    0 <= y <= ROWS,
                    self.wf(),
                    prev == self@.grid,
                    rows_of(next_grid@) == next,
                    is_board(next),
                    forall|i: int|
                        0 <= i < changed@.len() ==> (#[trigger] changed@[i]).0 <= x
                            && changed@[i].1 < ROWS && (changed@[i].0 == x ==> changed@[i].1 < y),
                    forall|i: int, j: int|
                        0 <= i < j < changed@.len() ==> changed@[i].0 * ROWS + changed@[i].1
                            < changed@[j].0 * ROWS + changed@[j].1,
                    forall|a: int, b: int|
                        0 <= a < x && 0 <= b < ROWS ==> (#[trigger] int_pairs(
                            changed@,
                        ).contains((a, b)) <==> prev[b][a] != next[b][a]),
                    forall|b: int|
                        0 <= b < y ==> (#[trigger] int_pairs(changed@).contains((x as int, b))
                            <==> prev[b][x as int] != next[b][x as int]),
                decreases ROWS - y,
            {
                assert(self.grid@[y as int]@ == prev[y as int]);
                assert(next_grid@[y as int]@ == next[y as int]);
                let ghost before = changed@;
                if self.grid[y][x] != next_grid[y][x] {
                    changed.push((x, y));
                }
                proof {
                    let now = int_pairs(changed@);
                    let was = int_pairs(before);
                    assert forall|a: int, b: int| 0 <= a <= x && 0 <= b < ROWS && !(a == x && b == y)
                        implies now.contains((a, b)) == was.contains((a, b)) by {
                        if now.contains((a, b)) {
                            let k = choose|k: int| 0 <= k < now.len() && now[k] == (a, b);
                            if k < was.len() {
                                assert(was[k] == (a, b));
                            }
                        }
                        if was.contains((a, b)) {
                            let k = choose|k: int| 0 <= k < was.len() && was[k] == (a, b);
                            assert(now[k] == (a, b));
                        }
                    }
                    if prev[y as int][x as int] != next[y as int][x as int] {
                        assert(now[now.len() - 1] == (x as int, y as int));
                    } else {
                        assert(now == was);
                        if was.contains((x as int, y as int)) {
                            let k = choose|k: int|
                                0 <= k < was.len() && was[k] == (x as int, y as int);
                            assert(before[k].1 < y);
                        }
                    }
                    assert forall|a: int, b: int|
                        0 <= a < x && 0 <= b < ROWS implies (#[trigger] now.contains((a, b))
                        <==> prev[b][a] != next[b][a]) by {
                        assert(now.contains((a, b)) == was.contains((a, b)));
                    }
                    assert forall|b: int| 0 <= b < y + 1 implies (#[trigger] now.contains(
                        (x as int, b),
                    ) <==> prev[b][x as int] != next[b][x as int]) by {
                        if b < y {
                            assert(now.contains((x as int, b)) == was.contains((x as int, b)));
                        }
                    }
                }
                y = y + 1;
            }
            x = x + 1;
        }
        self.grid = next_grid;
        changed
    }
}


fn holds_paint(ps: &Vec<Paint>, p: Paint) -> (r: bool)
    ensures
        r == ps@.contains(p),
{
    let mut i: usize = 0;
    while i < ps.len()
        invariant
            0 <= i <= ps@.len(),
            forall|j: int| 0 <= j < i ==> ps@[j] != p,
        decreases ps@.len() - i,
    {
        if ps[i] == p {
            assert(ps@[i as int] == p);
            return true;
        }
        i = i + 1;
    }
    false
}

/// The changed cells lie on the board.
pub open spec fn on_board_cells(cs: Seq<(usize, usize)>) -> bool {
    forall|i: int| 0 <= i < cs.len() ==> (#[trigger] cs[i]).0 < COLUMNS && cs[i].1 < ROWS
}

impl Output {
    /// The text of screen row `row` of the cell at `(x, y)`.
    fn text_at(&self, x: usize, y: usize, row: usize) -> (r: Vec<char>)
        requires
            self.wf(),
            x < COLUMNS,
            y < ROWS,
            row < BLOCK_HEIGHT,
        ensures
            r@ == self@.text_at(x as int, y as int, row as int),
    {
        let line = y * BLOCK_HEIGHT + row;
        assert(self.grid@[y as int]@ == self@.grid[y as int]);
        assert(self.background@[line as int]@ == self@.background[line as int]);
        assert(self.foreground@[line as int]@ == self@.foreground[line as int]);
        if self.grid[y][x] == 0 {
            Self::compose_back_and_fore(&self.background[line], &self.foreground[line], x * BLOCK_WIDTH)
        } else {
            copy_chars(&self.foreground[line], x * BLOCK_WIDTH, BLOCK_WIDTH)
        }
    }

    /// Appends the instructions that paint the cell at `(x, y)`.
    fn push_cell(&self, r: &mut Vec<Instruction>, x: usize, y: usize)
        requires
            self.wf(),
            x < COLUMNS,
            y < ROWS,
        ensures
            views_of(final(r)@) == views_of(old(r)@) + self@.cell_instructions((x as int, y as int)),
    {
        let ghost start = views_of(r@);
        let left = x * BLOCK_WIDTH + self.offset.0;
        let top = y * BLOCK_HEIGHT + self.offset.1;
        r.push(Instruction::MoveTo(left, top));
        r.push(Instruction::Print(self.text_at(x, y, 0)));
        r.push(Instruction::MoveTo(left, top + 1));
        r.push(Instruction::Print(self.text_at(x, y, 1)));
        assert(views_of(r@) =~= start + self@.cell_instructions((x as int, y as int)));
    }

    /// The colors of the changed cells, each once, in order of first use.
    fn paints_used(&self, changes: &Vec<(usize, usize)>) -> (r: Vec<Paint>)
        requires
            self.wf(),
            on_board_cells(changes@),
        ensures
            r@ == self@.paints_used(int_pairs(changes@), changes@.len() as int),
    {
        let ghost cs = int_pairs(changes@);
        let mut ps: Vec<Paint> = Vec::new();
        let mut i: usize = 0;
        while i < changes.len()
            invariant
                0 <= i <= changes@.len(),
                self.wf(),
                on_board_cells(changes@),
                cs == int_pairs(changes@),
                ps@ == self@.paints_used(cs, i as int),
            decreases changes@.len() - i,
        {
            let (x, y) = changes[i];
            assert(changes@[i as int].0 < COLUMNS && changes@[i as int].1 < ROWS);
            let p = self.color_at(x, y);
            if !holds_paint(&ps, p) {
                ps.push(p);
            }
            i = i + 1;
        }
        ps
    }

    /// The instructions that paint the changed cells: the text color, then
    /// for each color used one color change followed by the cells of that
    /// color, so that the color changes once per color.
    fn instructions(&self, changes: &Vec<(usize, usize)>) -> (r: Vec<Instruction>)
        requires
            self.wf(),
            on_board_cells(changes@),
        ensures
            views_of(r@) == self@.instructions_for(int_pairs(changes@)),
    {
        let ghost cs = int_pairs(changes@);
        let ps = self.paints_used(changes);
        let ghost psv = ps@;
        let mut r: Vec<Instruction> = Vec::new();
        r.push(Instruction::TextColor(Paint::Text));
        assert(views_of(r@) =~= seq![InstructionView::TextColor(Paint::Text)]);
        let mut m: usize = 0;
        while m < ps.len()
            invariant
                0 <= m <= ps@.len(),
                self.wf(),
                on_board_cells(changes@),
                cs == int_pairs(changes@),
                psv == ps@,
                psv == self@.paints_used(cs, cs.len() as int),
                views_of(r@) == seq![InstructionView::TextColor(Paint::Text)] + self@.paint_groups(
                    cs,
                    psv,
                    m as int,
                ),
            decreases ps@.len() - m,
        {
            let p = ps[m];
            let ghost base = views_of(r@);
            r.push(Instruction::Color(p));
            assert(views_of(r@) =~= base + seq![InstructionView::Color(p)]);
            let mut i: usize = 0;
            while i < changes.len()
                invariant
                    0 <= i <= changes@.len(),
                    0 <= m < ps@.len(),
                    p == psv[m as int],
                    self.wf(),
                    on_board_cells(changes@),
                    cs == int_pairs(changes@),
                    views_of(r@) == base + seq![InstructionView::Color(p)] + self@.paint_group(
                        cs,
                        p,
                        i as int,
                    ),
                decreases changes@.len() - i,
            {
                let (x, y) = changes[i];
                assert(changes@[i as int].0 < COLUMNS && changes@[i as int].1 < ROWS);
                assert(cs[i as int] == (x as int, y as int));
                if self.color_at(x, y) == p {
                    self.push_cell(&mut r, x, y);
                }
                i = i + 1;
                assert(views_of(r@) =~= base + seq![InstructionView::Color(p)] + self@.paint_group(
                    cs,
                    p,
                    i as int,
                ));
            }
            m = m + 1;
            assert(views_of(r@) =~= seq![InstructionView::TextColor(Paint::Text)]
                + self@.paint_groups(cs, psv, m as int));
        }
        r
    }
}


fn set_char(grid: &mut Vec<Vec<char>>, y: usize, x: usize, c: char)
    requires
        y < old(grid)@.len(),
        x < old(grid)@[y as int]@.len(),
    ensures
        char_rows(final(grid)@) == char_rows(old(grid)@).update(
            y as int,
            char_rows(old(grid)@)[y as int].update(x as int, c),
        ),
{
    let mut row = copy_chars(&grid[y], 0, grid[y].len());
    assert(row@ =~= grid@[y as int]@);
    row.set(x, c);
    grid.set(y, row);
    assert(char_rows(grid@) =~= char_rows(old(grid)@).update(
        y as int,
        char_rows(old(grid)@)[y as int].update(x as int, c),
    ));
}

fn set_value(grid: &mut Vec<Vec<usize>>, y: usize, x: usize, v: usize)
    requires
        y < old(grid)@.len(),
        x < old(grid)@[y as int]@.len(),
    ensures
        rows_of(final(grid)@) == rows_of(old(grid)@).update(
            y as int,
            rows_of(old(grid)@)[y as int].update(x as int, v),
        ),
{
    let mut row = copy_row(&grid[y]);
    row.set(x, v);
    grid.set(y, row);
    assert(rows_of(grid@) =~= rows_of(old(grid)@).update(
        y as int,
        rows_of(old(grid)@)[y as int].update(x as int, v),
    ));
}

/// A last frame with every cell unknown.
pub open spec fn stale_frame() -> Seq<Seq<usize>> {
    Seq::new(ROWS as nat, |y: int| Seq::new(COLUMNS as nat, |x: int| STALE))
}

/// After a draw the last frame is the game's frame. Drawing again while the
/// game stands still finds no changed cell, so it paints nothing and only
/// sets the text color.
pub proof fn second_draw_paints_nothing(out: OutputView, cs: Seq<(int, int)>)
    requires
        is_change_list(cs, out.grid, out.grid),
    ensures
        cs.len() == 0,
        out.instructions_for(cs) == seq![InstructionView::TextColor(Paint::Text)],
{
    if cs.len() > 0 {
        assert(cs.contains(cs[0]));
    }
    assert(out.paints_used(cs, 0) =~= seq![]);
    assert(out.paint_groups(cs, seq![], 0) =~= seq![]);
    assert(out.instructions_for(cs) =~= seq![InstructionView::TextColor(Paint::Text)]);
}

impl Output {
    /// Writes `text` into foreground row `line` from column `start` on, and
    /// marks the board cells under it stale so that they are painted again.
    fn write_text(&mut self, text: &str, line: usize, start: usize)
        requires
            old(self).wf(),
            line < SCREEN_HEIGHT,
            start + text@.len() <= SCREEN_WIDTH,
        ensures
            final(self).wf(),
            final(self)@ == (OutputView {
                foreground: old(self)@.foreground.update(
                    line as int,
                    written(old(self)@.foreground[line as int], text@, start as int),
                ),
                grid: old(self)@.grid.update(
                    (line / BLOCK_HEIGHT) as int,
                    marked(old(self)@.grid[(line / BLOCK_HEIGHT) as int], start as int, text@.len() as int),
                ),
                ..old(self)@
            }),
    {
        let n = text.unicode_len();
        let row = line / BLOCK_HEIGHT;
        let ghost fg0 = self@.foreground;
        let ghost g0 = self@.grid;
        assert(written(fg0[line as int], text@.subrange(0, 0), start as int) =~= fg0[line as int]);
        assert(marked(g0[row as int], start as int, 0) =~= g0[row as int]);
        assert(fg0.update(line as int, fg0[line as int]) =~= fg0);
        assert(g0.update(row as int, g0[row as int]) =~= g0);
        let mut i: usize = 0;
        while i < n
            invariant
                0 <= i <= n,
                n == text@.len(),
                line < SCREEN_HEIGHT,
                row == line / BLOCK_HEIGHT,
                start + n <= SCREEN_WIDTH,
                self.wf(),
                self@.background == old(self)@.background,
                self@.offset == old(self)@.offset,
                fg0 == old(self)@.foreground,
                g0 == old(self)@.grid,
                is_board(g0),
                is_screen(fg0),
                self@.foreground == fg0.update(
                    line as int,
                    written(fg0[line as int], text@.subrange(0, i as int), start as int),
                ),
                self@.grid == g0.update(
                    row as int,
                    marked(g0[row as int], start as int, i as int),
                ),
            decreases n - i,
        {
            let c = text.get_char(i);
            let x = start + i;
            assert(self.foreground@[line as int]@ == self@.foreground[line as int]);
            assert(self.grid@[row as int]@ == self@.grid[row as int]);
            set_char(&mut self.foreground, line, x, c);
            set_value(&mut self.grid, row, x / BLOCK_WIDTH, STALE);
            i = i + 1;
            proof {
                let q = x / BLOCK_WIDTH;
                assert(q * 4 <= x && x < q * 4 + 4);
                let before = marked(g0[row as int], start as int, i - 1);
                let after = marked(g0[row as int], start as int, i as int);
                assert forall|k: int| 0 <= k < after.len() implies #[trigger] after[k]
                    == before.update(q as int, STALE)[k] by {
                    if k != q {
                        assert(k * 4 + 4 <= q * 4 || k * 4 >= q * 4 + 4);
                    }
                }
                let wb = written(fg0[line as int], text@.subrange(0, i - 1), start as int);
                let wa = written(fg0[line as int], text@.subrange(0, i as int), start as int);
                assert(c == text@[i - 1]);
                assert forall|k: int| 0 <= k < wa.len() implies #[trigger] wa[k] == wb.update(
                    x as int,
                    c,
                )[k] by {
                    if start <= k < start + i - 1 {
                        assert(text@.subrange(0, i as int)[k - start] == text@[k - start]);
                        assert(text@.subrange(0, i - 1)[k - start] == text@[k - start]);
                    }
                }
            }
            assert(written(fg0[line as int], text@.subrange(0, i as int), start as int) =~= written(
                fg0[line as int],
                text@.subrange(0, i - 1),
                start as int,
            ).update(x as int, c));
            assert(marked(g0[row as int], start as int, i as int) =~= marked(
                g0[row as int],
                start as int,
                i - 1,
            ).update((x / BLOCK_WIDTH) as int, STALE));
            assert(self@.foreground =~= fg0.update(
                line as int,
                written(fg0[line as int], text@.subrange(0, i as int), start as int),
            ));
            assert(self@.grid =~= g0.update(row as int, marked(g0[row as int], start as int, i as int)));
        }
        assert(text@.subrange(0, n as int) =~= text@);
    }

    /// Writes the score centered on its row of the board.
    pub fn draw_score(&mut self, score: String)
        requires
            old(self).wf(),
            score@.len() <= SCREEN_WIDTH,
        ensures
            final(self).wf(),
            final(self)@ == (OutputView {
                foreground: old(self)@.foreground.update(
                    SCORE_ROW as int,
                    written(
                        old(self)@.foreground[SCORE_ROW as int],
                        score@,
                        (SCREEN_WIDTH - score@.len()) / 2,
                    ),
                ),
                grid: old(self)@.grid.update(
                    (SCORE_ROW / BLOCK_HEIGHT) as int,
                    marked(
                        old(self)@.grid[(SCORE_ROW / BLOCK_HEIGHT) as int],
                        (SCREEN_WIDTH - score@.len()) / 2,
                        score@.len() as int,
                    ),
                ),
                ..old(self)@
            }),
    {
        let text = score.as_str();
        let start = (SCREEN_WIDTH - text.unicode_len()) / 2;
        self.write_text(text, SCORE_ROW, start);
    }

    /// Writes the frame rate at the start of the bottom row of the board.
    pub fn draw_fps(&mut self, fps: String)
        requires
            old(self).wf(),
            fps@.len() <= SCREEN_WIDTH,
        ensures
            final(self).wf(),
            final(self)@ == (OutputView {
                foreground: old(self)@.foreground.update(
                    SCREEN_HEIGHT - 1,
                    written(old(self)@.foreground[SCREEN_HEIGHT - 1], fps@, 0),
                ),
                grid: old(self)@.grid.update(
                    (SCREEN_HEIGHT - 1) / BLOCK_HEIGHT as int,
                    marked(
                        old(self)@.grid[(SCREEN_HEIGHT - 1) / BLOCK_HEIGHT as int],
                        0,
                        fps@.len() as int,
                    ),
                ),
                ..old(self)@
            }),
    {
        self.write_text(fps.as_str(), SCREEN_HEIGHT - 1, 0);
    }

    /// Finds the cells whose color changed since the last frame, makes the
    /// game's frame the last one, and returns the instructions that paint
    /// the changed cells, grouped by color.
    pub fn draw(&mut self, data: &GameState) -> (r: Vec<Instruction>)
        requires
            old(self).wf(),
            data.wf(),
        ensures
            final(self).wf(),
            final(self)@ == (OutputView { grid: frame_of(data@), ..old(self)@ }),
            exists|cs: Seq<(int, int)>|
                #[trigger] is_change_list(cs, old(self)@.grid, frame_of(data@)) && views_of(r@)
                    == final(self)@.instructions_for(cs),
    {
        let changes = self.changes(data);
        proof {
            let cs = int_pairs(changes@);
            assert forall|i: int| 0 <= i < changes@.len() implies (#[trigger] changes@[i]).0
                < COLUMNS && changes@[i].1 < ROWS by {
                assert(cs[i].0 < COLUMNS && cs[i].1 < ROWS);
            }
        }
        let r = self.instructions(&changes);
        assert(is_change_list(int_pairs(changes@), old(self)@.grid, frame_of(data@)));
        r
    }

    /// Forgets the last frame and draws every cell anew.
    pub fn redraw(&mut self, data: &GameState) -> (r: Vec<Instruction>)
        requires
            old(self).wf(),
            data.wf(),
        ensures
            final(self).wf(),
            final(self)@ == (OutputView { grid: frame_of(data@), ..old(self)@ }),
            exists|cs: Seq<(int, int)>|
                #[trigger] is_change_list(cs, stale_frame(), frame_of(data@)) && views_of(r@)
                    == final(self)@.instructions_for(cs),
    {
        self.grid = filled_grid(STALE);
        assert(self@.grid == stale_frame());
        self.draw(data)
    }
}

} // verus!
