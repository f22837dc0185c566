use vstd::prelude::*;

use crate::turn::Turn;

verus! {

/// Number of columns of the board.
pub const COLUMNS: usize = 7;

/// Number of rows of the board; row 0 is the top one.
pub const ROWS: usize = 6;

/// The state of one cell.
#[derive(Clone, Copy, Debug, PartialEq, Eq, Structural)]
pub enum Tile {
    Empty,
    PlayerA,
    PlayerB,
}

impl Default for Tile {
    fn default() -> (t: Tile)
        ensures
            t == Tile::Empty,
    {
        Tile::Empty
    }
}

/// The mark that a disc of `turn` leaves in a cell.
pub open spec fn mark(turn: Turn) -> Tile {
    match turn {
        Turn::A => Tile::PlayerA,
        Turn::B => Tile::PlayerB,
    }
}

/// Whether `(c, r)` names a cell of the board.
pub open spec fn in_bounds(c: int, r: int) -> bool {
    0 <= c < COLUMNS && 0 <= r < ROWS
}

/// Where the cell at column `c`, row `r` stands in a board laid out column
/// after column (6 being the number of rows).
pub open spec fn cell_index(c: int, r: int) -> int {
    6 * c + r
}

/// The cell at column `c`, row `r`.
pub open spec fn tile(b: Seq<Tile>, c: int, r: int) -> Tile {
    b[cell_index(c, r)]
}

/// A board of the right size where no disc floats: below every disc
/// (towards the bottom row) there is only discs.
pub open spec fn settled(b: Seq<Tile>) -> bool {
    &&& b.len() == COLUMNS * ROWS
    &&& forall|c: int, r: int|
        #![trigger tile(b, c, r), tile(b, c, r + 1)]
        in_bounds(c, r) && r + 1 < ROWS && tile(b, c, r) != Tile::Empty ==> tile(b, c, r + 1) != Tile::Empty
}

/// The board with no disc on it.
pub open spec fn empty_board() -> Seq<Tile> {
    Seq::new((COLUMNS * ROWS) as nat, |i: int| Tile::Empty)
}

/// The first row at or below `r` in column `c` that holds a disc, or `ROWS`.
pub open spec fn first_filled(b: Seq<Tile>, c: int, r: int) -> int
    decreases ROWS - r,
{
    if r >= ROWS {
        ROWS as int
    } else if tile(b, c, r) != Tile::Empty {
        r
    } else {
        first_filled(b, c, r + 1)
    }
}

/// The row of the topmost disc of column `c`, or `ROWS` when it has none.
pub open spec fn top(b: Seq<Tile>, c: int) -> int {
    first_filled(b, c, 0)
}

/// Whether every cell of column `c` holds a disc.
pub open spec fn column_full(b: Seq<Tile>, c: int) -> bool {
    forall|r: int| 0 <= r < ROWS ==> #[trigger] tile(b, c, r) != Tile::Empty
}

/// Whether every cell of the board holds a disc.
pub open spec fn board_full(b: Seq<Tile>) -> bool {
    forall|c: int, r: int| in_bounds(c, r) ==> #[trigger] tile(b, c, r) != Tile::Empty
}

/// The board after a disc of `turn` falls into column `c`: it lands just
/// above the topmost disc of that column.
pub open spec fn dropped(b: Seq<Tile>, c: int, turn: Turn) -> Seq<Tile> {
    b.update(cell_index(c, top(b, c) - 1), mark(turn))
}

/// The coordinate `k` steps away from `x` in direction `d` (-1, 0 or 1).
pub open spec fn step(x: int, d: int, k: int) -> int {
    if d > 0 {
        x + k
    } else if d < 0 {
        x - k
    } else {
        x
    }
}

/// Whether `(c, r)` is a cell of the board that holds `t`.
pub open spec fn owns(b: Seq<Tile>, c: int, r: int, t: Tile) -> bool {
    in_bounds(c, r) && tile(b, c, r) == t
}

/// The four cells `s, s + 1, s + 2, s + 3` steps away from `(c, r)` along
/// `(dc, dr)` all hold `t`.
pub open spec fn run_of_four(b: Seq<Tile>, c: int, r: int, dc: int, dr: int, s: int, t: Tile) -> bool {
    forall|j: int| s <= j < s + 4 ==> #[trigger] owns(b, step(c, dc, j), step(r, dr, j), t)
}

/// Four cells in a row along `(dc, dr)`, one of them `(c, r)`, all hold `t`.
pub open spec fn four_through(b: Seq<Tile>, c: int, r: int, dc: int, dr: int, t: Tile) -> bool {
    exists|s: int| -3 <= s <= 0 && #[trigger] run_of_four(b, c, r, dc, dr, s, t)
}

/// A line of four cells holding `t` passes through `(c, r)`: horizontally,
/// vertically, or along one of the two diagonals.
pub open spec fn wins_through(b: Seq<Tile>, c: int, r: int, t: Tile) -> bool {
    ||| four_through(b, c, r, 1, 0, t)
    ||| four_through(b, c, r, 0, 1, t)
    ||| four_through(b, c, r, 1, 1, t)
    ||| four_through(b, c, r, 1, -1, t)
}

/// The topmost disc of column `c` lies on a line of four discs of `turn`.
pub open spec fn completes_four(b: Seq<Tile>, c: int, turn: Turn) -> bool {
    top(b, c) < ROWS && wins_through(b, c, top(b, c), mark(turn))
}

proof fn lemma_filled_below(b: Seq<Tile>, c: int, r: int)
    requires
        settled(b),
        in_bounds(c, r),
        tile(b, c, r) != Tile::Empty,
    ensures
        forall|i: int| r <= i < ROWS ==> #[trigger] tile(b, c, i) != Tile::Empty,
    decreases ROWS - r,
{
    if r + 1 < ROWS {
        lemma_filled_below(b, c, r + 1);
    }
}

/// Above the first disc met going down from row `r` there is no disc, and
/// from it down every cell holds one.
proof fn lemma_first_filled(b: Seq<Tile>, c: int, r: int)
    requires
        settled(b),
        0 <= c < COLUMNS,
        0 <= r <= ROWS,
    ensures
        r <= first_filled(b, c, r) <= ROWS,
        forall|i: int| r <= i < first_filled(b, c, r) ==> #[trigger] tile(b, c, i) == Tile::Empty,
        forall|i: int| first_filled(b, c, r) <= i < ROWS ==> #[trigger] tile(b, c, i) != Tile::Empty,
    decreases ROWS - r,
{
    if r < ROWS {
        if tile(b, c, r) == Tile::Empty {
            lemma_first_filled(b, c, r + 1);
        } else {
            lemma_filled_below(b, c, r);
        }
    }
}

/// Distinct cells stand at distinct places.
proof fn lemma_cell_index_injective(c1: int, r1: int, c2: int, r2: int)
    requires
        in_bounds(c1, r1),
        in_bounds(c2, r2),
        cell_index(c1, r1) == cell_index(c2, r2),
    ensures
        c1 == c2,
        r1 == r2,
{
    if c1 < c2 {
        assert(cell_index(c1, r1) < cell_index(c2, r2));
    } else if c2 < c1 {
        assert(cell_index(c2, r2) < cell_index(c1, r1));
    }
}

/// Dropping a disc into a column that is not full keeps every column
/// filled from the bottom up, with no gap.
pub proof fn lemma_drop_keeps_settled(b: Seq<Tile>, c: int, turn: Turn)
    requires
        settled(b),
        0 <= c < COLUMNS,
        !column_full(b, c),
    ensures
        settled(dropped(b, c, turn)),
{
    let row = top(b, c);
    lemma_first_filled(b, c, 0);
    assert(row > 0) by {
        if row == 0 {
            assert forall|r: int| 0 <= r < ROWS implies #[trigger] tile(b, c, r) != Tile::Empty by {}
        }
    }
    assert(tile(b, c, row - 1) == Tile::Empty);
    let nb = dropped(b, c, turn);
    assert forall|c2: int, r2: int|
        #![trigger tile(nb, c2, r2), tile(nb, c2, r2 + 1)]
        in_bounds(c2, r2) && r2 + 1 < ROWS && tile(nb, c2, r2) != Tile::Empty implies tile(nb, c2, r2 + 1)
            != Tile::Empty by {
        if c2 == c && r2 == row - 1 {
            assert(tile(b, c, row) != Tile::Empty);
        } else {
            if cell_index(c2, r2) == cell_index(c, row - 1) {
                lemma_cell_index_injective(c2, r2, c, row - 1);
            }
            assert(tile(nb, c2, r2) == tile(b, c2, r2));
            if c2 == c && r2 + 1 == row - 1 {
                assert(tile(b, c, r2) == Tile::Empty);
            } else {
                if cell_index(c2, r2 + 1) == cell_index(c, row - 1) {
                    lemma_cell_index_injective(c2, r2 + 1, c, row - 1);
                }
                assert(tile(b, c2, r2 + 1) != Tile::Empty);
                assert(tile(nb, c2, r2 + 1) == tile(b, c2, r2 + 1));
            }
        }
    }
}

/// The 7 x 6 connect-four board.
pub struct Grid {
    cells: Vec<Tile>,
}

impl View for Grid {
    type V = Seq<Tile>;

    /// The cells, column after column, each column from the top row down.
    closed spec fn view(&self) -> Seq<Tile> {
        self.cells@
    }
}

fn mark_of(turn: Turn) -> (t: Tile)
    ensures
        t == mark(turn),
{
    match turn {
        Turn::A => Tile::PlayerA,
        Turn::B => Tile::PlayerB,
    }
}

fn shift(x: isize, d: isize, k: isize) -> (y: isize)
    requires
        -16 <= x <= 16,
        -1 <= d <= 1,
        -4 <= k <= 4,
    ensures
        y == step(x as int, d as int, k as int),
{
    if d > 0 {
        x + k
    } else if d < 0 {
        x - k
    } else {
        x
    }
}

impl Grid {
    /// The board keeps its size and no disc floats.
    pub open spec fn wf(&self) -> bool {
        settled(self@)
    }

    /// Creates an empty board.
    pub fn new() -> (g: Grid)
        ensures
            g.wf(),
            g@ == empty_board(),
    {
        let mut cells: Vec<Tile> = Vec::new();
        let mut i: usize = 0;
        while i < COLUMNS * ROWS
            invariant
                i <= COLUMNS * ROWS,
                cells@.len() == i,
                forall|j: int| 0 <= j < i ==> cells@[j] == Tile::Empty,
            decreases COLUMNS * ROWS - i,
        {
            cells.push(Tile::Empty);
            i += 1;
        }
        let g = Grid { cells };
        assert(g@ =~= empty_board());
        assert forall|c: int, r: int|
            #![trigger tile(g@, c, r), tile(g@, c, r + 1)]
            in_bounds(c, r) && r + 1 < ROWS && tile(g@, c, r) != Tile::Empty implies tile(g@, c, r + 1)
                != Tile::Empty by {
            assert(0 <= cell_index(c, r) < cell_index(c, r + 1) < COLUMNS * ROWS);
        }
        g
    }

    /// The cell at `column` and `row` (row 0 is the top one).
    pub fn tile_at(&self, column: usize, row: usize) -> (t: Tile)
        requires
            self.wf(),
            column < COLUMNS,
            row < ROWS,
        ensures
            t == tile(self@, column as int, row as int),
    {
        self.cells[6 * column + row]
    }

    /// The row of the topmost disc of `column`, or `ROWS` when it is empty.
    fn landing_row(&self, column: usize) -> (row: usize)
        requires
            self.wf(),
            column < COLUMNS,
        ensures
            row == top(self@, column as int),
            row <= ROWS,
    {
        let mut row: usize = 0;
        while row < ROWS && self.cells[6 * column + row] == Tile::Empty
            invariant
                self.wf(),
                column < COLUMNS,
                row <= ROWS,
                top(self@, column as int) == first_filled(self@, column as int, row as int),
            decreases ROWS - row,
        {
            row += 1;
        }
        row
    }

    /// Drops a disc of `turn` into `column`. Returns false, and leaves the
    /// board as it is, when the column is already full.
    pub fn insert_disc(&mut self, column: usize, turn: Turn) -> (placed: bool)
        requires
            old(self).wf(),
            column < COLUMNS,
        ensures
            final(self).wf(),
            placed == !column_full(old(self)@, column as int),
            placed ==> final(self)@ == dropped(old(self)@, column as int, turn),
            !placed ==> final(self)@ == old(self)@,
    {
        let row = self.landing_row(column);
        proof {
            lemma_first_filled(self@, column as int, 0);
        }
        if row == 0 {
            return false;
        }
        proof {
            lemma_drop_keeps_settled(self@, column as int, turn);
        }
        let t = mark_of(turn);
        self.cells.set(6 * column + row - 1, t);
        true
    }

    /// Whether `(c, r)` is a cell of the board that holds `t`.
    fn holds(&self, c: isize, r: isize, t: Tile) -> (found: bool)
        requires
            self.wf(),
        ensures
            found == owns(self@, c as int, r as int, t),
    {
        if 0 <= c && c < COLUMNS as isize && 0 <= r && r < ROWS as isize {
            self.cells[6 * (c as usize) + r as usize] == t
        } else {
            false
        }
    }

    /// Scans the seven cells from three steps before `(column, row)` to three
    /// steps after it along `(dc, dr)`, counting consecutive discs of `t`.
    fn four_on_line(&self, column: usize, row: usize, dc: isize, dr: isize, t: Tile) -> (found:
        bool)
        requires
            self.wf(),
            column < COLUMNS,
            row < ROWS,
            -1 <= dc <= 1,
            -1 <= dr <= 1,
        ensures
            found == four_through(self@, column as int, row as int, dc as int, dr as int, t),
    {
        let ghost b = self@;
        let ghost c = column as int;
        let ghost r = row as int;
        let mut count: isize = 0;
        let mut k: isize = -3;
        while k <= 3
            invariant
                self.wf(),
                b == self@,
                c == column,
                r == row,
                column < COLUMNS,
                row < ROWS,
                -1 <= dc <= 1,
                -1 <= dr <= 1,
                -3 <= k <= 4,
                0 <= count <= 3,
                count <= k + 3,
                forall|j: int|
                    k - count <= j < k ==> #[trigger] owns(
                        b,
                        step(c, dc as int, j),
                        step(r, dr as int, j),
                        t,
                    ),
                k - count > -3 ==> !owns(
                    b,
                    step(c, dc as int, k - count - 1),
                    step(r, dr as int, k - count - 1),
                    t,
                ),
                forall|s: int|
                    -3 <= s && s + 4 <= k ==> !#[trigger] run_of_four(
                        b,
                        c,
                        r,
                        dc as int,
                        dr as int,
                        s,
                        t,
                    ),
            decreases 4 - k,
        {
            let cc = shift(column as isize, dc, k);
            let rr = shift(row as isize, dr, k);
            if self.holds(cc, rr, t) {
                if count == 3 {
                    assert(run_of_four(b, c, r, dc as int, dr as int, k - 3, t));
                    return true;
                }
                proof {
                    if k >= 0 {
                        assert(!owns(
                            b,
                            step(c, dc as int, k - count - 1),
                            step(r, dr as int, k - count - 1),
                            t,
                        ));
                        assert(!run_of_four(b, c, r, dc as int, dr as int, k - 3, t));
                    }
                }
                count += 1;
            } else {
                proof {
                    if k >= 0 {
                        assert(!owns(b, step(c, dc as int, k as int), step(r, dr as int, k as int), t));
                        assert(!run_of_four(b, c, r, dc as int, dr as int, k - 3, t));
                    }
                }
                count = 0;
            }
            k += 1;
        }
        false
    }

    /// Whether the topmost disc of `column`, the one just dropped by `turn`,
    /// lies on a line of four discs of `turn` in any of the four directions.
    /// False when the column is empty.
    pub fn is_win(&self, column: usize, turn: Turn) -> (won: bool)
        requires
            self.wf(),
            column < COLUMNS,
        ensures
            won == completes_four(self@, column as int, turn),
    {
        let row = self.landing_row(column);
        if row == ROWS {
            return false;
        }
        let t = mark_of(turn);
        self.four_on_line(column, row, 1, 0, t) || self.four_on_line(column, row, 0, 1, t)
            || self.four_on_line(column, row, 1, 1, t) || self.four_on_line(column, row, 1, -1, t)
    }

    /// Whether every cell of the board holds a disc.
    pub fn is_full(&self) -> (full: bool)
        requires
            self.wf(),
        ensures
            full == board_full(self@),
    {
        let mut c: usize = 0;
        while c < COLUMNS
            invariant
                self.wf(),
                c <= COLUMNS,
                forall|i: int, j: int|
                    0 <= i < c && 0 <= j < ROWS ==> #[trigger] tile(self@, i, j) != Tile::Empty,
            decreases COLUMNS - c,
        {
            let mut r: usize = 0;
            while r < ROWS
                invariant
                    self.wf(),
                    c < COLUMNS,
                    r <= ROWS,
                    forall|i: int, j: int|
                        0 <= i < c && 0 <= j < ROWS ==> #[trigger] tile(self@, i, j)
                            != Tile::Empty,
                    forall|j: int| 0 <= j < r ==> #[trigger] tile(self@, c as int, j) != Tile::Empty,
                decreases ROWS - r,
            {
                if self.cells[6 * c + r] == Tile::Empty {
                    assert(tile(self@, c as int, r as int) == Tile::Empty);
                    return false;
                }
                r += 1;
            }
            c += 1;
        }
        true
    }
}

} // verus!
