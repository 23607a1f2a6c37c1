//! The board: an N-by-N grid of cells, gravity placement, and the
//! win/stalemate evaluator.
//!
//! The grid is modelled as a sequence of rows, each a sequence of cells; row 0
//! is the top of the board and row N-1 the bottom, so gravity fills toward the
//! highest row index.  Every mutating operation states exactly how the new
//! grid and game state relate to the old ones.

use vstd::prelude::*;

verus! {

/// One of the two factions that may occupy a cell.
#[derive(Clone, Copy, Debug, PartialEq, Eq, Structural)]
pub enum Team {
    Cookie,
    Milk,
}

/// The phase of a game.  `Won` and `Stalemate` are terminal: no placement is
/// accepted in them until the board is reset.
#[derive(Clone, Copy, Debug, PartialEq, Eq, Structural)]
pub enum GameState {
    Won(Team),
    Stalemate,
    NotYetWon,
}

/// The ways a placement can be rejected.  All are recoverable and leave the
/// board untouched.
#[derive(Clone, Copy, Debug, PartialEq, Eq, Structural)]
pub enum BoardError {
    ColumnFull,
    OutOfBound,
    GameOver,
}

/// The mathematical view of a grid's cell storage: one sequence per row.
pub open spec fn cells_view(cells: Seq<Vec<Option<Team>>>) -> Seq<Seq<Option<Team>>> {
    cells.map_values(|row: Vec<Option<Team>>| row@)
}

/// The grid of a freshly built or freshly reset board: every cell empty.
pub open spec fn empty_grid(n: int) -> Seq<Seq<Option<Team>>> {
    Seq::new(n as nat, |r: int| Seq::new(n as nat, |c: int| None::<Team>))
}

/// A grid is well formed when it is a non-degenerate square: n rows, each of
/// n cells.
pub open spec fn grid_wf(g: Seq<Seq<Option<Team>>>, n: int) -> bool {
    &&& n >= 1
    &&& g.len() == n
    &&& forall|r: int| 0 <= r < n ==> (#[trigger] g[r]).len() == n
}

/// Row `r` is entirely occupied by `t`.
pub open spec fn row_won(g: Seq<Seq<Option<Team>>>, n: int, r: int, t: Team) -> bool {
    forall|c: int| 0 <= c < n ==> g[r][c] == Some(t)
}

/// Column `c` is entirely occupied by `t`.
pub open spec fn col_won(g: Seq<Seq<Option<Team>>>, n: int, c: int, t: Team) -> bool {
    forall|r: int| 0 <= r < n ==> g[r][c] == Some(t)
}

/// The top-left to bottom-right diagonal is entirely occupied by `t`.
pub open spec fn main_diag_won(g: Seq<Seq<Option<Team>>>, n: int, t: Team) -> bool {
    forall|i: int| 0 <= i < n ==> g[i][i] == Some(t)
}

/// The anti-diagonal (the cells with row + column == n - 1) is entirely
/// occupied by `t`.
pub open spec fn anti_diag_won(g: Seq<Seq<Option<Team>>>, n: int, t: Team) -> bool {
    forall|i: int| 0 <= i < n ==> g[i][n - 1 - i] == Some(t)
}

/// Every cell of the grid is occupied.
pub open spec fn grid_full(g: Seq<Seq<Option<Team>>>, n: int) -> bool {
    forall|r: int, c: int| 0 <= r < n && 0 <= c < n ==> (#[trigger] g[r][c]) is Some
}

/// Every cell of column `c` is occupied.
pub open spec fn column_full(g: Seq<Seq<Option<Team>>>, n: int, c: int) -> bool {
    forall|r: int| 0 <= r < n ==> (#[trigger] g[r][c]) is Some
}

/// `t` owns a complete row, a complete column, or one of the two main
/// diagonals.
pub open spec fn has_line(g: Seq<Seq<Option<Team>>>, n: int, t: Team) -> bool {
    ||| exists|r: int| 0 <= r < n && row_won(g, n, r, t)
    ||| exists|c: int| 0 <= c < n && col_won(g, n, c, t)
    ||| main_diag_won(g, n, t)
    ||| anti_diag_won(g, n, t)
}

/// The row a token dropped into column `c` comes to rest in, scanning the
/// first `k` rows: the highest row index whose cell in `c` is empty, or -1
/// when all of them are occupied.
pub open spec fn drop_row(g: Seq<Seq<Option<Team>>>, k: int, c: int) -> int
    decreases k,
{
    if k <= 0 {
        -1
    } else if g[k - 1][c] is None {
        k - 1
    } else {
        drop_row(g, k - 1, c)
    }
}

/// The state the evaluator derives right after `t` was placed at `(r, c)`:
/// a win if the placed row, the placed column, or either full diagonal is
/// entirely `t`'s; otherwise stalemate on a full grid, and an open game on a
/// grid with an empty cell.
pub open spec fn eval_placement(
    g: Seq<Seq<Option<Team>>>,
    n: int,
    r: int,
    c: int,
    t: Team,
) -> GameState {
    if row_won(g, n, r, t) || col_won(g, n, c, t) || main_diag_won(g, n, t) || anti_diag_won(
        g,
        n,
        t,
    ) {
        GameState::Won(t)
    } else if grid_full(g, n) {
        GameState::Stalemate
    } else {
        GameState::NotYetWon
    }
}

/// An N-by-N board together with the current phase of its game.  The size is
/// fixed at construction; only `reset` returns the grid to all-empty, and
/// only a successful `set_column` occupies a cell.
pub struct Board {
    n: usize,
    cells: Vec<Vec<Option<Team>>>,
    game_state: GameState,
}

impl Board {
    /// The board's side length.
    pub closed spec fn size_spec(&self) -> int {
        self.n as int
    }

    /// The board's grid as a sequence of row sequences.
    pub closed spec fn grid(&self) -> Seq<Seq<Option<Team>>> {
        cells_view(self.cells@)
    }

    /// The current phase of the game.
    pub closed spec fn state(&self) -> GameState {
        self.game_state
    }

    /// The board is a well-formed square.
    pub open spec fn wf(&self) -> bool {
        grid_wf(self.grid(), self.size_spec())
    }

    /// Builds an empty n-by-n board with the game still open.
    pub fn new(n: usize) -> (b: Board)
        requires
            1 <= n,
        ensures
            b.wf(),
            b.size_spec() == n,
            b.grid() == empty_grid(n as int),
            b.state() == GameState::NotYetWon,
    {
        let cells = empty_cells(n);
        let b = Board { n, cells, game_state: GameState::NotYetWon };
        proof {
            assert(b.grid() =~~= empty_grid(n as int));
        }
        b
    }

    /// Builds an n-by-n board on which every cell — not just the empty ones
    /// of some earlier game — is assigned a team by a fresh draw from the
    /// given random source.  Placement rules are bypassed and the evaluator
    /// is not consulted: the resulting state is `NotYetWon` even when the
    /// random fill already contains a winning line.
    pub fn new_randomized(n: usize, rng: &mut rand::rngs::StdRng) -> (b: Board)
        requires
            1 <= n,
        ensures
            b.wf(),
            b.size_spec() == n,
            b.state() == GameState::NotYetWon,
            forall|r: int, c: int|
                0 <= r < n && 0 <= c < n ==> (#[trigger] b.grid()[r][c]) is Some,
    {
        let mut cells: Vec<Vec<Option<Team>>> = Vec::new();
        let mut r: usize = 0;
        while r < n
            invariant
                r <= n,
                cells@.len() == r,
                forall|i: int| 0 <= i < r ==> (#[trigger] cells@[i])@.len() == n,
                forall|i: int, j: int|
                    0 <= i < r && 0 <= j < n ==> (#[trigger] cells@[i]@[j]) is Some,
            decreases n - r,
        {
            let mut row: Vec<Option<Team>> = Vec::new();
            let mut c: usize = 0;
            while c < n
                invariant
                    c <= n,
                    row@.len() == c,
                    forall|j: int| 0 <= j < c ==> (#[trigger] row@[j]) is Some,
                decreases n - c,
            {
                let team = if crate::random::random_bool(rng) {
                    Team::Cookie
                } else {
                    Team::Milk
                };
                row.push(Some(team));
                c += 1;
            }
            cells.push(row);
            r += 1;
        }
        let b = Board { n, cells, game_state: GameState::NotYetWon };
        proof {
            assert(forall|i: int|
                0 <= i < n ==> (#[trigger] b.grid()[i]) == b.cells@[i]@);
        }
        b
    }

    /// Clears every cell and reopens the game.  The side length is kept.
    pub fn reset(&mut self)
        requires
            old(self).wf(),
        ensures
            final(self).wf(),
            final(self).size_spec() == old(self).size_spec(),
            final(self).grid() == empty_grid(old(self).size_spec()),
            final(self).state() == GameState::NotYetWon,
    {
        let n = self.n;
        self.cells = empty_cells(n);
        self.game_state = GameState::NotYetWon;
        proof {
            assert(self.grid() =~~= empty_grid(n as int));
        }
    }

    /// The board's side length.
    pub fn size(&self) -> (n: usize)
        ensures
            n == self.size_spec(),
    {
        self.n
    }

    /// The current phase of the game.
    pub fn game_state(&self) -> (s: GameState)
        ensures
            s == self.state(),
    {
        self.game_state
    }

    /// Attempts to drop a token of `value` into `col`.  On success the token
    /// occupies the bottom-most empty cell of the column and the evaluator
    /// recomputes the game state; a rejected placement leaves the board
    /// exactly as it was.
    pub fn set_column(&mut self, value: Team, col: usize) -> (result: Result<(), BoardError>)
        requires
            old(self).wf(),
        ensures
            final(self).wf(),
            final(self).size_spec() == old(self).size_spec(),
            match result {
                Ok(()) => ({
                    let n = old(self).size_spec();
                    let g = old(self).grid();
                    let rr = drop_row(g, n, col as int);
                    &&& !(old(self).state() is Won)
                    &&& col < n
                    &&& !column_full(g, n, col as int)
                    &&& 0 <= rr < n
                    &&& final(self).grid() == g.update(rr, g[rr].update(col as int, Some(value)))
                    &&& final(self).state() == eval_placement(
                        final(self).grid(),
                        n,
                        rr,
                        col as int,
                        value,
                    )
                }),
                Err(BoardError::GameOver) => old(self).state() is Won && *final(self) == *old(
                    self,
                ),
                Err(BoardError::OutOfBound) => !(old(self).state() is Won) && col >= old(
                    self,
                ).size_spec() && *final(self) == *old(self),
                Err(BoardError::ColumnFull) => !(old(self).state() is Won) && col < old(
                    self,
                ).size_spec() && column_full(old(self).grid(), old(self).size_spec(), col as int)
                    && *final(self) == *old(self),
            },
    {
        if matches!(self.game_state, GameState::Won(_)) {
            return Err(BoardError::GameOver);
        }
        if col >= self.n {
            return Err(BoardError::OutOfBound);
        }
        if self.column_is_full(col) {
            return Err(BoardError::ColumnFull);
        }
        let row = self.lowest_empty_row(col);
        let ghost old_grid = self.grid();
        proof {
            assert(self.grid()[row as int] == self.cells@[row as int]@);
        }
        self.cells[row][col] = Some(value);
        proof {
            assert(self.grid() =~~= old_grid.update(
                row as int,
                old_grid[row as int].update(col as int, Some(value)),
            ));
        }
        let st = self.update_game_state(value, row, col);
        self.game_state = st;
        Ok(())
    }

    /// Whether every cell of column `col` is occupied.
    fn column_is_full(&self, col: usize) -> (b: bool)
        requires
            self.wf(),
            col < self.size_spec(),
        ensures
            b == column_full(self.grid(), self.size_spec(), col as int),
    {
        let mut r: usize = 0;
        while r < self.n
            invariant
                self.wf(),
                col < self.size_spec(),
                r <= self.n,
                forall|i: int| 0 <= i < r ==> (#[trigger] self.grid()[i][col as int]) is Some,
            decreases self.n - r,
        {
            proof {
                assert(self.grid()[r as int] == self.cells@[r as int]@);
            }
            if self.cells[r][col].is_none() {
                proof {
                    assert(self.grid()[r as int][col as int] is None);
                }
                return false;
            }
            r += 1;
        }
        true
    }

    /// The bottom-most empty row of a column that is not full: the row a
    /// dropped token comes to rest in.
    fn lowest_empty_row(&self, col: usize) -> (row: usize)
        requires
            self.wf(),
            col < self.size_spec(),
            !column_full(self.grid(), self.size_spec(), col as int),
        ensures
            row < self.size_spec(),
            row as int == drop_row(self.grid(), self.size_spec(), col as int),
            self.grid()[row as int][col as int] is None,
    {
        let mut r: usize = self.n;
        while r > 0
            invariant
                self.wf(),
                col < self.size_spec(),
                !column_full(self.grid(), self.size_spec(), col as int),
                r <= self.n,
                drop_row(self.grid(), self.size_spec(), col as int) == drop_row(
                    self.grid(),
                    r as int,
                    col as int,
                ),
            decreases r,
        {
            let rr = r - 1;
            proof {
                assert(self.grid()[rr as int] == self.cells@[rr as int]@);
            }
            if self.cells[rr][col].is_none() {
                return rr;
            }
            r = rr;
        }
        proof {
            assert(column_full(self.grid(), self.size_spec(), col as int)) by {
                assert(forall|i: int|
                    0 <= i < self.size_spec() ==> (#[trigger] self.grid()[i][col as int])
                        is Some) by {
                    assert(drop_row(self.grid(), 0, col as int) == -1);
                    lemma_drop_row_character(self.grid(), self.size_spec(), col as int);
                }
            }
            assert(false);
        }
        0
    }

    /// Derives the game state right after `value` was placed at
    /// `(row, col)`: the placed row and column and both full diagonals are
    /// inspected, then fullness decides between stalemate and an open game.
    fn update_game_state(&self, value: Team, row: usize, col: usize) -> (s: GameState)
        requires
            self.wf(),
            row < self.size_spec(),
            col < self.size_spec(),
        ensures
            s == eval_placement(self.grid(), self.size_spec(), row as int, col as int, value),
    {
        if self.row_is_won(value, row) || self.col_is_won(value, col) || self.main_diag_is_won(
            value,
        ) || self.anti_diag_is_won(value) {
            GameState::Won(value)
        } else if self.is_full() {
            GameState::Stalemate
        } else {
            GameState::NotYetWon
        }
    }

    /// Whether row `row` is entirely occupied by `value`.
    fn row_is_won(&self, value: Team, row: usize) -> (b: bool)
        requires
            self.wf(),
            row < self.size_spec(),
        ensures
            b == row_won(self.grid(), self.size_spec(), row as int, value),
    {
        let mut c: usize = 0;
        while c < self.n
            invariant
                self.wf(),
                row < self.size_spec(),
                c <= self.n,
                forall|j: int| 0 <= j < c ==> self.grid()[row as int][j] == Some(value),
            decreases self.n - c,
        {
            proof {
                assert(self.grid()[row as int] == self.cells@[row as int]@);
            }
            match self.cells[row][c] {
                Some(t) => {
                    if !(t == value) {
                        return false;
                    }
                },
                None => {
                    return false;
                },
            }
            c += 1;
        }
        true
    }

    /// Whether column `col` is entirely occupied by `value`.
    fn col_is_won(&self, value: Team, col: usize) -> (b: bool)
        requires
            self.wf(),
            col < self.size_spec(),
        ensures
            b == col_won(self.grid(), self.size_spec(), col as int, value),
    {
        let mut r: usize = 0;
        while r < self.n
            invariant
                self.wf(),
                col < self.size_spec(),
                r <= self.n,
                forall|i: int| 0 <= i < r ==> self.grid()[i][col as int] == Some(value),
            decreases self.n - r,
        {
            proof {
                assert(self.grid()[r as int] == self.cells@[r as int]@);
            }
            match self.cells[r][col] {
                Some(t) => {
                    if !(t == value) {
                        return false;
                    }
                },
                None => {
                    return false;
                },
            }
            r += 1;
        }
        true
    }

    /// Whether the top-left to bottom-right diagonal is entirely occupied by
    /// `value`.
    fn main_diag_is_won(&self, value: Team) -> (b: bool)
        requires
            self.wf(),
        ensures
            b == main_diag_won(self.grid(), self.size_spec(), value),
    {
        let mut i: usize = 0;
        while i < self.n
            invariant
                self.wf(),
                i <= self.n,
                forall|k: int| 0 <= k < i ==> self.grid()[k][k] == Some(value),
            decreases self.n - i,
        {
            proof {
                assert(self.grid()[i as int] == self.cells@[i as int]@);
            }
            match self.cells[i][i] {
                Some(t) => {
                    if !(t == value) {
                        return false;
                    }
                },
                None => {
                    return false;
                },
            }
            i += 1;
        }
        true
    }

    /// Whether the anti-diagonal is entirely occupied by `value`.
    fn anti_diag_is_won(&self, value: Team) -> (b: bool)
        requires
            self.wf(),
        ensures
            b == anti_diag_won(self.grid(), self.size_spec(), value),
    {
        let mut i: usize = 0;
        while i < self.n
            invariant
                self.wf(),
                i <= self.n,
                forall|k: int| 0 <= k < i ==> self.grid()[k][self.size_spec() - 1 - k] == Some(
                    value,
                ),
            decreases self.n - i,
        {
            let j = self.n - 1 - i;
            proof {
                assert(self.grid()[i as int] == self.cells@[i as int]@);
            }
            match self.cells[i][j] {
                Some(t) => {
                    if !(t == value) {
                        return false;
                    }
                },
                None => {
                    return false;
                },
            }
            i += 1;
        }
        true
    }

    /// Whether every cell of the grid is occupied.
    fn is_full(&self) -> (b: bool)
        requires
            self.wf(),
        ensures
            b == grid_full(self.grid(), self.size_spec()),
    {
        let mut r: usize = 0;
        while r < self.n
            invariant
                self.wf(),
                r <= self.n,
                forall|i: int, j: int|
                    0 <= i < r && 0 <= j < self.size_spec() ==> (#[trigger] self.grid()[i][j])
                        is Some,
            decreases self.n - r,
        {
            let mut c: usize = 0;
            while c < self.n
                invariant
                    self.wf(),
                    r < self.n,
                    c <= self.n,
                    forall|i: int, j: int|
                        0 <= i < r && 0 <= j < self.size_spec() ==> (#[trigger] self.grid()[i][j])
                            is Some,
                    forall|j: int|
                        0 <= j < c ==> (#[trigger] self.grid()[r as int][j]) is Some,
                decreases self.n - c,
            {
                proof {
                    assert(self.grid()[r as int] == self.cells@[r as int]@);
                }
                if self.cells[r][c].is_none() {
                    proof {
                        assert(self.grid()[r as int][c as int] is None);
                    }
                    return false;
                }
                c += 1;
            }
            r += 1;
        }
        true
    }

    /// Reads one cell.
    pub fn cell(&self, row: usize, col: usize) -> (c: Option<Team>)
        requires
            self.wf(),
            row < self.size_spec(),
            col < self.size_spec(),
        ensures
            c == self.grid()[row as int][col as int],
    {
        proof {
            assert(self.grid()[row as int] == self.cells@[row as int]@);
        }
        self.cells[row][col]
    }
}

impl Default for Board {
    /// The default board is the empty four-by-four one.
    fn default() -> (b: Board)
        ensures
            b.wf(),
            b.size_spec() == 4,
            b.grid() == empty_grid(4),
            b.state() == GameState::NotYetWon,
    {
        Board::new(4)
    }
}

/// Builds the cell storage of an empty n-by-n grid.
fn empty_cells(n: usize) -> (cells: Vec<Vec<Option<Team>>>)
    requires
        1 <= n,
    ensures
        cells_view(cells@) == empty_grid(n as int),
{
    let mut cells: Vec<Vec<Option<Team>>> = Vec::new();
    let mut r: usize = 0;
    while r < n
        invariant
            r <= n,
            cells@.len() == r,
            forall|i: int| 0 <= i < r ==> (#[trigger] cells@[i])@ =~= empty_grid(n as int)[i],
        decreases n - r,
    {
        let mut row: Vec<Option<Team>> = Vec::new();
        let mut c: usize = 0;
        while c < n
            invariant
                c <= n,
                row@.len() == c,
                forall|j: int| 0 <= j < c ==> (#[trigger] row@[j]) is None,
            decreases n - c,
        {
            row.push(None);
            c += 1;
        }
        proof {
            assert(row@ =~= empty_grid(n as int)[r as int]);
        }
        cells.push(row);
        r += 1;
    }
    proof {
        assert(cells_view(cells@) =~~= empty_grid(n as int));
    }
    cells
}

/// A freshly built or freshly reset grid has every cell empty: together with
/// the contracts of `Board::new` and `Board::reset`, whose resulting grid is
/// `empty_grid(n)` and whose resulting state is `NotYetWon`, this says that a
/// fresh board of any size is entirely empty with the game open.
pub proof fn lemma_empty_grid_all_empty(n: int)
    requires
        n >= 1,
    ensures
        grid_wf(empty_grid(n), n),
        forall|r: int, c: int|
            0 <= r < n && 0 <= c < n ==> (#[trigger] empty_grid(n)[r][c]) is None,
{
}

/// Gravity fills a column from the bottom up: in a column that is not full,
/// the row a placement fills is empty and every row below it is already
/// occupied.  With the contract of `set_column` — which fills exactly
/// `drop_row` of the chosen column and rejects a full column with
/// `ColumnFull` and no state change — this says that successive placements
/// into one column occupy the lowest empty row first, until the column
/// rejects the next one.
pub proof fn lemma_drop_row_is_bottom_most_empty(g: Seq<Seq<Option<Team>>>, n: int, c: int)
    requires
        grid_wf(g, n),
        0 <= c < n,
        !column_full(g, n, c),
    ensures
        ({
            let rr = drop_row(g, n, c);
            &&& 0 <= rr < n
            &&& g[rr][c] is None
            &&& forall|i: int| rr < i < n ==> (#[trigger] g[i][c]) is Some
        }),
{
    lemma_drop_row_character(g, n, c);
    if drop_row(g, n, c) == -1 {
        assert(forall|i: int| 0 <= i < n ==> (#[trigger] g[i][c]) is Some);
        assert(column_full(g, n, c));
        assert(false);
    }
}

/// A column is full exactly when `drop_row` finds no resting place in it.
pub proof fn lemma_column_full_iff_no_drop_row(g: Seq<Seq<Option<Team>>>, n: int, c: int)
    requires
        grid_wf(g, n),
        0 <= c < n,
    ensures
        column_full(g, n, c) <==> drop_row(g, n, c) == -1,
{
    lemma_drop_row_character(g, n, c);
    if column_full(g, n, c) && drop_row(g, n, c) >= 0 {
        assert(g[drop_row(g, n, c)][c] is Some);
        assert(false);
    }
    if drop_row(g, n, c) == -1 {
        assert(forall|i: int| 0 <= i < n ==> (#[trigger] g[i][c]) is Some);
        assert(column_full(g, n, c));
    }
}

/// A completely filled grid on which neither team owns a row, a column or a
/// diagonal evaluates to a stalemate, wherever the last token was placed.
pub proof fn lemma_full_without_line_is_stalemate(
    g: Seq<Seq<Option<Team>>>,
    n: int,
    r: int,
    c: int,
    t: Team,
)
    requires
        grid_wf(g, n),
        grid_full(g, n),
        !has_line(g, n, Team::Cookie),
        !has_line(g, n, Team::Milk),
        0 <= r < n,
        0 <= c < n,
    ensures
        eval_placement(g, n, r, c, t) == GameState::Stalemate,
{
    assert(!has_line(g, n, t)) by {
        match t {
            Team::Cookie => {},
            Team::Milk => {},
        }
    }
    if row_won(g, n, r, t) {
        assert(has_line(g, n, t)) by {
            assert(0 <= r < n && row_won(g, n, r, t));
        }
    }
    if col_won(g, n, c, t) {
        assert(has_line(g, n, t)) by {
            assert(0 <= c < n && col_won(g, n, c, t));
        }
    }
}

/// What `drop_row` finds when it scans the first `k` rows of column `c`:
/// either -1, and then none of those rows is empty in `c`, or the highest
/// row index among them whose cell in `c` is empty.
pub proof fn lemma_drop_row_character(g: Seq<Seq<Option<Team>>>, k: int, c: int)
    ensures
        ({
            let rr = drop_row(g, k, c);
            &&& rr >= -1
            &&& rr == -1 ==> forall|i: int| 0 <= i < k ==> (#[trigger] g[i][c]) is Some
            &&& rr >= 0 ==> {
                &&& rr < k
                &&& g[rr][c] is None
                &&& forall|i: int| rr < i < k ==> (#[trigger] g[i][c]) is Some
            }
        }),
    decreases k,
{
    if k > 0 {
        lemma_drop_row_character(g, k - 1, c);
    }
}

} // verus!
