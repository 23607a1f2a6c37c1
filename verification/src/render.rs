//! The renderer: a stable text depiction of a board.
//!
//! Each row of cells is framed by a wall glyph on either side, a full wall
//! row of length N + 2 closes the picture, and a terminal annotation line
//! follows when the game has ended.  The output is pinned, character for
//! character, as a function of the grid and the game state alone, so
//! rendering can never disturb or be disturbed by the game.

use crate::board::Board;
use crate::board::GameState;
use crate::board::Team;
use vstd::prelude::*;
use vstd::string::StringExecFns;

verus! {

/// The glyph a team is drawn with.
pub open spec fn team_glyph(t: Team) -> Seq<char> {
    match t {
        Team::Cookie => "\u{1f36a}"@,
        Team::Milk => "\u{1f95b}"@,
    }
}

/// The glyph a cell is drawn with: its team's glyph, or the empty-cell
/// glyph.
pub open spec fn cell_glyph(c: Option<Team>) -> Seq<char> {
    match c {
        Some(t) => team_glyph(t),
        None => "\u{2b1b}"@,
    }
}

/// The wall glyph that frames the board.
pub open spec fn wall_glyph() -> Seq<char> {
    "\u{2b1c}"@
}

/// The first `k` cell glyphs of row `r`.
pub open spec fn row_cells_text(g: Seq<Seq<Option<Team>>>, r: int, k: int) -> Seq<char>
    decreases k,
{
    if k <= 0 {
        Seq::empty()
    } else {
        row_cells_text(g, r, k - 1) + cell_glyph(g[r][k - 1])
    }
}

/// One rendered row: wall, n cells, wall, newline.
pub open spec fn row_text(g: Seq<Seq<Option<Team>>>, n: int, r: int) -> Seq<char> {
    wall_glyph() + row_cells_text(g, r, n) + wall_glyph() + "\n"@
}

/// The first `k` rendered rows.
pub open spec fn rows_text(g: Seq<Seq<Option<Team>>>, n: int, k: int) -> Seq<char>
    decreases k,
{
    if k <= 0 {
        Seq::empty()
    } else {
        rows_text(g, n, k - 1) + row_text(g, n, k - 1)
    }
}

/// A run of `k` wall glyphs.
pub open spec fn wall_run(k: int) -> Seq<char>
    decreases k,
{
    if k <= 0 {
        Seq::empty()
    } else {
        wall_run(k - 1) + wall_glyph()
    }
}

/// The end-of-game annotation: the winner's glyph and ` wins!` on a win,
/// `No winner.` on a stalemate, and nothing while the game is open.
pub open spec fn annotation_text(s: GameState) -> Seq<char> {
    match s {
        GameState::Won(t) => team_glyph(t) + " wins!\n"@,
        GameState::Stalemate => "No winner.\n"@,
        GameState::NotYetWon => Seq::empty(),
    }
}

/// The whole rendered board: n framed rows, a bottom wall of n + 2 glyphs,
/// then the annotation.
pub open spec fn render_text(g: Seq<Seq<Option<Team>>>, n: int, s: GameState) -> Seq<char> {
    rows_text(g, n, n) + wall_run(n + 2) + "\n"@ + annotation_text(s)
}

impl Board {
    /// Renders the board.  The output is a pure function of the grid and
    /// the game state: two calls on an unchanged board return the same
    /// text, and rendering mutates nothing.
    pub fn render(&self) -> (out: String)
        requires
            self.wf(),
        ensures
            out@ == render_text(self.grid(), self.size_spec(), self.state()),
    {
        let ghost g = self.grid();
        let n = self.size();
        let ghost ni = n as int;
        let mut out = String::new();
        let mut r: usize = 0;
        while r < n
            invariant
                self.wf(),
                n == self.size_spec(),
                r <= n,
                out@ == rows_text(g, ni, r as int),
                g == self.grid(),
                ni == n as int,
            decreases n - r,
        {
            out.append("\u{2b1c}");
            let mut c: usize = 0;
            while c < n
                invariant
                    self.wf(),
                    n == self.size_spec(),
                    r < n,
                    c <= n,
                    out@ == rows_text(g, ni, r as int) + wall_glyph() + row_cells_text(
                        g,
                        r as int,
                        c as int,
                    ),
                    g == self.grid(),
                    ni == n as int,
                decreases n - c,
            {
                let cell = self.cell(r, c);
                match cell {
                    Some(Team::Cookie) => out.append("\u{1f36a}"),
                    Some(Team::Milk) => out.append("\u{1f95b}"),
                    None => out.append("\u{2b1b}"),
                }
                proof {
                    assert(out@ =~= rows_text(g, ni, r as int) + wall_glyph() + row_cells_text(
                        g,
                        r as int,
                        c as int + 1,
                    ));
                }
                c += 1;
            }
            out.append("\u{2b1c}");
            out.append("\n");
            proof {
                assert(out@ =~= rows_text(g, ni, r as int + 1));
            }
            r += 1;
        }
        out.append("\u{2b1c}");
        proof {
            assert(wall_run(0) =~= Seq::<char>::empty());
            assert(out@ =~= rows_text(g, ni, ni) + wall_run(1));
        }
        let mut k: usize = 0;
        while k < n
            invariant
                n == self.size_spec(),
                k <= n,
                out@ == rows_text(g, ni, ni) + wall_run(k as int + 1),
                g == self.grid(),
                ni == n as int,
            decreases n - k,
        {
            out.append("\u{2b1c}");
            proof {
                assert(out@ =~= rows_text(g, ni, ni) + wall_run(k as int + 2));
            }
            k += 1;
        }
        out.append("\u{2b1c}");
        out.append("\n");
        proof {
            assert(out@ =~= rows_text(g, ni, ni) + wall_run(ni + 2) + "\n"@);
        }
        match self.game_state() {
            GameState::Won(t) => {
                match t {
                    Team::Cookie => out.append("\u{1f36a}"),
                    Team::Milk => out.append("\u{1f95b}"),
                }
                out.append(" wins!\n");
            },
            GameState::Stalemate => {
                out.append("No winner.\n");
            },
            GameState::NotYetWon => {},
        }
        proof {
            assert(out@ =~= render_text(g, ni, self.state()));
        }
        out
    }
}

} // verus!
