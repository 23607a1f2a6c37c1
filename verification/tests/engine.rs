use board_engine::Board;
use board_engine::BoardError;
use board_engine::GameState;
use board_engine::Team;
use rand::SeedableRng;

const COOKIE: &str = "\u{1f36a}";
const MILK: &str = "\u{1f95b}";
const EMPTY: &str = "\u{2b1b}";
const WALL: &str = "\u{2b1c}";

fn empty_render(n: usize) -> String {
    let mut s = String::new();
    for _ in 0..n {
        s.push_str(WALL);
        for _ in 0..n {
            s.push_str(EMPTY);
        }
        s.push_str(WALL);
        s.push('\n');
    }
    for _ in 0..n + 2 {
        s.push_str(WALL);
    }
    s.push('\n');
    s
}

#[test]
fn fresh_board_is_empty_and_open() {
    for n in 1..6 {
        let b = Board::new(n);
        assert_eq!(b.size(), n);
        assert_eq!(b.game_state(), GameState::NotYetWon);
        for r in 0..n {
            for c in 0..n {
                assert_eq!(b.cell(r, c), None);
            }
        }
    }
}

#[test]
fn reset_clears_every_cell_and_reopens() {
    let mut b = Board::new(4);
    b.set_column(Team::Cookie, 0).unwrap();
    b.set_column(Team::Milk, 2).unwrap();
    b.reset();
    assert_eq!(b.size(), 4);
    assert_eq!(b.game_state(), GameState::NotYetWon);
    for r in 0..4 {
        for c in 0..4 {
            assert_eq!(b.cell(r, c), None);
        }
    }
    assert_eq!(b.render(), empty_render(4));
}

#[test]
fn column_fills_bottom_up() {
    // Alternate the teams so that filling the column does not win the game.
    let mut b = Board::new(4);
    let teams = [Team::Cookie, Team::Milk, Team::Cookie, Team::Milk];
    for (k, team) in teams.iter().enumerate() {
        assert_eq!(b.set_column(*team, 1), Ok(()));
        // The k-th placement rests in the bottom-most empty row: 3 - k.
        for r in 0..4 {
            let expect = if r >= 3 - k { Some(teams[3 - r]) } else { None };
            assert_eq!(b.cell(r, 1), expect);
        }
    }
    assert_eq!(b.game_state(), GameState::NotYetWon);
    // The fifth placement into the full column is rejected with no change.
    let before = b.render();
    assert_eq!(b.set_column(Team::Cookie, 1), Err(BoardError::ColumnFull));
    assert_eq!(b.game_state(), GameState::NotYetWon);
    assert_eq!(b.render(), before);
}

#[test]
fn out_of_bound_column_is_rejected_without_change() {
    let mut b = Board::new(4);
    b.set_column(Team::Cookie, 0).unwrap();
    let before = b.render();
    assert_eq!(b.set_column(Team::Milk, 4), Err(BoardError::OutOfBound));
    assert_eq!(b.set_column(Team::Milk, 100), Err(BoardError::OutOfBound));
    assert_eq!(b.render(), before);
    assert_eq!(b.game_state(), GameState::NotYetWon);
}

#[test]
fn placement_after_a_win_is_rejected_without_change() {
    let mut b = Board::new(4);
    // Four Cookie tokens in one column win by the column line.
    for _ in 0..4 {
        b.set_column(Team::Cookie, 2).unwrap();
    }
    assert_eq!(b.game_state(), GameState::Won(Team::Cookie));
    let before = b.render();
    assert_eq!(b.set_column(Team::Milk, 0), Err(BoardError::GameOver));
    assert_eq!(b.set_column(Team::Cookie, 2), Err(BoardError::GameOver));
    assert_eq!(b.game_state(), GameState::Won(Team::Cookie));
    assert_eq!(b.render(), before);
}

#[test]
fn bottom_row_win_on_fourth_placement_only() {
    let mut b = Board::new(4);
    for col in 0..4 {
        assert_eq!(b.game_state(), GameState::NotYetWon);
        assert_eq!(b.set_column(Team::Cookie, col), Ok(()));
        // The first drop in each column lands in the bottom row.
        assert_eq!(b.cell(3, col), Some(Team::Cookie));
    }
    assert_eq!(b.game_state(), GameState::Won(Team::Cookie));
    let mut expected = String::new();
    for _ in 0..3 {
        expected.push_str(WALL);
        for _ in 0..4 {
            expected.push_str(EMPTY);
        }
        expected.push_str(WALL);
        expected.push('\n');
    }
    expected.push_str(WALL);
    for _ in 0..4 {
        expected.push_str(COOKIE);
    }
    expected.push_str(WALL);
    expected.push('\n');
    for _ in 0..6 {
        expected.push_str(WALL);
    }
    expected.push('\n');
    expected.push_str(COOKIE);
    expected.push_str(" wins!\n");
    assert_eq!(b.render(), expected);
}

#[test]
fn full_board_without_line_is_stalemate() {
    // Column contents from bottom to top; no row, column or diagonal of the
    // finished board is uniform, so the last placement yields a stalemate.
    let columns: [[Team; 4]; 4] = [
        [Team::Milk, Team::Cookie, Team::Milk, Team::Cookie],
        [Team::Milk, Team::Cookie, Team::Milk, Team::Cookie],
        [Team::Cookie, Team::Milk, Team::Cookie, Team::Milk],
        [Team::Milk, Team::Cookie, Team::Milk, Team::Cookie],
    ];
    let mut b = Board::new(4);
    for (col, tokens) in columns.iter().enumerate() {
        for team in tokens {
            assert_eq!(b.game_state(), GameState::NotYetWon);
            assert_eq!(b.set_column(*team, col), Ok(()));
        }
    }
    assert_eq!(b.game_state(), GameState::Stalemate);
    let rendered = b.render();
    assert!(rendered.ends_with("No winner.\n"));
}

#[test]
fn randomized_boards_with_equal_seeds_match() {
    let mut rng_a = rand::rngs::StdRng::seed_from_u64(2024);
    let mut rng_b = rand::rngs::StdRng::seed_from_u64(2024);
    let a = Board::new_randomized(4, &mut rng_a);
    let b = Board::new_randomized(4, &mut rng_b);
    for r in 0..4 {
        for c in 0..4 {
            assert!(a.cell(r, c).is_some());
            assert_eq!(a.cell(r, c), b.cell(r, c));
        }
    }
    assert_eq!(a.render(), b.render());
}

#[test]
fn randomized_board_state_is_open_regardless_of_fill() {
    for seed in 0..32 {
        let mut rng = rand::rngs::StdRng::seed_from_u64(seed);
        let b = Board::new_randomized(4, &mut rng);
        assert_eq!(b.game_state(), GameState::NotYetWon);
    }
}

#[test]
fn rendering_is_pure() {
    let mut b = Board::new(4);
    assert_eq!(b.render(), empty_render(4));
    assert_eq!(b.render(), b.render());
    b.set_column(Team::Milk, 3).unwrap();
    let once = b.render();
    let twice = b.render();
    assert_eq!(once, twice);
    assert_eq!(b.cell(3, 3), Some(Team::Milk));
}

#[test]
fn one_by_one_board_wins_immediately() {
    let mut b = Board::new(1);
    assert_eq!(b.set_column(Team::Milk, 0), Ok(()));
    assert_eq!(b.game_state(), GameState::Won(Team::Milk));
    let expected = format!(
        "{w}{m}{w}\n{w}{w}{w}\n{m} wins!\n",
        w = WALL,
        m = MILK
    );
    assert_eq!(b.render(), expected);
}
