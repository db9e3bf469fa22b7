use tictactoe::game::Outcome;
use tictactoe::grid::{get_winner, Grid, Mark};
use tictactoe::minimax::{
    AlphaBetaPruning, Move, MoveMaker, PersistentMoveMaker, RevertingMoveMaker,
};

#[test]
fn test_reverting_move_maker() {
    let mut g = Grid::new(3);
    {
        let opt_mm = RevertingMoveMaker::from_move(
            &mut g,
            Move {
                what: Mark::Nought,
                ind: 4,
            },
        );

        let mm = opt_mm.unwrap();
        assert_eq!(Some(Mark::Nought), mm.grid.get_at_pos(1, 1));
        mm.revert();
    }
    assert!(g.get_at_pos(1, 1).is_none());
}

#[test]
fn test_persistent_move_maker() {
    let mut g = Grid::new(3);
    {
        let opt_mm = PersistentMoveMaker::from_move(
            &mut g,
            Move {
                what: Mark::Nought,
                ind: 4,
            },
        );

        assert!(opt_mm.is_some());
        assert_eq!(Some(Mark::Nought), g.get_at_pos(1, 1));
    }
    assert_eq!(Some(Mark::Nought), g.get_at_pos(1, 1));
}

#[test]
fn test_ai_wins_as_cross() {
    let mut g = Grid::new(3);

    g.set_at_pos(2, 0, Mark::Cross).unwrap();
    g.set_at_pos(2, 2, Mark::Nought).unwrap();
    g.set_at_pos(1, 1, Mark::Cross).unwrap();
    g.set_at_pos(1, 2, Mark::Nought).unwrap();

    let engine = AlphaBetaPruning::new(Mark::Cross);
    engine.try_make_move(&mut g);

    for x in 0..g.get_side_length() {
        for y in 0..g.get_side_length() {
            match (x, y) {
                (2, 0) | (1, 1) | (0, 2) => {
                    assert_eq!(Some(Mark::Cross), g.get_at_pos(x, y), "x={} y={}", x, y)
                }
                (2, 2) | (1, 2) => {
                    assert_eq!(Some(Mark::Nought), g.get_at_pos(x, y), "x={} y={}", x, y)
                }
                _ => assert!(g.get_at_pos(x, y).is_none(), "x={} y={}", x, y),
            }
        }
    }
}

#[test]
fn test_ai_wins_as_nought() {
    let mut g = Grid::new(3);

    g.set_at_pos(1, 1, Mark::Cross).unwrap();
    g.set_at_pos(0, 0, Mark::Nought).unwrap();
    g.set_at_pos(2, 0, Mark::Cross).unwrap();
    g.set_at_pos(0, 2, Mark::Nought).unwrap();
    g.set_at_pos(2, 1, Mark::Cross).unwrap();

    let engine = AlphaBetaPruning::new(Mark::Nought);
    engine.try_make_move(&mut g);

    for x in 0..g.get_side_length() {
        for y in 0..g.get_side_length() {
            match (x, y) {
                (2, 0) | (1, 1) | (2, 1) => {
                    assert_eq!(Some(Mark::Cross), g.get_at_pos(x, y), "x={} y={}", x, y)
                }
                (0, 0) | (0, 2) | (0, 1) => {
                    assert_eq!(Some(Mark::Nought), g.get_at_pos(x, y), "x={} y={}", x, y)
                }
                _ => assert!(g.get_at_pos(x, y).is_none(), "x={} y={}", x, y),
            }
        }
    }
}

#[test]
fn test_ai_averts_defeat_as_cross() {
    let mut g = Grid::new(3);

    g.set_at_pos(1, 1, Mark::Cross).unwrap();
    g.set_at_pos(0, 2, Mark::Nought).unwrap();
    g.set_at_pos(0, 0, Mark::Cross).unwrap();
    g.set_at_pos(2, 2, Mark::Nought).unwrap();

    let engine = AlphaBetaPruning::new(Mark::Cross);
    engine.try_make_move(&mut g);

    for x in 0..g.get_side_length() {
        for y in 0..g.get_side_length() {
            match (x, y) {
                (0, 0) | (1, 1) | (1, 2) => {
                    assert_eq!(Some(Mark::Cross), g.get_at_pos(x, y), "x={} y={}", x, y)
                }
                (0, 2) | (2, 2) => {
                    assert_eq!(Some(Mark::Nought), g.get_at_pos(x, y), "x={} y={}", x, y)
                }
                _ => assert!(g.get_at_pos(x, y).is_none(), "x={} y={}", x, y),
            }
        }
    }
}

#[test]
fn test_ai_averts_defeat_as_nought() {
    let mut g = Grid::new(3);

    g.set_at_pos(1, 1, Mark::Cross).unwrap();
    g.set_at_pos(0, 0, Mark::Nought).unwrap();
    g.set_at_pos(2, 0, Mark::Cross).unwrap();

    let engine = AlphaBetaPruning::new(Mark::Nought);
    engine.try_make_move(&mut g);

    for x in 0..g.get_side_length() {
        for y in 0..g.get_side_length() {
            match (x, y) {
                (2, 0) | (1, 1) => {
                    assert_eq!(Some(Mark::Cross), g.get_at_pos(x, y), "x={} y={}", x, y)
                }
                (0, 0) | (0, 2) => {
                    assert_eq!(Some(Mark::Nought), g.get_at_pos(x, y), "x={} y={}", x, y)
                }
                _ => assert!(g.get_at_pos(x, y).is_none(), "x={} y={}", x, y),
            }
        }
    }
}

#[test]
fn test_ai_tolerates_full_grid() {
    let mut g = Grid::new(3);

    for x in 0..g.get_side_length() {
        for y in 0..g.get_side_length() {
            g.set_at_pos(x, y, Mark::Cross).unwrap();
        }
    }

    let engine = AlphaBetaPruning::new(Mark::Nought);
    engine.try_make_move(&mut g);

    for x in 0..g.get_side_length() {
        for y in 0..g.get_side_length() {
            assert_eq!(Some(Mark::Cross), g.get_at_pos(x, y));
        }
    }
}

const X: Option<Mark> = Some(Mark::Cross);
const O: Option<Mark> = Some(Mark::Nought);

fn cells_of(g: &Grid) -> Vec<Option<Mark>> {
    (0..g.get_size()).map(|ind| g.get_at_ind(ind)).collect()
}

fn grid_of(side: usize, cells: &[Option<Mark>]) -> Grid {
    let mut g = Grid::new(side);
    for (ind, cell) in cells.iter().enumerate() {
        if let Some(m) = cell {
            g.set_at_ind(ind, *m).unwrap();
        }
    }
    g
}

fn other(m: Mark) -> Mark {
    match m {
        Mark::Cross => Mark::Nought,
        Mark::Nought => Mark::Cross,
    }
}

/// Backward induction without any pruning: what `machine` gets from the
/// position when both sides play as well as they can.
fn oracle(g: &mut Grid, machine: Mark, machines_turn: bool) -> Outcome {
    if let Some(w) = get_winner(g) {
        return if w == machine { Outcome::Win } else { Outcome::Loss };
    }
    if g.is_full() {
        return Outcome::Draw;
    }
    let who = if machines_turn { machine } else { other(machine) };
    let mut best = if machines_turn { Outcome::Loss } else { Outcome::Win };
    for ind in 0..g.get_size() {
        if g.set_at_ind(ind, who).is_ok() {
            let o = oracle(g, machine, !machines_turn);
            g.unset_at_ind(ind);
            let improves = if machines_turn {
                o.score() > best.score()
            } else {
                o.score() < best.score()
            };
            if improves {
                best = o;
            }
        }
    }
    best
}

/// The cell that the machine is bound to mark: the first of the best
/// moves, or the last empty cell where every move loses.
fn expected_cell(g: &mut Grid, machine: Mark) -> Option<usize> {
    let mut best: Option<(usize, Outcome)> = None;
    let mut last = None;
    for ind in 0..g.get_size() {
        if g.set_at_ind(ind, machine).is_ok() {
            let o = oracle(g, machine, false);
            g.unset_at_ind(ind);
            last = Some(ind);
            let better = match best {
                Some((_, b)) => o.score() > b.score(),
                None => o.score() > 0,
            };
            if better {
                best = Some((ind, o));
            }
        }
    }
    match best {
        Some((ind, _)) => Some(ind),
        None => last,
    }
}

fn check_against_oracle(g: &mut Grid, machine: Mark) {
    let before = cells_of(g);
    let decided = get_winner(g).is_some();
    let full = g.is_full();
    let expected = expected_cell(g, machine);
    assert_eq!(before, cells_of(g));
    let engine = AlphaBetaPruning::new(machine);
    let moved = engine.try_make_move(g);
    let after = cells_of(g);
    if decided || full {
        assert!(!moved);
        assert_eq!(before, after);
        return;
    }
    assert!(moved);
    let cell = expected.unwrap();
    for ind in 0..before.len() {
        if ind == cell {
            assert_eq!(None, before[ind]);
            assert_eq!(Some(machine), after[ind]);
        } else {
            assert_eq!(before[ind], after[ind]);
        }
    }
}

/// Walks every position that alternating legal play reaches from `g`,
/// the human moving wherever it can and the machine as it chooses.
fn walk(g: &mut Grid, machine: Mark, machines_turn: bool, count: &mut usize) {
    if get_winner(g).is_some() || g.is_full() {
        return;
    }
    if machines_turn {
        *count += 1;
        let mut played = grid_of(g.get_side_length(), &cells_of(g));
        check_against_oracle(&mut played, machine);
        walk(&mut played, machine, false, count);
    } else {
        for ind in 0..g.get_size() {
            if g.set_at_ind(ind, other(machine)).is_ok() {
                walk(g, machine, true, count);
                g.unset_at_ind(ind);
            }
        }
    }
}

#[test]
fn machine_moving_second_never_strays_from_the_oracle() {
    let mut g = Grid::new(3);
    let mut count = 0;
    walk(&mut g, Mark::Nought, false, &mut count);
    assert!(count > 100);
}

#[test]
fn machine_moving_first_never_strays_from_the_oracle() {
    let mut g = Grid::new(3);
    g.set_at_ind(0, Mark::Cross).unwrap();
    let mut count = 0;
    walk(&mut g, Mark::Cross, false, &mut count);
    assert!(count > 50);
}

/// Plays every game in which the human moves wherever it can, and fails
/// if one of them ends with the human's line.
fn play(g: &mut Grid, machine: Mark, machines_turn: bool) {
    if let Some(w) = get_winner(g) {
        assert_eq!(machine, w);
        return;
    }
    if g.is_full() {
        return;
    }
    if machines_turn {
        let mut played = grid_of(3, &cells_of(g));
        assert!(AlphaBetaPruning::new(machine).try_make_move(&mut played));
        play(&mut played, machine, false);
    } else {
        for ind in 0..9 {
            if g.set_at_ind(ind, other(machine)).is_ok() {
                play(g, machine, true);
                g.unset_at_ind(ind);
            }
        }
    }
}

#[test]
fn machine_never_loses_a_game_of_three_by_three() {
    let mut g = Grid::new(3);
    play(&mut g, Mark::Nought, false);
    let mut g = Grid::new(3);
    play(&mut g, Mark::Cross, true);
}

#[test]
fn decided_game_is_left_alone() {
    let mut g = Grid::new(3);
    for x in 0..3 {
        g.set_at_pos(x, 1, Mark::Nought).unwrap();
    }
    g.set_at_pos(0, 0, Mark::Cross).unwrap();
    g.set_at_pos(2, 2, Mark::Cross).unwrap();
    let before = cells_of(&g);
    assert!(!AlphaBetaPruning::new(Mark::Cross).try_make_move(&mut g));
    assert_eq!(before, cells_of(&g));
    assert!(!AlphaBetaPruning::new(Mark::Nought).try_make_move(&mut g));
    assert_eq!(before, cells_of(&g));
}

#[test]
fn full_board_without_winner_is_left_alone() {
    let cells = [X, O, X, X, O, O, O, X, X];
    let mut g = grid_of(3, &cells);
    assert_eq!(None, get_winner(&g));
    assert!(g.is_full());
    assert!(!AlphaBetaPruning::new(Mark::Cross).try_make_move(&mut g));
    assert_eq!(cells.to_vec(), cells_of(&g));
}

#[test]
fn full_board_of_crosses_gives_no_move() {
    let mut g = Grid::new(3);
    for ind in 0..9 {
        g.set_at_ind(ind, Mark::Cross).unwrap();
    }
    assert!(!AlphaBetaPruning::new(Mark::Nought).try_make_move(&mut g));
    for ind in 0..9 {
        assert_eq!(Some(Mark::Cross), g.get_at_ind(ind));
    }
}

#[test]
fn winning_move_completes_the_anti_diagonal() {
    let mut g = Grid::new(3);
    g.set_at_pos(2, 0, Mark::Cross).unwrap();
    g.set_at_pos(2, 2, Mark::Nought).unwrap();
    g.set_at_pos(1, 1, Mark::Cross).unwrap();
    g.set_at_pos(1, 2, Mark::Nought).unwrap();
    let before = cells_of(&g);
    assert!(AlphaBetaPruning::new(Mark::Cross).try_make_move(&mut g));
    assert_eq!(Some(Mark::Cross), g.get_at_pos(0, 2));
    assert_eq!(Some(Mark::Cross), get_winner(&g));
    for ind in 0..9 {
        if ind != 6 {
            assert_eq!(before[ind], g.get_at_ind(ind));
        }
    }
}

#[test]
fn lost_position_takes_the_last_empty_cell() {
    // Crosses threaten the top row and the left column at once; noughts
    // have no line of their own to finish.
    let cells = [X, None, X, None, O, None, X, None, O];
    let mut g = grid_of(3, &cells);
    assert_eq!(None, get_winner(&g));
    assert_eq!(Some(7), expected_cell(&mut g, Mark::Nought));
    assert!(AlphaBetaPruning::new(Mark::Nought).try_make_move(&mut g));
    assert_eq!(Some(Mark::Nought), g.get_at_ind(7));
    assert_eq!(None, g.get_at_ind(1));
    assert_eq!(None, g.get_at_ind(3));
    assert_eq!(None, g.get_at_ind(5));
}

#[test]
fn first_of_equal_moves_is_taken() {
    let mut g = Grid::new(3);
    assert!(AlphaBetaPruning::new(Mark::Cross).try_make_move(&mut g));
    assert_eq!(Some(Mark::Cross), g.get_at_ind(0));
    for ind in 1..9 {
        assert_eq!(None, g.get_at_ind(ind));
    }
}

#[test]
fn side_two_first_mover_takes_the_first_cell() {
    let mut g = Grid::new(2);
    assert!(AlphaBetaPruning::new(Mark::Nought).try_make_move(&mut g));
    assert_eq!(Some(Mark::Nought), g.get_at_ind(0));
    g.set_at_ind(3, Mark::Cross).unwrap();
    assert!(AlphaBetaPruning::new(Mark::Nought).try_make_move(&mut g));
    assert_eq!(Some(Mark::Nought), g.get_at_ind(1));
    assert_eq!(Some(Mark::Nought), get_winner(&g));
}

#[test]
fn engine_reports_its_side() {
    assert_eq!(Mark::Cross, AlphaBetaPruning::new(Mark::Cross).get_ai_side());
    assert_eq!(Mark::Nought, AlphaBetaPruning::new(Mark::Nought).get_ai_side());
}

#[test]
fn reverting_move_on_occupied_cell_is_refused() {
    let mut g = Grid::new(3);
    g.set_at_ind(4, Mark::Cross).unwrap();
    assert!(RevertingMoveMaker::from_move(&mut g, Move { what: Mark::Nought, ind: 4 }).is_none());
    assert!(PersistentMoveMaker::from_move(&mut g, Move { what: Mark::Nought, ind: 4 }).is_none());
    assert_eq!(Some(Mark::Cross), g.get_at_ind(4));
}

#[test]
fn move_makers_remember_their_move() {
    let mut g = Grid::new(3);
    let m = Move { what: Mark::Cross, ind: 8 };
    let mm = RevertingMoveMaker::from_move(&mut g, m).unwrap();
    assert_eq!(m, mm.get_move());
    mm.revert();
    let pm = PersistentMoveMaker::from_move(&mut g, m).unwrap();
    assert_eq!(m, pm.get_move());
    assert_eq!(Some(Mark::Cross), g.get_at_ind(8));
}

#[test]
fn outcomes_are_ordered_loss_draw_win() {
    assert_eq!(0, Outcome::Loss.score());
    assert_eq!(1, Outcome::Draw.score());
    assert_eq!(2, Outcome::Win.score());
    assert_eq!(Outcome::Win, Outcome::Draw.max_with(Outcome::Win));
    assert_eq!(Outcome::Draw, Outcome::Draw.max_with(Outcome::Loss));
    assert_eq!(Outcome::Loss, Outcome::Draw.min_with(Outcome::Loss));
    assert_eq!(Outcome::Draw, Outcome::Win.min_with(Outcome::Draw));
}
