use tictactoe::grid::{get_winner, Grid, Mark};

#[test]
fn test_constructed_grid_is_empty() {
    let g = Grid::new(5);
    assert_eq!(5, g.get_side_length());
    for i in 0..g.get_side_length() {
        for j in 0..g.get_side_length() {
            assert_eq!(None, g.get_at_pos(i, j));
        }
    }
}

#[test]
fn grid_test_set_cross() {
    let mut g = Grid::new(3);
    g.set_at_pos(1, 1, Mark::Cross).unwrap();
    assert_eq!(Mark::Cross, g.set_at_pos(1, 1, Mark::Cross).unwrap_err());
    assert_eq!(Mark::Cross, g.set_at_pos(1, 1, Mark::Nought).unwrap_err());

    for i in 0..g.get_side_length() {
        for j in 0..g.get_side_length() {
            match (i, j) {
                (1, 1) => assert_eq!(Some(Mark::Cross), g.get_at_pos(1, 1)),
                _ => assert_eq!(None, g.get_at_pos(i, j)),
            }
        }
    }
}

#[test]
fn grid_test_set_nought() {
    let mut g = Grid::new(3);
    g.set_at_pos(0, 2, Mark::Nought).unwrap();
    assert_eq!(Mark::Nought, g.set_at_pos(0, 2, Mark::Nought).unwrap_err());
    assert_eq!(Mark::Nought, g.set_at_pos(0, 2, Mark::Cross).unwrap_err());

    for i in 0..g.get_side_length() {
        for j in 0..g.get_side_length() {
            match (i, j) {
                (0, 2) => assert_eq!(Some(Mark::Nought), g.get_at_pos(0, 2)),
                _ => assert_eq!(None, g.get_at_pos(i, j)),
            }
        }
    }
}

#[test]
fn grid_test_no_winner() {
    let mut g = Grid::new(3);
    g.set_at_pos(1, 1, Mark::Cross).unwrap();
    g.set_at_pos(0, 2, Mark::Nought).unwrap();
    assert_eq!(None, get_winner(&g));
}

#[test]
fn grid_test_col_winner() {
    let mut g = Grid::new(3);
    g.set_at_pos(0, 0, Mark::Nought).unwrap();
    g.set_at_pos(0, 1, Mark::Nought).unwrap();
    g.set_at_pos(0, 2, Mark::Nought).unwrap();
    assert_eq!(Some(Mark::Nought), get_winner(&g));

    g = Grid::new(3);
    g.set_at_pos(2, 0, Mark::Cross).unwrap();
    g.set_at_pos(2, 1, Mark::Cross).unwrap();
    g.set_at_pos(2, 2, Mark::Cross).unwrap();
    assert_eq!(Some(Mark::Cross), get_winner(&g));
}

#[test]
fn grid_test_row_winner() {
    let mut g = Grid::new(3);
    g.set_at_pos(2, 2, Mark::Nought).unwrap();
    g.set_at_pos(0, 2, Mark::Nought).unwrap();
    g.set_at_pos(1, 2, Mark::Nought).unwrap();
    assert_eq!(Some(Mark::Nought), get_winner(&g));

    g = Grid::new(3);
    g.set_at_pos(0, 0, Mark::Cross).unwrap();
    g.set_at_pos(1, 0, Mark::Cross).unwrap();
    g.set_at_pos(2, 0, Mark::Cross).unwrap();
    assert_eq!(Some(Mark::Cross), get_winner(&g));
}

#[test]
fn grid_test_diag_winner() {
    let mut g = Grid::new(3);
    g.set_at_pos(0, 0, Mark::Cross).unwrap();
    g.set_at_pos(1, 1, Mark::Cross).unwrap();
    g.set_at_pos(2, 2, Mark::Cross).unwrap();
    assert_eq!(Some(Mark::Cross), get_winner(&g));

    g = Grid::new(3);
    g.set_at_pos(0, 2, Mark::Nought).unwrap();
    g.set_at_pos(1, 1, Mark::Nought).unwrap();
    g.set_at_pos(2, 0, Mark::Nought).unwrap();
    assert_eq!(Some(Mark::Nought), get_winner(&g));
}

#[test]
fn grid_test_is_full() {
    let mut g = Grid::new(3);
    assert!(!g.is_full());

    g.set_at_pos(0, 0, Mark::Cross).unwrap();
    assert!(!g.is_full());

    for i in 0..g.get_side_length() {
        for j in 0..g.get_side_length() {
            let _ = g.set_at_pos(
                i,
                j,
                if i + j % 2 == 0 {
                    Mark::Cross
                } else {
                    Mark::Nought
                },
            );
        }
    }
    assert!(g.is_full());
}

#[test]
fn grid_sizes_from_two_up_start_empty() {
    for size in 2..10 {
        let g = Grid::new(size);
        assert_eq!(size, g.get_side_length());
        assert_eq!(size * size, g.get_size());
        assert!(!g.is_full());
        assert_eq!(None, get_winner(&g));
        for ind in 0..g.get_size() {
            assert_eq!(None, g.get_at_ind(ind));
        }
    }
}

#[test]
fn grid_occupied_cell_is_left_alone() {
    let mut g = Grid::new(3);
    g.set_at_ind(5, Mark::Nought).unwrap();
    assert_eq!(Err(Mark::Nought), g.set_at_ind(5, Mark::Cross));
    assert_eq!(Err(Mark::Nought), g.set_at_ind(5, Mark::Nought));
    for ind in 0..9 {
        let expected = if ind == 5 { Some(Mark::Nought) } else { None };
        assert_eq!(expected, g.get_at_ind(ind));
    }
}

#[test]
fn grid_positions_are_row_major() {
    let mut g = Grid::new(4);
    g.set_at_pos(3, 1, Mark::Cross).unwrap();
    assert_eq!(Some(Mark::Cross), g.get_at_ind(7));
    assert_eq!(Some(Mark::Cross), g.get_at_pos(3, 1));
    assert_eq!(None, g.get_at_pos(1, 3));
    g.set_at_ind(13, Mark::Nought).unwrap();
    assert_eq!(Some(Mark::Nought), g.get_at_pos(1, 3));
}

#[test]
fn grid_unset_clears_whatever_was_there() {
    let mut g = Grid::new(3);
    g.unset_at_ind(4);
    assert_eq!(None, g.get_at_ind(4));
    g.set_at_ind(4, Mark::Cross).unwrap();
    g.unset_at_ind(4);
    assert_eq!(None, g.get_at_ind(4));
    assert_eq!(Ok(()), g.set_at_ind(4, Mark::Nought));
}

#[test]
fn grid_every_line_of_side_four_wins() {
    for line in 0..4 {
        let mut g = Grid::new(4);
        for k in 0..4 {
            g.set_at_pos(line, k, Mark::Cross).unwrap();
        }
        assert_eq!(Some(Mark::Cross), get_winner(&g));

        let mut g = Grid::new(4);
        for k in 0..4 {
            g.set_at_pos(k, line, Mark::Nought).unwrap();
        }
        assert_eq!(Some(Mark::Nought), get_winner(&g));
    }
    let mut g = Grid::new(4);
    for k in 0..4 {
        g.set_at_pos(k, k, Mark::Nought).unwrap();
    }
    assert_eq!(Some(Mark::Nought), get_winner(&g));
    let mut g = Grid::new(4);
    for k in 0..4 {
        g.set_at_pos(3 - k, k, Mark::Cross).unwrap();
    }
    assert_eq!(Some(Mark::Cross), get_winner(&g));
}

#[test]
fn grid_line_with_a_gap_or_two_marks_does_not_win() {
    let mut g = Grid::new(3);
    g.set_at_pos(0, 0, Mark::Cross).unwrap();
    g.set_at_pos(1, 0, Mark::Cross).unwrap();
    assert_eq!(None, get_winner(&g));
    g.set_at_pos(2, 0, Mark::Nought).unwrap();
    assert_eq!(None, get_winner(&g));
    g.set_at_pos(2, 2, Mark::Cross).unwrap();
    g.set_at_pos(0, 2, Mark::Cross).unwrap();
    assert_eq!(None, get_winner(&g));
}

#[test]
fn grid_side_two_lines() {
    let mut g = Grid::new(2);
    g.set_at_pos(1, 0, Mark::Nought).unwrap();
    assert_eq!(None, get_winner(&g));
    g.set_at_pos(0, 1, Mark::Nought).unwrap();
    assert_eq!(Some(Mark::Nought), get_winner(&g));
}

#[test]
fn grid_leftmost_filled_column_decides() {
    let mut g = Grid::new(3);
    for y in 0..3 {
        g.set_at_pos(1, y, Mark::Nought).unwrap();
        g.set_at_pos(2, y, Mark::Cross).unwrap();
    }
    assert_eq!(Some(Mark::Nought), get_winner(&g));
    let mut g = Grid::new(3);
    for y in 0..3 {
        g.set_at_pos(0, y, Mark::Cross).unwrap();
        g.set_at_pos(1, y, Mark::Nought).unwrap();
    }
    assert_eq!(Some(Mark::Cross), get_winner(&g));
}

#[test]
fn grid_topmost_filled_row_decides() {
    let mut g = Grid::new(3);
    for x in 0..3 {
        g.set_at_pos(x, 0, Mark::Nought).unwrap();
        g.set_at_pos(x, 2, Mark::Cross).unwrap();
    }
    assert_eq!(Some(Mark::Nought), get_winner(&g));
}

#[test]
fn grid_diagonal_from_top_left_is_looked_at_first() {
    let mut g = Grid::new(4);
    for k in 0..4 {
        g.set_at_pos(k, k, Mark::Cross).unwrap();
        g.set_at_pos(3 - k, k, Mark::Nought).unwrap();
    }
    assert_eq!(Some(Mark::Cross), get_winner(&g));
}

#[test]
fn mark_opponent_is_the_other_mark() {
    assert_eq!(Mark::Nought, Mark::Cross.opponent());
    assert_eq!(Mark::Cross, Mark::Nought.opponent());
}
