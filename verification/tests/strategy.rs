use dice_game::board::Board;
use dice_game::game::GameState;
use dice_game::model::Team;
use dice_game::strategy::{
    best_answer, improvement, lead, legal_columns, strategy_min_max, strategy_random,
    team_to_move, Strategy,
};

fn board_with(red: &[(usize, usize)], blue: &[(usize, usize)]) -> Board {
    let mut board = Board::empty_board(3, 3);
    for (column, face) in red {
        board.insert(&Team::Red, *column, *face);
    }
    for (column, face) in blue {
        board.insert(&Team::Blue, *column, *face);
    }
    board
}

#[test]
fn team_to_move_follows_the_state() {
    assert_eq!(team_to_move(&GameState::RedsTurn), Team::Red);
    assert_eq!(team_to_move(&GameState::BluesTurn), Team::Blue);
}

#[test]
fn legal_columns_are_those_with_space() {
    let board = board_with(&[(1, 1), (1, 2), (1, 3), (2, 5)], &[(0, 4), (0, 5), (0, 6)]);
    assert_eq!(legal_columns(&board, &Team::Red), vec![0, 2]);
    assert_eq!(legal_columns(&board, &Team::Blue), vec![1, 2]);
    let empty = Board::empty_board(3, 3);
    assert_eq!(legal_columns(&empty, &Team::Red), vec![0, 1, 2]);
    let none = Board::empty_board(2, 0);
    assert_eq!(legal_columns(&none, &Team::Blue), Vec::<usize>::new());
}

#[test]
fn lead_is_the_difference_of_the_scores() {
    let board = board_with(&[(0, 2), (0, 2)], &[(1, 6), (2, 5)]);
    assert_eq!(lead(&board, &Team::Red), 8 - 11);
    assert_eq!(lead(&board, &Team::Blue), 11 - 8);
}

#[test]
fn improvement_counts_own_gain_and_rival_loss() {
    let empty = Board::empty_board(3, 3);
    assert_eq!(improvement(&empty, &Team::Red, 0, 4), 4);
    let paired = board_with(&[(0, 4)], &[]);
    assert_eq!(improvement(&paired, &Team::Red, 0, 4), 12);
    assert_eq!(improvement(&paired, &Team::Red, 1, 4), 4);
    assert_eq!(improvement(&paired, &Team::Blue, 0, 4), 8);
    let both = board_with(&[(0, 4)], &[(0, 3), (0, 3)]);
    assert_eq!(improvement(&both, &Team::Red, 0, 3), 3 + 12);
    assert_eq!(improvement(&both, &Team::Red, 0, 4), 12);
    assert_eq!(both.calculate_score(&Team::Blue), 12);
    assert_eq!(both.calculate_score(&Team::Red), 4);
}

#[test]
fn random_strategy_answers_with_a_legal_column() {
    let board = board_with(&[(1, 1), (1, 2), (1, 3)], &[(0, 4), (0, 5), (0, 6), (1, 4), (1, 5), (1, 6)]);
    for roll in 1..=6 {
        for _ in 0..40 {
            let red = strategy_random(&board, &GameState::RedsTurn, &roll);
            assert!(red == 0 || red == 2);
            assert_eq!(strategy_random(&board, &GameState::BluesTurn, &roll), 2);
        }
    }
}

#[test]
fn random_strategy_reaches_every_legal_column() {
    let board = Board::empty_board(3, 3);
    let mut seen = [false; 3];
    for _ in 0..400 {
        seen[strategy_random(&board, &GameState::RedsTurn, &1)] = true;
    }
    assert_eq!(seen, [true, true, true]);
}

#[test]
fn lookahead_takes_the_column_that_clears_three_matches() {
    let board = board_with(&[], &[(1, 4), (1, 4), (1, 4)]);
    assert_eq!(improvement(&board, &Team::Red, 1, 4), 4 + 36);
    assert_eq!(improvement(&board, &Team::Red, 0, 4), 4);
    for _ in 0..50 {
        assert_eq!(strategy_min_max(&board, &GameState::RedsTurn, &4), 1);
    }
    for fallback in 0..3 {
        assert_eq!(best_answer(&board, &Team::Red, 4, &vec![0, 1, 2], fallback), 1);
    }
    let mirrored = board_with(&[(2, 6), (2, 6), (2, 6)], &[]);
    for _ in 0..50 {
        assert_eq!(strategy_min_max(&mirrored, &GameState::BluesTurn, &6), 2);
    }
}

#[test]
fn lookahead_keeps_the_first_of_equal_bests() {
    let board = board_with(&[(0, 3), (2, 3)], &[]);
    assert_eq!(improvement(&board, &Team::Red, 0, 3), 9);
    assert_eq!(improvement(&board, &Team::Red, 2, 3), 9);
    for fallback in 0..3 {
        assert_eq!(best_answer(&board, &Team::Red, 3, &vec![0, 1, 2], fallback), 0);
    }
    for _ in 0..50 {
        assert_eq!(strategy_min_max(&board, &GameState::RedsTurn, &3), 0);
    }
}

#[test]
fn lookahead_takes_a_later_column_that_is_strictly_better() {
    let board = board_with(&[(0, 3)], &[(2, 3), (2, 3)]);
    assert_eq!(improvement(&board, &Team::Red, 0, 3), 9);
    assert_eq!(improvement(&board, &Team::Red, 2, 3), 15);
    for fallback in 0..3 {
        assert_eq!(best_answer(&board, &Team::Red, 3, &vec![0, 1, 2], fallback), 2);
    }
    assert_eq!(strategy_min_max(&board, &GameState::RedsTurn, &3), 2);
}

#[test]
fn lookahead_falls_back_when_nothing_beats_the_roll() {
    let board = board_with(&[(0, 1)], &[(1, 2)]);
    for column in 0..3 {
        assert_eq!(improvement(&board, &Team::Red, column, 5), 5);
    }
    for fallback in 0..3 {
        assert_eq!(best_answer(&board, &Team::Red, 5, &vec![0, 1, 2], fallback), fallback);
    }
    let mut seen = [false; 3];
    for _ in 0..400 {
        seen[strategy_min_max(&board, &GameState::RedsTurn, &5)] = true;
    }
    assert_eq!(seen, [true, true, true]);
}

#[test]
fn lookahead_passes_over_full_columns() {
    let board = board_with(&[(1, 2), (1, 2), (1, 2), (0, 5)], &[]);
    assert_eq!(legal_columns(&board, &Team::Red), vec![0, 2]);
    for _ in 0..50 {
        let column = strategy_min_max(&board, &GameState::RedsTurn, &2);
        assert!(column == 0 || column == 2);
    }
    assert_eq!(strategy_min_max(&board, &GameState::RedsTurn, &5), 0);
}

#[test]
fn strategies_answer_through_pick() {
    let board = board_with(&[], &[(1, 4), (1, 4), (1, 4)]);
    assert_eq!(Strategy::MinMax.pick(&board, &GameState::RedsTurn, &4), 1);
    let blue = Strategy::MinMax.pick(&board, &GameState::BluesTurn, &4);
    assert!(blue == 0 || blue == 2);
    for _ in 0..50 {
        let column = Strategy::Random.pick(&board, &GameState::BluesTurn, &4);
        assert!(column == 0 || column == 2);
    }
}
