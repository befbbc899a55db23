use dice_game::game::{Game, GameState};
use dice_game::model::Team;
use dice_game::strategy::Strategy;

fn dice_of(game: &Game, team: Team) -> Vec<usize> {
    game.board().get_board_half(&team).iter().flatten().copied().collect()
}

#[test]
fn new_game_has_not_started() {
    let game = Game::new(Strategy::MinMax, Strategy::Random);
    assert_eq!(game.state(), GameState::Starting);
    assert_eq!(game.board().columns(), 3);
    assert_eq!(game.board().rows(), 3);
    assert_eq!(game.board().get_board_half(&Team::Red), vec![None; 9].as_slice());
    assert_eq!(game.board().get_board_half(&Team::Blue), vec![None; 9].as_slice());
}

#[test]
fn begin_gives_the_first_turn() {
    let mut game = Game::new(Strategy::Random, Strategy::Random);
    game.begin(true);
    assert_eq!(game.state(), GameState::RedsTurn);
    let mut game = Game::new(Strategy::Random, Strategy::Random);
    game.begin(false);
    assert_eq!(game.state(), GameState::BluesTurn);
}

#[test]
fn take_turn_places_and_hands_over() {
    let mut game = Game::new(Strategy::Random, Strategy::Random);
    game.begin(true);
    game.take_turn(4, 0);
    assert_eq!(game.state(), GameState::BluesTurn);
    assert_eq!(game.board().get_column(&Team::Red, 0), vec![None, None, Some(4)].as_slice());
    game.take_turn(4, 0);
    assert_eq!(game.state(), GameState::RedsTurn);
    assert_eq!(game.board().get_column(&Team::Red, 0), vec![None, None, None].as_slice());
    assert_eq!(game.board().get_column(&Team::Blue, 0), vec![None, None, Some(4)].as_slice());
    assert_eq!(game.board().calculate_score(&Team::Red), 0);
    assert_eq!(game.board().calculate_score(&Team::Blue), 4);
}

#[test]
fn game_is_done_when_the_mover_fills_its_grid() {
    let mut game = Game::new(Strategy::Random, Strategy::Random);
    game.begin(false);
    for turn in 0..9 {
        assert_eq!(game.state(), GameState::BluesTurn);
        game.take_turn(1 + turn % 3, turn / 3);
        if turn < 8 {
            assert_eq!(game.state(), GameState::RedsTurn);
            game.take_turn(4 + turn % 3, turn / 3);
        }
    }
    assert_eq!(game.state(), GameState::Done);
    assert!(game.board().is_board_side_filled(&Team::Blue));
    assert!(!game.board().is_board_side_filled(&Team::Red));
    assert_eq!(game.run(5), Some((3 * 15 - 6, 3 * 6)));
    assert_eq!(game.run(0), Some((3 * 15 - 6, 3 * 6)));
}

#[test]
fn advance_tosses_a_coin_first() {
    let mut game = Game::new(Strategy::Random, Strategy::Random);
    game.advance();
    assert!(game.state() == GameState::RedsTurn || game.state() == GameState::BluesTurn);
    assert_eq!(dice_of(&game, Team::Red), vec![]);
    assert_eq!(dice_of(&game, Team::Blue), vec![]);
}

#[test]
fn coin_falls_both_ways_about_equally_often() {
    let games = 4000;
    let mut red_first = 0;
    for _ in 0..games {
        let mut game = Game::new(Strategy::Random, Strategy::Random);
        game.advance();
        if game.state() == GameState::RedsTurn {
            red_first += 1;
        }
    }
    assert!(red_first > games * 2 / 5);
    assert!(red_first < games * 3 / 5);
}

#[test]
fn advance_plays_one_die_of_the_mover() {
    for red_first in [true, false] {
        let mut game = Game::new(Strategy::Random, Strategy::MinMax);
        game.begin(red_first);
        game.advance();
        let (mover, rival) = if red_first { (Team::Red, Team::Blue) } else { (Team::Blue, Team::Red) };
        let dice = dice_of(&game, mover);
        assert_eq!(dice.len(), 1);
        assert!(1 <= dice[0] && dice[0] <= 6);
        assert_eq!(dice_of(&game, rival), vec![]);
        let next = if red_first { GameState::BluesTurn } else { GameState::RedsTurn };
        assert_eq!(game.state(), next);
    }
}

#[test]
fn advance_rolls_every_face() {
    let mut seen = [false; 7];
    for _ in 0..600 {
        let mut game = Game::new(Strategy::Random, Strategy::Random);
        game.begin(true);
        game.advance();
        seen[dice_of(&game, Team::Red)[0]] = true;
    }
    assert_eq!(seen, [false, true, true, true, true, true, true]);
}

#[test]
fn advance_leaves_a_done_game_alone() {
    let mut game = Game::new(Strategy::Random, Strategy::Random);
    game.begin(true);
    for turn in 0..9 {
        game.take_turn(6, turn / 3);
        if turn < 8 {
            game.take_turn(1, turn / 3);
        }
    }
    assert_eq!(game.state(), GameState::Done);
    let before = game.to_string();
    game.advance();
    assert_eq!(game.state(), GameState::Done);
    assert_eq!(game.to_string(), before);
    assert_eq!(game.run(3), Some((3 * 54, 9 + 9 + 4)));
}

#[test]
fn run_without_transitions_changes_nothing() {
    let mut game = Game::new(Strategy::MinMax, Strategy::Random);
    assert_eq!(game.run(0), None);
    assert_eq!(game.state(), GameState::Starting);
}

#[test]
fn run_stops_at_the_limit() {
    let mut game = Game::new(Strategy::MinMax, Strategy::Random);
    assert_eq!(game.run(1), None);
    assert!(game.state() == GameState::RedsTurn || game.state() == GameState::BluesTurn);
    assert_eq!(game.run(4), None);
    assert_eq!(dice_of(&game, Team::Red).len() + dice_of(&game, Team::Blue).len() <= 4, true);
    assert_ne!(game.state(), GameState::Done);
    assert_ne!(game.state(), GameState::Starting);
}

#[test]
fn run_plays_to_the_end() {
    for _ in 0..200 {
        let mut game = Game::new(Strategy::MinMax, Strategy::Random);
        let mut scores = None;
        while scores.is_none() {
            scores = game.run(1000);
        }
        assert_eq!(game.state(), GameState::Done);
        let red = game.board().calculate_score(&Team::Red);
        let blue = game.board().calculate_score(&Team::Blue);
        assert_eq!(scores, Some((red, blue)));
        let red_full = game.board().is_board_side_filled(&Team::Red);
        let blue_full = game.board().is_board_side_filled(&Team::Blue);
        assert!(red_full != blue_full);
        assert_eq!(game.run(10), scores);
    }
}

#[test]
fn game_needs_at_least_seventeen_turns() {
    for _ in 0..50 {
        let mut game = Game::new(Strategy::Random, Strategy::Random);
        assert_eq!(game.run(17), None);
    }
}
