use dice_game::board::Board;
use dice_game::game::Game;
use dice_game::model::Team;
use dice_game::strategy::Strategy;

#[test]
fn empty_board_as_text() {
    let board = Board::empty_board(3, 3);
    assert_eq!(
        board.to_string(),
        "--------\n------\n------\n------\n------\n------\n------\n------\n------\n------\n----"
    );
}

#[test]
fn board_with_dice_as_text() {
    let mut board = Board::empty_board(2, 2);
    board.insert(&Team::Red, 0, 1);
    board.insert(&Team::Red, 1, 6);
    board.insert(&Team::Red, 1, 2);
    board.insert(&Team::Blue, 0, 3);
    board.insert(&Team::Blue, 0, 4);
    board.insert(&Team::Blue, 1, 5);
    assert_eq!(
        board.to_string(),
        "--1-2-\n------\n6-4-\n------\n3---\n------\n5-"
    );
}

#[test]
fn board_without_cells_as_text() {
    assert_eq!(Board::empty_board(0, 3).to_string(), "");
    assert_eq!(Board::empty_board(3, 0).to_string(), "");
}

fn empty_three_by_three() -> String {
    let column = "------";
    let parted = "--\n------\n----";
    format!("{column}{parted}{parted}{parted}{parted}{parted}")
}

#[test]
fn game_as_text_names_the_state() {
    let board = empty_three_by_three();
    assert_eq!(board.len(), 18 * 2 + 5 * 8);
    let mut game = Game::new(Strategy::Random, Strategy::Random);
    assert_eq!(
        game.to_string(),
        format!("The game is yet to start.\n------\n{board}")
    );
    game.begin(true);
    assert_eq!(game.to_string(), format!("Red to go.\n------\n{board}"));
    let mut other = Game::new(Strategy::Random, Strategy::Random);
    other.begin(false);
    assert_eq!(other.to_string(), format!("Blue to go.\n------\n{board}"));
}

#[test]
fn finished_game_as_text() {
    let mut game = Game::new(Strategy::Random, Strategy::Random);
    game.begin(true);
    for turn in 0..9 {
        game.take_turn(1, turn / 3);
        if turn < 8 {
            game.take_turn(2, turn / 3);
        }
    }
    let text = game.to_string();
    assert!(text.starts_with("Game is finished\n------\n1-"));
    assert_eq!(text, format!("Game is finished\n------\n{}", game.board().to_string()));
}
