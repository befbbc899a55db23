//! The game: one board, whose turn it is, and a strategy for each team.

use vstd::prelude::*;
use crate::board::Board;
use crate::column::{lemma_bump_keeps_gap, valid_face, MAX_FACE};
use crate::model::{BoardModel, Team};
use crate::random::{coin_toss, random_in_range};
use crate::strategy::{team_to_move, Strategy};

verus! {

/// Where a game stands.
#[derive(Clone, Copy, Debug, PartialEq, Eq, Structural)]
pub enum GameState {
    /// Nobody has moved; a coin decides who begins.
    Starting,
    /// Red rolls and places next.
    RedsTurn,
    /// Blue rolls and places next.
    BluesTurn,
    /// One grid is full: the game is over.
    Done,
}

impl GameState {
    /// The team that moves in this state, if any does.
    pub open spec fn mover(self) -> Option<Team> {
        match self {
            GameState::RedsTurn => Some(Team::Red),
            GameState::BluesTurn => Some(Team::Blue),
            _ => None,
        }
    }

    /// The state in which `team` moves next.
    pub open spec fn turn_of(team: Team) -> GameState {
        match team {
            Team::Red => GameState::RedsTurn,
            Team::Blue => GameState::BluesTurn,
        }
    }
}

/// The game as a mathematical value.
pub struct GameModel {
    pub board: BoardModel,
    pub state: GameState,
    pub red: Strategy,
    pub blue: Strategy,
}

impl GameModel {
    /// The strategy that plays for `team`.
    pub open spec fn strategy(self, team: Team) -> Strategy {
        match team {
            Team::Red => self.red,
            Team::Blue => self.blue,
        }
    }

    /// The board is well formed, and the game is `Done` exactly when a grid
    /// is full.
    pub open spec fn wf(self) -> bool {
        &&& self.board.wf()
        &&& self.state is Done <==> self.board.side_filled(Team::Red) || self.board.side_filled(
            Team::Blue,
        )
    }

    /// A game that has not begun, on an empty board of 3 columns of 3 slots.
    pub open spec fn fresh(red: Strategy, blue: Strategy) -> GameModel {
        GameModel { board: BoardModel::empty(3, 3), state: GameState::Starting, red, blue }
    }

    /// The game after the coin fell: Red begins if `red_first`, else Blue.
    pub open spec fn begun(self, red_first: bool) -> GameModel {
        GameModel {
            state: if red_first {
                GameState::RedsTurn
            } else {
                GameState::BluesTurn
            },
            ..self
        }
    }

    /// The game after `team` put a die showing `face` into `column`: the game
    /// is `Done` if that filled the grid of `team`, else the rival moves next.
    pub open spec fn turn(self, team: Team, face: usize, column: int) -> GameModel {
        let board = self.board.place(team, column, face);
        GameModel {
            board,
            state: if board.side_filled(team) {
                GameState::Done
            } else {
                GameState::turn_of(team.rival())
            },
            ..self
        }
    }

    /// `next` can come out of one transition of this game: the coin falls
    /// either way, the team to move rolls any face and places it where its
    /// strategy may, and a game that is `Done` stays as it is.
    pub open spec fn steps_to(self, next: GameModel) -> bool {
        match self.state.mover() {
            Some(team) => exists|face: usize, column: usize|
                valid_face(face) && self.strategy(team).may_pick(self.board, team, face, column)
                    && next == #[trigger] self.turn(team, face, column as int),
            None => if self.state is Starting {
                next == self.begun(true) || next == self.begun(false)
            } else {
                next == self
            },
        }
    }

    /// `next` can come out of `n` transitions of this game.
    pub open spec fn reaches(self, next: GameModel, n: nat) -> bool
        decreases n,
    {
        if n == 0 {
            next == self
        } else {
            exists|mid: GameModel|
                self.reaches(mid, (n - 1) as nat) && #[trigger] mid.steps_to(next)
        }
    }
}

/// A game between two strategies.
pub struct Game {
    board: Board,
    state: GameState,
    strategy_red: Strategy,
    strategy_blue: Strategy,
}

impl View for Game {
    type V = GameModel;

    closed spec fn view(&self) -> GameModel {
        GameModel {
            board: self.board@,
            state: self.state,
            red: self.strategy_red,
            blue: self.strategy_blue,
        }
    }
}

/// A move leaves the rival with every empty slot it had: if the rival's grid
/// was not full before the move, it is not full after it.
pub proof fn lemma_turn_keeps_rival_open(game: GameModel, team: Team, face: usize, column: int)
    requires
        game.board.wf(),
        game.board.has_column(column),
        !game.board.side_filled(team.rival()),
    ensures
        !game.turn(team, face, column).board.side_filled(team.rival()),
{
    let rival = team.rival();
    let c = choose|c: int| 0 <= c < game.board.columns() && game.board.has_space(rival, c);
    let after = game.turn(team, face, column).board;
    if c == column {
        lemma_bump_keeps_gap(game.board.grid(rival)[c], face);
    }
    assert(after.has_space(rival, c));
}

/// A game that is `Done` after `n` transitions is the same after any larger
/// number of them.
pub proof fn lemma_done_stays(game: GameModel, last: GameModel, n: nat, more: nat)
    requires
        game.reaches(last, n),
        last.state is Done,
        n <= more,
    ensures
        game.reaches(last, more),
    decreases more - n,
{
    if n < more {
        assert(last.steps_to(last));
        assert(game.reaches(last, n) && last.steps_to(last));
        assert(game.reaches(last, n + 1));
        lemma_done_stays(game, last, n + 1, more);
    }
}

impl Game {
    /// The board is stored as it should be.
    pub closed spec fn stored(&self) -> bool {
        self.board.wf()
    }

    /// The game is well formed: its board is stored as it should be, and its
    /// view is well formed.
    pub open spec fn wf(&self) -> bool {
        self.stored() && self@.wf()
    }

    /// A game that has not begun, on an empty board of 3 columns of 3 slots.
    pub fn new(strategy_red: Strategy, strategy_blue: Strategy) -> (game: Game)
        ensures
            game.wf(),
            game@ == GameModel::fresh(strategy_red, strategy_blue),
    {
        proof {
            assert(2 * (6 * 3 * 3 * 3) <= isize::MAX);
        }
        let game = Game {
            board: Board::empty_board(3, 3),
            state: GameState::Starting,
            strategy_blue,
            strategy_red,
        };
        proof {
            assert(game@.board.grid(Team::Red)[0][0] is None);
            assert(game@.board.has_space(Team::Red, 0));
            assert(game@.board.grid(Team::Blue)[0][0] is None);
            assert(game@.board.has_space(Team::Blue, 0));
        }
        game
    }

    /// Where the game stands.
    pub fn state(&self) -> (state: GameState)
        ensures
            state == self@.state,
    {
        self.state
    }

    /// The board of the game.
    pub fn board(&self) -> (board: &Board)
        ensures
            board@ == self@.board,
            self.wf() ==> board.wf(),
    {
        &self.board
    }

    /// The first transition with the coin given: Red begins if `red_first`,
    /// else Blue.
    pub fn begin(&mut self, red_first: bool)
        requires
            old(self).wf(),
            old(self)@.state is Starting,
        ensures
            final(self).wf(),
            final(self)@ == old(self)@.begun(red_first),
    {
        match red_first {
            true => self.state = GameState::RedsTurn,
            false => self.state = GameState::BluesTurn,
        };
    }

    /// One turn with the roll and the column given: the team to move places
    /// the die, and the game is `Done` if its grid is full now; else the rival
    /// moves next.
    pub fn take_turn(&mut self, roll: usize, column: usize)
        requires
            old(self).wf(),
            old(self)@.state.mover() is Some,
            valid_face(roll),
            old(self)@.board.legal(old(self)@.state.mover().unwrap(), column as int),
        ensures
            final(self).wf(),
            final(self)@ == old(self)@.turn(
                old(self)@.state.mover().unwrap(),
                roll,
                column as int,
            ),
    {
        let team = team_to_move(&self.state);
        proof {
            lemma_turn_keeps_rival_open(self@, team, roll, column as int);
        }
        self.board.insert(&team, column, roll);
        match self.board.is_board_side_filled(&team) {
            true => self.state = GameState::Done,
            false => self.state = match team {
                Team::Red => GameState::BluesTurn,
                Team::Blue => GameState::RedsTurn,
            },
        }
    }

    /// One transition. A game that has not begun tosses a coin for who moves
    /// first. In a turn the team to move rolls a die, its strategy picks the
    /// column, the die is placed, and the game is `Done` if that filled the
    /// team's grid. A game that is `Done` stays as it is.
    pub fn advance(&mut self)
        requires
            old(self).wf(),
        ensures
            final(self).wf(),
            old(self)@.steps_to(final(self)@),
    {
        match self.state {
            GameState::Starting => {
                let coin_toss: bool = coin_toss();
                self.begin(coin_toss);
            },
            GameState::RedsTurn => {
                let roll = random_in_range(1, MAX_FACE);
                let col = self.strategy_red.pick(&self.board, &self.state, &roll);
                self.take_turn(roll, col);
            },
            GameState::BluesTurn => {
                let roll = random_in_range(1, MAX_FACE);
                let col = self.strategy_blue.pick(&self.board, &self.state, &roll);
                self.take_turn(roll, col);
            },
            GameState::Done => (),
        }
    }

    /// Plays on for `limit` transitions, or fewer if the game is `Done`
    /// before. Answers with the scores of Red and of Blue if the game is
    /// `Done` then, and with `None` if it is not: call again to play on.
    pub fn run(&mut self, limit: usize) -> (scores: Option<(usize, usize)>)
        requires
            old(self).wf(),
        ensures
            final(self).wf(),
            old(self)@.reaches(final(self)@, limit as nat),
            scores is Some <==> final(self)@.state is Done,
            scores matches Some(pair) ==> pair.0 == final(self)@.board.score(Team::Red) && pair.1
                == final(self)@.board.score(Team::Blue),
    {
        let mut played: usize = 0;
        while self.state != GameState::Done && played < limit
            invariant
                self.wf(),
                played <= limit,
                old(self)@.reaches(self@, played as nat),
            decreases limit - played,
        {
            let ghost before = self@;
            self.advance();
            played += 1;
            proof {
                assert(old(self)@.reaches(before, (played - 1) as nat) && before.steps_to(self@));
            }
        }
        if self.state != GameState::Done {
            return None;
        }
        proof {
            lemma_done_stays(old(self)@, self@, played as nat, limit as nat);
        }
        Some((self.board.calculate_score(&Team::Red), self.board.calculate_score(&Team::Blue)))
    }
}

} // verus!
