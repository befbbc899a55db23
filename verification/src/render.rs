//! The board and the game as text, for a person to read.
//!
//! The cells are written in the order in which they are stored: the columns
//! of Red, then those of Blue, each from its first slot to its last. A cell is
//! written as the face of its die, or `-` if it is empty, followed by `-`.
//! A line break and a rule follow the first cell of every column but the very
//! first.

use vstd::prelude::*;
use vstd::string::StringExecFns;
use crate::board::Board;
use crate::column::{valid_column, valid_face, Cell};
use crate::game::{Game, GameState};
use crate::model::{BoardModel, Team};

verus! {

/// The digit that stands for a face from 1 to 6.
pub open spec fn digit(face: usize) -> char {
    if face == 1 {
        '1'
    } else if face == 2 {
        '2'
    } else if face == 3 {
        '3'
    } else if face == 4 {
        '4'
    } else if face == 5 {
        '5'
    } else {
        '6'
    }
}

/// The line break and the rule that part the columns.
pub open spec fn rule() -> Seq<char> {
    seq!['\n', '-', '-', '-', '-', '-', '-', '\n']
}

/// One cell as text: its face or `-`, then `-`, then the rule if `parted`.
pub open spec fn cell_text(cell: Cell, parted: bool) -> Seq<char> {
    let mark = match cell {
        Some(face) => digit(face),
        None => '-',
    };
    seq![mark, '-'] + if parted {
        rule()
    } else {
        Seq::empty()
    }
}

/// The first `n` cells of a column as text. The rule follows the first cell
/// unless the column is `leading`.
pub open spec fn column_text(col: Seq<Cell>, n: nat, leading: bool) -> Seq<char>
    decreases n,
{
    if n == 0 {
        Seq::empty()
    } else {
        column_text(col, (n - 1) as nat, leading) + cell_text(col[n - 1], n == 1 && !leading)
    }
}

/// The first `n` columns of a grid as text. The first column is `leading` if
/// the grid is.
pub open spec fn grid_text(grid: Seq<Seq<Cell>>, n: nat, leading: bool) -> Seq<char>
    decreases n,
{
    if n == 0 {
        Seq::empty()
    } else {
        grid_text(grid, (n - 1) as nat, leading) + column_text(
            grid[n - 1],
            grid[n - 1].len(),
            n == 1 && leading,
        )
    }
}

/// The board as text: the grid of Red, then the grid of Blue.
pub open spec fn board_text(board: BoardModel) -> Seq<char> {
    grid_text(board.red, board.red.len(), true) + grid_text(board.blue, board.blue.len(), false)
}

/// What is said of the state of a game.
pub open spec fn state_text(state: GameState) -> Seq<char> {
    match state {
        GameState::Starting => "The game is yet to start."@,
        GameState::RedsTurn => "Red to go."@,
        GameState::BluesTurn => "Blue to go."@,
        GameState::Done => "Game is finished"@,
    }
}

/// The game as text: its state, a rule, and the board.
pub open spec fn game_text(state: GameState, board: BoardModel) -> Seq<char> {
    state_text(state) + rule() + board_text(board)
}

/// The text of a face, as a string.
fn face_str(face: usize) -> (text: &'static str)
    requires
        valid_face(face),
    ensures
        text@ == seq![digit(face)],
{
    proof {
        reveal_strlit("1");
        reveal_strlit("2");
        reveal_strlit("3");
        reveal_strlit("4");
        reveal_strlit("5");
        reveal_strlit("6");
    }
    if face == 1 {
        "1"
    } else if face == 2 {
        "2"
    } else if face == 3 {
        "3"
    } else if face == 4 {
        "4"
    } else if face == 5 {
        "5"
    } else {
        "6"
    }
}

impl Board {
    /// Writes the cells of one grid behind `text`.
    fn write_grid(&self, team: &Team, text: &mut String)
        requires
            self.wf(),
        ensures
            final(text)@ == old(text)@ + grid_text(
                self@.grid(*team),
                self@.columns(),
                *team == Team::Red,
            ),
    {
        let blank = "-";
        let dash = "-";
        let parting = "\n------\n";
        proof {
            reveal_strlit("-");
            reveal_strlit("\n------\n");
        }
        let leading = match team {
            Team::Red => true,
            Team::Blue => false,
        };
        let ghost grid = self@.grid(*team);
        let mut c: usize = 0;
        while c < self.columns()
            invariant
                self.wf(),
                c <= self@.columns(),
                grid == self@.grid(*team),
                leading == (*team == Team::Red),
                blank@ == seq!['-'],
                dash@ == seq!['-'],
                parting@ == rule(),
                text@ == old(text)@ + grid_text(grid, c as nat, leading),
            decreases self@.columns() - c,
        {
            let col = self.get_column(team, c);
            let ghost start = text@;
            let ghost first = c == 0 && leading;
            let mut r: usize = 0;
            while r < col.len()
                invariant
                    r <= col@.len(),
                    col@ == grid[c as int],
                    valid_column(col@),
                    first == (c == 0 && leading),
                    blank@ == seq!['-'],
                    dash@ == seq!['-'],
                    parting@ == rule(),
                    text@ == start + column_text(col@, r as nat, first),
                decreases col@.len() - r,
            {
                let ghost so_far = text@;
                match col[r] {
                    Some(num) => {
                        text.append(face_str(num));
                    },
                    None => {
                        text.append(blank);
                    },
                }
                text.append(dash);
                if r == 0 && !(c == 0 && leading) {
                    text.append(parting);
                }
                proof {
                    assert(text@ =~= so_far + cell_text(col@[r as int], r == 0 && !first));
                    assert(text@ =~= start + column_text(col@, (r + 1) as nat, first));
                }
                r += 1;
            }
            proof {
                assert(text@ =~= old(text)@ + grid_text(grid, (c + 1) as nat, leading));
            }
            c += 1;
        }
    }

    /// The board as text.
    pub fn to_string(&self) -> (text: String)
        requires
            self.wf(),
        ensures
            text@ == board_text(self@),
    {
        let mut text = String::new();
        self.write_grid(&Team::Red, &mut text);
        self.write_grid(&Team::Blue, &mut text);
        text
    }
}

impl Game {
    /// The game as text: its state, a rule, and the board.
    pub fn to_string(&self) -> (text: String)
        requires
            self.wf(),
        ensures
            text@ == game_text(self@.state, self@.board),
    {
        let mut text = String::new();
        match self.state() {
            GameState::Starting => text.append("The game is yet to start."),
            GameState::RedsTurn => text.append("Red to go."),
            GameState::BluesTurn => text.append("Blue to go."),
            GameState::Done => text.append("Game is finished"),
        }
        proof {
            reveal_strlit("\n------\n");
        }
        text.append("\n------\n");
        text.append(self.board().to_string().as_str());
        text
    }
}

} // verus!
