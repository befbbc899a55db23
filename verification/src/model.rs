//! The board as a mathematical value: two grids of columns, one per team.
//!
//! `BoardModel` is what `Board` stands for in contracts. Placing a die,
//! scoring and the gain of a move are defined here, free of indices into
//! storage and of machine integers.

use vstd::prelude::*;
use crate::column::{
    bump, drop_die, face_points, filled, has_gap, lemma_bump_occurrences, lemma_bump_points,
    lemma_drop_die_occurrences, lemma_drop_die_points, lemma_last_gap, lemma_occurrences_bound,
    lemma_points_bound, occurrences, points, valid_column, valid_face, Cell, MAX_FACE,
};

verus! {

/// One of the two players.
#[derive(Clone, Copy, Debug, PartialEq, Eq, Structural)]
pub enum Team {
    Red,
    Blue,
}

impl Team {
    /// The other player.
    pub open spec fn rival(self) -> Team {
        match self {
            Team::Red => Team::Blue,
            Team::Blue => Team::Red,
        }
    }

    /// The other player.
    pub fn opponent(&self) -> (other: Team)
        ensures
            other == self.rival(),
    {
        match self {
            Team::Red => Team::Blue,
            Team::Blue => Team::Red,
        }
    }
}

/// The board as two grids. Each grid is a sequence of columns, and each
/// column a sequence of `rows` cells.
pub struct BoardModel {
    pub rows: nat,
    pub red: Seq<Seq<Cell>>,
    pub blue: Seq<Seq<Cell>>,
}

impl BoardModel {
    /// The number of columns of each grid.
    pub open spec fn columns(self) -> nat {
        self.red.len()
    }

    /// The grid that belongs to `team`.
    pub open spec fn grid(self, team: Team) -> Seq<Seq<Cell>> {
        match team {
            Team::Red => self.red,
            Team::Blue => self.blue,
        }
    }

    /// Both grids have the same number of columns, every column has `rows`
    /// cells, and every die shows a face from 1 to `MAX_FACE`.
    pub open spec fn wf(self) -> bool {
        &&& self.blue.len() == self.red.len()
        &&& forall|c: int|
            0 <= c < self.red.len() ==> (#[trigger] self.red[c]).len() == self.rows && valid_column(
                self.red[c],
            )
        &&& forall|c: int|
            0 <= c < self.blue.len() ==> (#[trigger] self.blue[c]).len() == self.rows
                && valid_column(self.blue[c])
    }

    /// The board with nothing on it.
    pub open spec fn empty(columns: nat, rows: nat) -> BoardModel {
        BoardModel {
            rows,
            red: Seq::new(columns, |c: int| Seq::new(rows, |r: int| None)),
            blue: Seq::new(columns, |c: int| Seq::new(rows, |r: int| None)),
        }
    }

    /// `column` exists.
    pub open spec fn has_column(self, column: int) -> bool {
        0 <= column < self.columns()
    }

    /// The column of `team` has an empty slot.
    pub open spec fn has_space(self, team: Team, column: int) -> bool {
        has_gap(self.grid(team)[column])
    }

    /// A move that the rules allow: the column exists and has an empty slot.
    pub open spec fn legal(self, team: Team, column: int) -> bool {
        self.has_column(column) && self.has_space(team, column)
    }

    /// No column of `team` has an empty slot.
    pub open spec fn side_filled(self, team: Team) -> bool {
        forall|c: int| 0 <= c < self.columns() ==> !self.has_space(team, c)
    }

    /// The board with the grid of `team` replaced.
    pub open spec fn with_grid(self, team: Team, grid: Seq<Seq<Cell>>) -> BoardModel {
        match team {
            Team::Red => BoardModel { red: grid, ..self },
            Team::Blue => BoardModel { blue: grid, ..self },
        }
    }

    /// The board after `team` put a die showing `face` into `column`: the die
    /// lies in the last empty slot of that column, and the rival's column of
    /// the same index has lost every die that shows the same face.
    pub open spec fn place(self, team: Team, column: int, face: usize) -> BoardModel {
        let own = self.grid(team);
        let other = self.grid(team.rival());
        self.with_grid(team, own.update(column, drop_die(own[column], face))).with_grid(
            team.rival(),
            other.update(column, bump(other[column], face)),
        )
    }

    /// The score of the first `n` columns of `team`.
    pub open spec fn score_upto(self, team: Team, n: nat) -> nat
        decreases n,
    {
        if n == 0 {
            0
        } else {
            self.score_upto(team, (n - 1) as nat) + points(self.grid(team)[n - 1])
        }
    }

    /// The score of `team`: the sum of the scores of its columns.
    pub open spec fn score(self, team: Team) -> nat {
        self.score_upto(team, self.columns())
    }

    /// By how much `team` is ahead of its rival.
    pub open spec fn lead(self, team: Team) -> int {
        self.score(team) - self.score(team.rival())
    }

    /// By how much the lead of `team` grows when it puts a die showing `face`
    /// into `column`.
    pub open spec fn gain(self, team: Team, column: int, face: usize) -> int {
        self.place(team, column, face).lead(team) - self.lead(team)
    }

    /// The number of dice that `team` has on the first `n` of its columns.
    pub open spec fn dice_upto(self, team: Team, n: nat) -> nat
        decreases n,
    {
        if n == 0 {
            0
        } else {
            self.dice_upto(team, (n - 1) as nat) + filled(self.grid(team)[n - 1])
        }
    }

    /// The number of dice that `team` has on the board.
    pub open spec fn dice(self, team: Team) -> nat {
        self.dice_upto(team, self.columns())
    }
}

/// The largest score that a team can reach on a board of this size: every
/// slot holds a die showing the largest face.
pub open spec fn score_limit(columns: nat, rows: nat) -> nat {
    MAX_FACE as nat * rows * rows * columns
}

/// On a well-formed board the first `n` columns of a team score at most
/// what `n` columns full of the largest face would, and the whole grid at most
/// `score_limit`.
pub proof fn lemma_score_bound(board: BoardModel, team: Team, n: nat)
    requires
        board.wf(),
        n <= board.columns(),
    ensures
        board.score_upto(team, n) <= score_limit(n, board.rows) <= score_limit(
            board.columns(),
            board.rows,
        ),
        board.score(team) <= score_limit(board.columns(), board.rows),
{
    let rows = board.rows;
    let columns = board.columns();
    lemma_score_upto_bound(board, team, n);
    lemma_score_upto_bound(board, team, columns);
    assert(6 * rows * rows * n <= 6 * rows * rows * columns) by (nonlinear_arith)
        requires
            n <= columns,
    ;
}

proof fn lemma_score_upto_bound(board: BoardModel, team: Team, n: nat)
    requires
        board.wf(),
        n <= board.columns(),
    ensures
        board.score_upto(team, n) <= score_limit(n, board.rows),
    decreases n,
{
    let rows = board.rows;
    if n > 0 {
        lemma_score_upto_bound(board, team, (n - 1) as nat);
        lemma_points_bound(board.grid(team)[n - 1], 0);
        assert(6 * rows * rows * (n - 1) + 6 * rows * rows == 6 * rows * rows * n)
            by (nonlinear_arith);
    } else {
        assert(6 * rows * rows * 0 == 0) by (nonlinear_arith);
    }
}

/// Two boards on which the columns of `team` are the same but for column
/// `c` differ in the score of `team`, and in the number of its dice, by what
/// column `c` differs.
pub proof fn lemma_changed_column(
    before: BoardModel,
    after: BoardModel,
    team: Team,
    c: int,
    n: nat,
)
    requires
        before.grid(team).len() == after.grid(team).len(),
        0 <= c < before.grid(team).len(),
        n <= before.grid(team).len(),
        forall|k: int|
            0 <= k < before.grid(team).len() && k != c ==> #[trigger] after.grid(team)[k]
                == before.grid(team)[k],
    ensures
        c < n ==> after.score_upto(team, n) + points(before.grid(team)[c]) == before.score_upto(
            team,
            n,
        ) + points(after.grid(team)[c]),
        c >= n ==> after.score_upto(team, n) == before.score_upto(team, n),
        c < n ==> after.dice_upto(team, n) + filled(before.grid(team)[c]) == before.dice_upto(
            team,
            n,
        ) + filled(after.grid(team)[c]),
        c >= n ==> after.dice_upto(team, n) == before.dice_upto(team, n),
    decreases n,
{
    if n > 0 {
        lemma_changed_column(before, after, team, c, (n - 1) as nat);
        if c != n - 1 {
            assert(after.grid(team)[n - 1] == before.grid(team)[n - 1]);
        }
    }
}

/// A legal move leaves the board well formed.
pub proof fn lemma_place_wf(board: BoardModel, team: Team, column: int, face: usize)
    requires
        board.wf(),
        board.legal(team, column),
        valid_face(face),
    ensures
        board.place(team, column, face).wf(),
        board.place(team, column, face).rows == board.rows,
        board.place(team, column, face).columns() == board.columns(),
{
    let after = board.place(team, column, face);
    lemma_last_gap(board.grid(team)[column]);
    assert(valid_column(drop_die(board.grid(team)[column], face)));
    assert(valid_column(bump(board.grid(team.rival())[column], face)));
    assert forall|c: int| 0 <= c < after.red.len() implies (#[trigger] after.red[c]).len()
        == after.rows && valid_column(after.red[c]) by {
        if c != column {
            assert(after.red[c] == board.red[c]);
        }
    }
    assert forall|c: int| 0 <= c < after.blue.len() implies (#[trigger] after.blue[c]).len()
        == after.rows && valid_column(after.blue[c]) by {
        if c != column {
            assert(after.blue[c] == board.blue[c]);
        }
    }
}

/// What a legal move does to the scores and to the numbers of dice. With
/// `k` dice showing `face` in the mover's column and `m` in the rival's, the
/// mover gains `face * (2 * k + 1)` and one die, and the rival loses
/// `face * m * m` and `m` dice.
pub proof fn lemma_place_counts(board: BoardModel, team: Team, column: int, face: usize)
    requires
        board.wf(),
        board.legal(team, column),
        valid_face(face),
    ensures
        board.place(team, column, face).score(team) == board.score(team) + face * (2 * occurrences(
            board.grid(team)[column],
            face,
        ) + 1),
        board.place(team, column, face).score(team.rival()) + face_points(
            board.grid(team.rival())[column],
            face,
        ) == board.score(team.rival()),
        board.place(team, column, face).dice(team) == board.dice(team) + 1,
        board.place(team, column, face).dice(team.rival()) + occurrences(
            board.grid(team.rival())[column],
            face,
        ) == board.dice(team.rival()),
{
    let after = board.place(team, column, face);
    let rival = team.rival();
    let own = board.grid(team)[column];
    let other = board.grid(rival)[column];
    lemma_changed_column(board, after, team, column, board.columns());
    lemma_changed_column(board, after, rival, column, board.columns());
    lemma_drop_die_points(own, face);
    lemma_drop_die_occurrences(own, face, face);
    lemma_bump_points(other, face);
    lemma_bump_occurrences(other, face, face);
    lemma_occurrences_bound(other, face);
}

/// A legal move raises the mover's lead by the face of the die at least:
/// by `face * (2 * k + 1) + face * m * m`, with `k` and `m` as above.
pub proof fn lemma_gain(board: BoardModel, team: Team, column: int, face: usize)
    requires
        board.wf(),
        board.legal(team, column),
        valid_face(face),
    ensures
        board.gain(team, column, face) == face * (2 * occurrences(board.grid(team)[column], face)
            + 1) + face_points(board.grid(team.rival())[column], face),
        board.gain(team, column, face) >= face,
{
    lemma_place_counts(board, team, column, face);
    let k = occurrences(board.grid(team)[column], face);
    assert(face * (2 * k + 1) >= face) by (nonlinear_arith);
}

/// On a well-formed board a team has at most as many dice as its grid has
/// slots.
pub proof fn lemma_dice_bound(board: BoardModel, team: Team, n: nat)
    requires
        board.wf(),
        n <= board.columns(),
    ensures
        board.dice_upto(team, n) <= n * board.rows,
        board.dice(team) <= board.columns() * board.rows,
{
    lemma_dice_upto_bound(board, team, n);
    lemma_dice_upto_bound(board, team, board.columns());
}

proof fn lemma_dice_upto_bound(board: BoardModel, team: Team, n: nat)
    requires
        board.wf(),
        n <= board.columns(),
    ensures
        board.dice_upto(team, n) <= n * board.rows,
    decreases n,
{
    if n > 0 {
        lemma_dice_upto_bound(board, team, (n - 1) as nat);
        lemma_occurrences_bound(board.grid(team)[n - 1], 1);
        assert((n - 1) * board.rows + board.rows == n * board.rows) by (nonlinear_arith);
    } else {
        assert(0 * board.rows == 0) by (nonlinear_arith);
    }
}

} // verus!
