//! The board: storage for both grids, placing a die, and scoring.
//!
//! The cells of both grids lie in one vector: first the columns of Red, then
//! those of Blue, each column as `rows` consecutive cells. Contracts speak of
//! the board through its view, a `BoardModel`.

use vstd::prelude::*;
use vstd::slice::slice_subrange;
use crate::column::{
    last_gap, lemma_last_gap, lemma_occurrences_empty, lemma_occurrences_push, lemma_points_bound,
    occurrences, points, points_upto, valid_column, valid_face, Cell, MAX_FACE,
};
use crate::model::{lemma_score_bound, score_limit, BoardModel, Team};

verus! {

/// The board of one game.
pub struct Board {
    data: Vec<Option<usize>>,
    columns: usize,
    rows: usize,
}

/// A board of this size can be stored, and each score on it, each lead and
/// each change of a lead fits an `isize`.
pub open spec fn fits(columns: nat, rows: nat) -> bool {
    2 * score_limit(columns, rows) <= isize::MAX
}

/// Where the cells of a grid begin in storage.
spec fn base(team: Team, columns: int, rows: int) -> int {
    match team {
        Team::Red => 0,
        Team::Blue => rows * columns,
    }
}

/// The columns of one grid, cut out of the stored cells.
spec fn grid_of(cells: Seq<Cell>, team: Team, columns: int, rows: int) -> Seq<Seq<Cell>> {
    Seq::new(
        columns as nat,
        |c: int|
            cells.subrange(
                base(team, columns, rows) + c * rows,
                base(team, columns, rows) + c * rows + rows,
            ),
    )
}

impl View for Board {
    type V = BoardModel;

    closed spec fn view(&self) -> BoardModel {
        BoardModel {
            rows: self.rows as nat,
            red: grid_of(self.data@, Team::Red, self.columns as int, self.rows as int),
            blue: grid_of(self.data@, Team::Blue, self.columns as int, self.rows as int),
        }
    }
}

/// A column lies inside the cells of its grid, and the grids lie inside
/// storage.
proof fn lemma_column_range(team: Team, columns: int, rows: int, column: int)
    requires
        0 <= column < columns,
        0 <= rows,
    ensures
        0 <= base(team, columns, rows) <= base(team, columns, rows) + column * rows,
        base(team, columns, rows) + column * rows + rows <= base(team, columns, rows) + rows
            * columns <= 2 * rows * columns,
        rows * columns + rows * columns == 2 * rows * columns,
{
    assert(0 <= column * rows && column * rows + rows <= rows * columns && 0 <= rows * columns)
        by (nonlinear_arith)
        requires
            0 <= column < columns,
            0 <= rows,
    ;
    assert(rows * columns + rows * columns == 2 * rows * columns) by (nonlinear_arith);
}

/// Two different columns of one grid share no cell.
proof fn lemma_columns_apart(rows: int, left: int, right: int)
    requires
        0 <= left < right,
        0 <= rows,
    ensures
        left * rows + rows <= right * rows,
{
    assert(left * rows + rows <= right * rows) by (nonlinear_arith)
        requires
            0 <= left < right,
            0 <= rows,
    ;
}

/// A board that fits has few enough cells to be stored.
pub proof fn lemma_fits(columns: nat, rows: nat)
    requires
        fits(columns, rows),
    ensures
        rows * columns <= 2 * rows * columns <= 2 * score_limit(columns, rows) <= isize::MAX,
{
    assert(rows * columns <= 2 * rows * columns <= 2 * (6 * rows * rows * columns))
        by (nonlinear_arith);
}

impl Board {
    /// The vector holds exactly the cells of both grids.
    pub closed spec fn stored(&self) -> bool {
        self.data@.len() == 2 * self.rows * self.columns
    }

    /// The board is well formed: it is stored as it should be, its size
    /// fits, and its view is well formed.
    pub open spec fn wf(&self) -> bool {
        &&& self.stored()
        &&& fits(self@.columns(), self@.rows)
        &&& self@.wf()
    }

    /// The number of columns of each grid.
    pub fn columns(&self) -> (n: usize)
        ensures
            n == self@.columns(),
    {
        self.columns
    }

    /// The number of slots of each column.
    pub fn rows(&self) -> (n: usize)
        ensures
            n == self@.rows,
    {
        self.rows
    }

    /// A board of the given size with every cell empty.
    pub fn empty_board(columns: usize, rows: usize) -> (board: Board)
        requires
            fits(columns as nat, rows as nat),
        ensures
            board.wf(),
            board@ == BoardModel::empty(columns as nat, rows as nat),
    {
        proof {
            lemma_fits(columns as nat, rows as nat);
        }
        let board = Board { data: vec![None; rows * columns * 2], columns, rows };
        proof {
            let model = BoardModel::empty(columns as nat, rows as nat);
            assert forall|i: int| 0 <= i < board.data@.len() implies board.data@[i] == None::<
                usize,
            > by {}
            assert forall|c: int| 0 <= c < columns implies #[trigger] board@.red[c] =~= model.red[c] by {
                lemma_column_range(Team::Red, columns as int, rows as int, c);
            }
            assert forall|c: int| 0 <= c < columns implies #[trigger] board@.blue[c]
                =~= model.blue[c] by {
                lemma_column_range(Team::Blue, columns as int, rows as int, c);
            }
            assert(board@.red =~= model.red);
            assert(board@.blue =~= model.blue);
            assert(rows * columns * 2 == 2 * rows * columns) by (nonlinear_arith);
        }
        board
    }

    /// The cells of one grid, column after column.
    pub fn get_board_half(&self, team: &Team) -> (half: &[Option<usize>])
        requires
            self.wf(),
        ensures
            half@.len() == self@.rows * self@.columns(),
            forall|c: int|
                0 <= c < self@.columns() ==> half@.subrange(c * self@.rows, c * self@.rows + self@.rows)
                    == #[trigger] self@.grid(*team)[c],
    {
        proof {
            lemma_fits(self@.columns(), self@.rows);
            assert(2 * self.rows * self.columns == self.rows * self.columns + self.rows
                * self.columns) by (nonlinear_arith);
        }
        let split_point = self.rows * self.columns;
        let half = match team {
            Team::Red => slice_subrange(self.data.as_slice(), 0, split_point),
            Team::Blue => slice_subrange(self.data.as_slice(), split_point, self.data.len()),
        };
        proof {
            assert forall|c: int| 0 <= c < self@.columns() implies half@.subrange(
                c * self@.rows,
                c * self@.rows + self@.rows,
            ) == #[trigger] self@.grid(*team)[c] by {
                lemma_column_range(*team, self.columns as int, self.rows as int, c);
                assert(half@.subrange(c * self@.rows, c * self@.rows + self@.rows)
                    =~= self@.grid(*team)[c]);
            }
        }
        half
    }

    /// The cells of one column, from the first slot to the last.
    pub fn get_column(&self, team: &Team, column: usize) -> (cells: &[Option<usize>])
        requires
            self.wf(),
            self@.has_column(column as int),
        ensures
            cells@ == self@.grid(*team)[column as int],
    {
        proof {
            lemma_fits(self@.columns(), self@.rows);
            lemma_column_range(*team, self.columns as int, self.rows as int, column as int);
        }
        let board_half = self.get_board_half(team);
        let offset = column * self.rows;
        slice_subrange(board_half, offset, offset + self.rows)
    }

    /// Puts a die showing `roll` into the last empty slot of the column of
    /// `team`, and takes every die showing `roll` out of the rival's column
    /// of the same index.
    pub fn insert(&mut self, team: &Team, column: usize, roll: usize)
        requires
            old(self).wf(),
            old(self)@.legal(*team, column as int),
            valid_face(roll),
        ensures
            final(self).wf(),
            final(self)@ == old(self)@.place(*team, column as int, roll),
    {
        proof {
            lemma_fits(self@.columns(), self@.rows);
            lemma_column_range(Team::Red, self.columns as int, self.rows as int, column as int);
            lemma_column_range(Team::Blue, self.columns as int, self.rows as int, column as int);
        }
        let team_offset: usize;
        let opponent_team_offset: usize;
        match team {
            Team::Red => {
                team_offset = 0;
                opponent_team_offset = self.columns * self.rows;
            },
            Team::Blue => {
                team_offset = self.columns * self.rows;
                opponent_team_offset = 0;
            },
        }
        let ghost own = self@.grid(*team)[column as int];

        let start_index = team_offset + column * self.rows;
        let end_index = start_index + self.rows;

        let mut insertion_index: Option<usize> = None;
        for i in start_index..end_index
            invariant
                *self == *old(self),
                end_index == start_index + self.rows <= self.data@.len(),
                own =~= self.data@.subrange(start_index as int, end_index as int),
                match insertion_index {
                    Some(index) => start_index <= index < i && last_gap(
                        own.take(i - start_index),
                    ) == index - start_index,
                    None => last_gap(own.take(i - start_index)) == -1,
                },
        {
            proof {
                assert(own.take(i + 1 - start_index).drop_last() =~= own.take(i - start_index));
            }
            if self.data[i].is_none() {
                insertion_index = Some(i);
            }
        }
        proof {
            assert(own.take(end_index - start_index) =~= own);
            lemma_last_gap(own);
        }
        let index = insertion_index.unwrap();
        self.data[index] = Some(roll);

        let start_index = opponent_team_offset + column * self.rows;
        let end_index = start_index + self.rows;

        for i in start_index..end_index
            invariant
                self.rows == old(self).rows,
                self.columns == old(self).columns,
                self.data@.len() == old(self).data@.len(),
                end_index == start_index + self.rows <= self.data@.len(),
                !(start_index <= index < end_index),
                forall|j: int|
                    0 <= j < self.data@.len() ==> #[trigger] self.data@[j] == if j == index {
                        Some(roll)
                    } else if start_index <= j < i && old(self).data@[j] == Some(roll) {
                        None
                    } else {
                        old(self).data@[j]
                    },
        {
            let bumped = match self.data[i] {
                Some(face) => face == roll,
                None => false,
            };
            if bumped {
                self.data[i] = None;
            }
        }
        proof {
            let goal = old(self)@.place(*team, column as int, roll);
            let rows = self.rows as int;
            let columns = self.columns as int;
            assert forall|c: int| 0 <= c < columns implies #[trigger] self@.grid(*team)[c]
                =~= goal.grid(*team)[c] by {
                lemma_column_range(*team, columns, rows, c);
                if c < column {
                    lemma_columns_apart(rows, c, column as int);
                } else if c > column {
                    lemma_columns_apart(rows, column as int, c);
                }
            }
            assert forall|c: int| 0 <= c < columns implies #[trigger] self@.grid(team.rival())[c]
                =~= goal.grid(team.rival())[c] by {
                lemma_column_range(team.rival(), columns, rows, c);
                if c < column {
                    lemma_columns_apart(rows, c, column as int);
                } else if c > column {
                    lemma_columns_apart(rows, column as int, c);
                }
            }
            assert(self@.grid(*team) =~= goal.grid(*team));
            assert(self@.grid(team.rival()) =~= goal.grid(team.rival()));
        }
    }

    /// Whether the column of `team` has an empty slot.
    pub fn has_space(&self, team: &Team, column: usize) -> (free: bool)
        requires
            self.wf(),
            self@.has_column(column as int),
        ensures
            free == self@.has_space(*team, column as int),
    {
        let col = self.get_column(team, column);
        let mut r: usize = 0;
        while r < col.len()
            invariant
                r <= col@.len(),
                col@ == self@.grid(*team)[column as int],
                forall|k: int| 0 <= k < r ==> (#[trigger] col@[k]) is Some,
            decreases col@.len() - r,
        {
            if col[r].is_none() {
                return true;
            }
            r += 1;
        }
        false
    }

    /// Whether no column of `team` has an empty slot.
    pub fn is_board_side_filled(&self, team: &Team) -> (full: bool)
        requires
            self.wf(),
        ensures
            full == self@.side_filled(*team),
            full <==> forall|c: int| 0 <= c < self@.columns() ==> !self@.has_space(*team, c),
    {
        let mut i: usize = 0;
        while i < self.columns
            invariant
                self.wf(),
                i <= self.columns == self@.columns(),
                forall|c: int| 0 <= c < i ==> !self@.has_space(*team, c),
            decreases self.columns - i,
        {
            if self.has_space(team, i) {
                return false;
            }
            i += 1;
        }
        true
    }

    /// The score of one column: for each face, the face times the square of
    /// the number of dice in the column that show it.
    pub fn calculate_column_score(&self, team: &Team, column: usize) -> (score: usize)
        requires
            self.wf(),
            self@.has_column(column as int),
        ensures
            score == points(self@.grid(*team)[column as int]),
    {
        let col = self.get_column(team, column);
        let ghost cells = col@;
        let rows = col.len();
        proof {
            lemma_fits(self@.columns(), self@.rows);
            assert(6 * rows * rows <= 6 * rows * rows * self@.columns()) by (nonlinear_arith)
                requires
                    self@.columns() >= 1,
            ;
            assert(cells.take(0) =~= Seq::<Cell>::empty());
            assert forall|face: usize| occurrences(cells.take(0), face) == 0 by {
                lemma_occurrences_empty(face);
            }
        }
        let mut rolls: Vec<usize> = vec![0; MAX_FACE + 1];
        let mut r: usize = 0;
        while r < rows
            invariant
                r <= rows == cells.len(),
                cells == col@,
                valid_column(cells),
                rolls@.len() == MAX_FACE + 1,
                forall|face: usize|
                    face <= MAX_FACE ==> #[trigger] rolls@[face as int] == occurrences(
                        cells.take(r as int),
                        face,
                    ),
                forall|face: usize| #[trigger] occurrences(cells.take(r as int), face) <= r,
            decreases rows - r,
        {
            proof {
                assert(cells.take(r + 1) =~= cells.take(r as int).push(cells[r as int]));
                assert forall|face: usize| #[trigger]
                    occurrences(cells.take(r + 1), face) == occurrences(cells.take(r as int), face)
                        + if cells[r as int] == Some(face) {
                        1nat
                    } else {
                        0nat
                    } by {
                    lemma_occurrences_push(cells.take(r as int), cells[r as int], face);
                }
            }
            match col[r] {
                Some(num) => {
                    let val = rolls[num] + 1;
                    rolls[num] = val;
                },
                None => (),
            }
            r += 1;
        }
        proof {
            assert(cells.take(rows as int) =~= cells);
        }
        let mut score: usize = 0;
        let mut face: usize = 1;
        while face <= MAX_FACE
            invariant
                1 <= face <= MAX_FACE + 1,
                valid_column(cells),
                rows == cells.len(),
                6 * rows * rows <= usize::MAX,
                rolls@.len() == MAX_FACE + 1,
                forall|f: usize|
                    f <= MAX_FACE ==> #[trigger] rolls@[f as int] == occurrences(cells, f),
                score == points_upto(cells, (face - 1) as nat),
            decreases MAX_FACE + 1 - face,
        {
            let count = rolls[face];
            proof {
                lemma_points_bound(cells, face as nat);
                assert(face * count <= face * count * count) by (nonlinear_arith);
            }
            score += face * count * count;
            face += 1;
        }
        score
    }

    /// The score of `team`: the sum of the scores of its columns.
    pub fn calculate_score(&self, team: &Team) -> (score: usize)
        requires
            self.wf(),
        ensures
            score == self@.score(*team),
    {
        let mut score: usize = 0;
        let mut i: usize = 0;
        while i < self.columns
            invariant
                self.wf(),
                i <= self.columns == self@.columns(),
                score == self@.score_upto(*team, i as nat),
            decreases self.columns - i,
        {
            proof {
                lemma_fits(self@.columns(), self@.rows);
                lemma_score_bound(self@, *team, (i + 1) as nat);
            }
            score += self.calculate_column_score(team, i);
            i += 1;
        }
        score
    }
}

impl Clone for Board {
    /// A second board with the same cells.
    fn clone(&self) -> (copy: Self)
        ensures
            copy@ == self@,
            copy.wf() == self.wf(),
    {
        Board { data: self.data.clone(), columns: self.columns, rows: self.rows }
    }
}

} // verus!
