//! The strategies: how a team picks the column for the die it rolled.
//!
//! A strategy sees the board, whose turn it is and the roll, and answers with
//! a column that has an empty slot. `Strategy::Random` picks any such column.
//! `Strategy::MinMax` looks one move ahead: it takes the column that raises the
//! team's lead the most, if that beats the roll itself, and a random column
//! otherwise.

use vstd::prelude::*;
use vstd::pervasive::unreached;
use crate::board::{lemma_fits, Board};
use crate::column::valid_face;
use crate::game::GameState;
use crate::model::{lemma_score_bound, BoardModel, Team};
use crate::random::random_in_range;

verus! {

/// `columns` lists the legal moves of `team`: every column with an empty
/// slot, each once, in rising order.
pub open spec fn lists_legal(board: BoardModel, team: Team, columns: Seq<usize>) -> bool {
    &&& forall|i: int| 0 <= i < columns.len() ==> board.legal(team, #[trigger] columns[i] as int)
    &&& forall|i: int, j: int| 0 <= i < j < columns.len() ==> columns[i] < columns[j]
    &&& forall|c: int| #[trigger]
        board.legal(team, c) ==> exists|i: int| 0 <= i < columns.len() && columns[i] == c
}

/// Some legal move of `team` raises its lead by more than the face of the
/// die.
pub open spec fn some_beats_roll(board: BoardModel, team: Team, face: usize) -> bool {
    exists|c: int| #[trigger] board.legal(team, c) && board.gain(team, c, face) > face
}

/// `pick` is the leftmost of the legal moves that raise the lead of `team`
/// the most, and it raises the lead by more than the face of the die.
pub open spec fn first_best(board: BoardModel, team: Team, face: usize, pick: int) -> bool {
    &&& board.legal(team, pick)
    &&& board.gain(team, pick, face) > face
    &&& forall|c: int| #[trigger]
        board.legal(team, c) ==> board.gain(team, c, face) <= board.gain(team, pick, face)
    &&& forall|c: int| #[trigger]
        board.legal(team, c) && c < pick ==> board.gain(team, c, face) < board.gain(
            team,
            pick,
            face,
        )
}

/// `pick` is the greedy choice: where some legal move beats the roll, the
/// leftmost of the moves that raise the lead the most; where none does,
/// `fallback`.
pub open spec fn greedy_choice(
    board: BoardModel,
    team: Team,
    face: usize,
    fallback: usize,
    pick: usize,
) -> bool {
    if some_beats_roll(board, team, face) {
        first_best(board, team, face, pick as int)
    } else {
        pick == fallback
    }
}

/// The columns in which `team` can place a die, in rising order.
pub fn legal_columns(board: &Board, team: &Team) -> (columns: Vec<usize>)
    requires
        board.wf(),
    ensures
        lists_legal(board@, *team, columns@),
{
    let mut valid_answers: Vec<usize> = Vec::new();
    let count = board.columns();
    let mut i: usize = 0;
    while i < count
        invariant
            board.wf(),
            i <= count == board@.columns(),
            forall|k: int|
                0 <= k < valid_answers@.len() ==> board@.legal(*team, #[trigger] valid_answers@[k] as int)
                    && valid_answers@[k] < i,
            forall|k: int, j: int|
                0 <= k < j < valid_answers@.len() ==> valid_answers@[k] < valid_answers@[j],
            forall|c: int|
                0 <= c < i && #[trigger] board@.legal(*team, c) ==> exists|k: int|
                    0 <= k < valid_answers@.len() && valid_answers@[k] == c,
        decreases count - i,
    {
        if board.has_space(team, i) {
            let ghost before = valid_answers@;
            valid_answers.push(i);
            proof {
                assert forall|c: int| 0 <= c < i + 1 && #[trigger] board@.legal(
                    *team,
                    c,
                ) implies exists|k: int| 0 <= k < valid_answers@.len() && valid_answers@[k] == c by {
                    if c < i {
                        let k = choose|k: int| 0 <= k < before.len() && before[k] == c;
                        assert(valid_answers@[k] == c);
                    } else {
                        assert(valid_answers@[before.len() as int] == c);
                    }
                }
            }
        }
        i += 1;
    }
    valid_answers
}

/// The team whose turn it is.
pub fn team_to_move(state: &GameState) -> (team: Team)
    requires
        state.mover() is Some,
    ensures
        state.mover() == Some(team),
{
    match state {
        GameState::RedsTurn => Team::Red,
        GameState::BluesTurn => Team::Blue,
        _ => unreached(),
    }
}

/// Picks one of the columns in which the team to move can place its die,
/// each with the same chance.
pub fn strategy_random(board: &Board, state: &GameState, _roll: &usize) -> (column: usize)
    requires
        board.wf(),
        state.mover() is Some,
        !board@.side_filled(state.mover().unwrap()),
    ensures
        board@.legal(state.mover().unwrap(), column as int),
{
    let team = team_to_move(state);
    let valid_answers = legal_columns(board, &team);
    proof {
        let c = choose|c: int| 0 <= c < board@.columns() && board@.has_space(team, c);
        assert(board@.legal(team, c));
    }
    let index = random_in_range(0, valid_answers.len() - 1);
    valid_answers[index]
}

/// By how much `team` is ahead of its rival.
pub fn lead(board: &Board, team: &Team) -> (lead: isize)
    requires
        board.wf(),
    ensures
        lead == board@.lead(*team),
{
    proof {
        lemma_fits(board@.columns(), board@.rows);
        lemma_score_bound(board@, Team::Red, 0);
        lemma_score_bound(board@, Team::Blue, 0);
    }
    let own_score = board.calculate_score(team) as isize;
    let opposite_score = board.calculate_score(&team.opponent()) as isize;
    own_score - opposite_score
}

/// By how much the lead of `team` grows when it puts a die showing `roll`
/// into `column`. The move is tried on a copy; the board stays as it is.
pub fn improvement(board: &Board, team: &Team, column: usize, roll: usize) -> (gain: isize)
    requires
        board.wf(),
        board@.legal(*team, column as int),
        valid_face(roll),
    ensures
        gain == board@.gain(*team, column as int, roll),
{
    let mut board_copy = board.clone();
    board_copy.insert(team, column, roll);
    proof {
        lemma_fits(board@.columns(), board@.rows);
        lemma_score_bound(board@, Team::Red, 0);
        lemma_score_bound(board@, Team::Blue, 0);
        lemma_score_bound(board_copy@, Team::Red, 0);
        lemma_score_bound(board_copy@, Team::Blue, 0);
    }
    let current_diff = lead(board, team);
    let future_diff = lead(&board_copy, team);
    future_diff - current_diff
}

/// The greedy search: tries each legal move on a copy of the board and keeps
/// the first that raises the lead the most, if that is more than the roll;
/// else it answers `fallback`.
pub fn best_answer(
    board: &Board,
    team: &Team,
    roll: usize,
    valid_answers: &Vec<usize>,
    fallback: usize,
) -> (best: usize)
    requires
        board.wf(),
        valid_face(roll),
        lists_legal(board@, *team, valid_answers@),
    ensures
        greedy_choice(board@, *team, roll, fallback, best),
{
    let mut best_answer = fallback;
    let mut best_improvement: isize = roll as isize;
    let ghost mut at: int = -1;
    let mut k: usize = 0;
    while k < valid_answers.len()
        invariant
            board.wf(),
            valid_face(roll),
            lists_legal(board@, *team, valid_answers@),
            k <= valid_answers@.len(),
            -1 <= at < k,
            at == -1 ==> best_answer == fallback && best_improvement == roll,
            at >= 0 ==> best_answer == valid_answers@[at] && best_improvement > roll,
            at >= 0 ==> best_improvement == board@.gain(*team, valid_answers@[at] as int, roll),
            forall|j: int|
                0 <= j < k ==> board@.gain(*team, #[trigger] valid_answers@[j] as int, roll)
                    <= best_improvement,
            forall|j: int|
                0 <= j < at ==> board@.gain(*team, #[trigger] valid_answers@[j] as int, roll)
                    < best_improvement,
        decreases valid_answers@.len() - k,
    {
        let answer = valid_answers[k];
        let improvement = improvement(board, team, answer, roll);
        if improvement > best_improvement {
            best_improvement = improvement;
            best_answer = answer;
            proof {
                at = k as int;
            }
        }
        k += 1;
    }
    proof {
        let answers = valid_answers@;
        assert forall|c: int| #[trigger] board@.legal(*team, c) implies board@.gain(*team, c, roll)
            <= best_improvement && (at >= 0 && c < answers[at] ==> board@.gain(*team, c, roll)
            < best_improvement) by {
            let j = choose|j: int| 0 <= j < answers.len() && answers[j] == c;
            assert(board@.gain(*team, answers[j] as int, roll) <= best_improvement);
            if at >= 0 && c < answers[at] {
                if j >= at {
                    assert(answers[at] <= answers[j]);
                }
            }
        }
        if at >= 0 {
            assert(board@.legal(*team, answers[at] as int));
        }
    }
    best_answer
}

/// Looks one move ahead: where some legal move raises the lead of the team
/// to move by more than `roll`, picks the leftmost of the moves that raise it
/// the most; where none does, picks a legal move at random.
pub fn strategy_min_max(board: &Board, state: &GameState, roll: &usize) -> (column: usize)
    requires
        board.wf(),
        state.mover() is Some,
        valid_face(*roll),
        !board@.side_filled(state.mover().unwrap()),
    ensures
        board@.legal(state.mover().unwrap(), column as int),
        exists|fallback: usize| #[trigger]
            board@.legal(state.mover().unwrap(), fallback as int) && greedy_choice(
                board@,
                state.mover().unwrap(),
                *roll,
                fallback,
                column,
            ),
{
    let team = team_to_move(state);
    let valid_answers = legal_columns(board, &team);
    proof {
        let c = choose|c: int| 0 <= c < board@.columns() && board@.has_space(team, c);
        assert(board@.legal(team, c));
    }
    let index = random_in_range(0, valid_answers.len() - 1);
    let fallback = valid_answers[index];
    let best = best_answer(board, &team, *roll, &valid_answers, fallback);
    proof {
        assert(board@.legal(team, fallback as int));
    }
    best
}

/// How a team picks its column.
#[derive(Clone, Copy, Debug, PartialEq, Eq, Structural)]
pub enum Strategy {
    /// Any legal move, each with the same chance.
    Random,
    /// The greedy choice one move ahead, with a random legal move to fall
    /// back on.
    MinMax,
}

impl Strategy {
    /// `column` is an answer that this strategy can give.
    pub open spec fn may_pick(
        self,
        board: BoardModel,
        team: Team,
        face: usize,
        column: usize,
    ) -> bool {
        &&& board.legal(team, column as int)
        &&& self is MinMax ==> exists|fallback: usize| #[trigger]
            board.legal(team, fallback as int) && greedy_choice(board, team, face, fallback, column)
    }

    /// The column that the strategy picks for the team to move.
    pub fn pick(&self, board: &Board, state: &GameState, roll: &usize) -> (column: usize)
        requires
            board.wf(),
            state.mover() is Some,
            valid_face(*roll),
            !board@.side_filled(state.mover().unwrap()),
        ensures
            self.may_pick(board@, state.mover().unwrap(), *roll, column),
    {
        match self {
            Strategy::Random => strategy_random(board, state, roll),
            Strategy::MinMax => strategy_min_max(board, state, roll),
        }
    }
}

} // verus!
