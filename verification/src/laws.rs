//! Laws of the game, proved of the model.
//!
//! Each law here is a public proof function. It holds of every board, move
//! and game that meets its `requires`.

use vstd::prelude::*;
use crate::column::{
    filled, has_gap, last_gap, lemma_bump_occurrences, lemma_last_gap, lemma_occurrences_bound,
    lemma_points_ignore_order, occurrences, points, valid_face, Cell, MAX_FACE,
};
use crate::game::{lemma_turn_keeps_rival_open, GameModel};
use crate::model::{
    lemma_dice_bound, lemma_gain, lemma_place_counts, lemma_place_wf, BoardModel, Team,
};
use crate::strategy::{first_best, greedy_choice, some_beats_roll};

verus! {

/// One move: `team` puts a die showing `face` into `column`.
pub struct Move {
    pub team: Team,
    pub column: int,
    pub face: usize,
}

/// The board after the moves were made on it, one after the other.
pub open spec fn after_moves(board: BoardModel, moves: Seq<Move>) -> BoardModel
    decreases moves.len(),
{
    if moves.len() == 0 {
        board
    } else {
        let last = moves.last();
        after_moves(board, moves.drop_last()).place(last.team, last.column, last.face)
    }
}

/// Each of the moves is legal on the board that the moves before it left, and
/// places a face that a die can show.
pub open spec fn all_legal(board: BoardModel, moves: Seq<Move>) -> bool
    decreases moves.len(),
{
    if moves.len() == 0 {
        true
    } else {
        let last = moves.last();
        &&& all_legal(board, moves.drop_last())
        &&& after_moves(board, moves.drop_last()).legal(last.team, last.column)
        &&& valid_face(last.face)
    }
}

/// After any sequence of legal moves the board is well formed, and no column
/// holds more dice than it has slots.
pub proof fn law_column_never_overfull(
    board: BoardModel,
    moves: Seq<Move>,
    team: Team,
    column: int,
)
    requires
        board.wf(),
        all_legal(board, moves),
        board.has_column(column),
    ensures
        after_moves(board, moves).wf(),
        after_moves(board, moves).rows == board.rows,
        after_moves(board, moves).columns() == board.columns(),
        filled(after_moves(board, moves).grid(team)[column]) <= board.rows,
    decreases moves.len(),
{
    if moves.len() > 0 {
        let last = moves.last();
        law_column_never_overfull(board, moves.drop_last(), team, column);
        lemma_place_wf(after_moves(board, moves.drop_last()), last.team, last.column, last.face);
    }
    lemma_occurrences_bound(after_moves(board, moves).grid(team)[column], 1);
}

/// A move changes two columns and no other: the mover's column gets the die
/// in its last empty slot, and the rival's column of the same index loses
/// every die that shows the same face and keeps every other cell.
pub proof fn law_move_bumps_mirrored_column(
    board: BoardModel,
    team: Team,
    column: int,
    face: usize,
)
    requires
        board.wf(),
        board.legal(team, column),
    ensures
        ({
            let after = board.place(team, column, face);
            let rival = team.rival();
            let slot = last_gap(board.grid(team)[column]);
            &&& forall|r: int|
                0 <= r < board.rows ==> #[trigger] after.grid(rival)[column][r] == if board.grid(
                    rival,
                )[column][r] == Some(face) {
                    None
                } else {
                    board.grid(rival)[column][r]
                }
            &&& forall|r: int|
                0 <= r < board.rows ==> #[trigger] after.grid(rival)[column][r] != Some(face)
            &&& occurrences(after.grid(rival)[column], face) == 0
            &&& forall|c: int|
                0 <= c < board.columns() && c != column ==> #[trigger] after.grid(rival)[c]
                    == board.grid(rival)[c]
            &&& forall|c: int|
                0 <= c < board.columns() && c != column ==> #[trigger] after.grid(team)[c]
                    == board.grid(team)[c]
            &&& 0 <= slot < board.rows
            &&& board.grid(team)[column][slot] is None
            &&& after.grid(team)[column] == board.grid(team)[column].update(slot, Some(face))
        }),
{
    lemma_last_gap(board.grid(team)[column]);
    lemma_bump_occurrences(board.grid(team.rival())[column], face, face);
}

/// A grid is full exactly when it holds as many dice as it has slots.
pub proof fn law_side_filled_counts(board: BoardModel, team: Team)
    requires
        board.wf(),
    ensures
        board.side_filled(team) <==> board.dice(team) == board.columns() * board.rows,
{
    lemma_filled_upto(board, team, board.columns());
    if board.side_filled(team) {
        assert forall|c: int| 0 <= c < board.columns() implies !has_gap(
            #[trigger] board.grid(team)[c],
        ) by {
            assert(!board.has_space(team, c));
        }
    }
}

/// A column is full exactly when it holds as many dice as it has slots.
pub proof fn lemma_gap_counts(col: Seq<Cell>)
    ensures
        has_gap(col) <==> filled(col) < col.len(),
{
    broadcast use vstd::seq_lib::group_to_multiset_ensures;

    lemma_occurrences_bound(col, 1);
    if has_gap(col) {
        let r = choose|r: int| 0 <= r < col.len() && (#[trigger] col[r]) is None;
        assert(col[r] == None::<usize>);
        assert(col.contains(None));
    }
    if filled(col) < col.len() {
        assert(col.contains(None));
        let r = choose|r: int| 0 <= r < col.len() && col[r] == None::<usize>;
        assert(col[r] is None);
    }
}

proof fn lemma_filled_upto(board: BoardModel, team: Team, n: nat)
    requires
        board.wf(),
        n <= board.columns(),
    ensures
        board.dice_upto(team, n) <= n * board.rows,
        board.dice_upto(team, n) == n * board.rows <==> forall|c: int|
            0 <= c < n ==> !has_gap(#[trigger] board.grid(team)[c]),
    decreases n,
{
    if n > 0 {
        lemma_filled_upto(board, team, (n - 1) as nat);
        let col = board.grid(team)[n - 1];
        lemma_gap_counts(col);
        lemma_occurrences_bound(col, 1);
        assert((n - 1) * board.rows + board.rows == n * board.rows) by (nonlinear_arith);
        if board.dice_upto(team, n) == n * board.rows {
            assert forall|c: int| 0 <= c < n implies !has_gap(#[trigger] board.grid(team)[c]) by {
                if c < n - 1 {
                }
            }
        }
    } else {
        assert(0 * board.rows == 0) by (nonlinear_arith);
    }
}

/// The score of a column does not depend on the order of its cells.
pub proof fn law_score_ignores_order(left: Seq<Cell>, right: Seq<Cell>)
    requires
        left.to_multiset() == right.to_multiset(),
    ensures
        points(left) == points(right),
{
    lemma_points_ignore_order(left, right, MAX_FACE as nat);
}

/// `next` comes out of `n` turns of this game, each a legal move of the team
/// to move that bumps no die of the rival.
pub open spec fn plays_quietly(game: GameModel, next: GameModel, n: nat) -> bool
    decreases n,
{
    if n == 0 {
        next == game
    } else {
        exists|mid: GameModel, turn: Move|
            plays_quietly(game, mid, (n - 1) as nat) && #[trigger] quiet_turn(mid, turn, next)
    }
}

/// `next` comes out of `game` by `turn`, which is a legal move of the team to
/// move and bumps no die of the rival.
pub open spec fn quiet_turn(game: GameModel, turn: Move, next: GameModel) -> bool {
    &&& game.state.mover() == Some(turn.team)
    &&& valid_face(turn.face)
    &&& game.board.legal(turn.team, turn.column)
    &&& occurrences(game.board.grid(turn.team.rival())[turn.column], turn.face) == 0
    &&& next == game.turn(turn.team, turn.face, turn.column)
}

/// As long as no die is bumped, every turn adds one die to the board, and a
/// game that is not `Done` has an empty slot in either grid. So a game in
/// which no die is bumped has fewer turns than the board has slots,
/// `2 * columns * rows`, and is `Done` after the last of them.
pub proof fn law_quiet_game_is_short(game: GameModel, next: GameModel, n: nat)
    requires
        game.wf(),
        plays_quietly(game, next, n),
    ensures
        next.wf(),
        next.board.rows == game.board.rows,
        next.board.columns() == game.board.columns(),
        next.board.dice(Team::Red) + next.board.dice(Team::Blue) == game.board.dice(Team::Red)
            + game.board.dice(Team::Blue) + n,
        n <= 2 * game.board.columns() * game.board.rows,
        !(next.state is Done) ==> n + 2 <= 2 * game.board.columns() * game.board.rows,
    decreases n,
{
    if n > 0 {
        let (mid, turn) = choose|mid: GameModel, turn: Move|
            plays_quietly(game, mid, (n - 1) as nat) && #[trigger] quiet_turn(mid, turn, next);
        law_quiet_game_is_short(game, mid, (n - 1) as nat);
        lemma_place_wf(mid.board, turn.team, turn.column, turn.face);
        lemma_place_counts(mid.board, turn.team, turn.column, turn.face);
        lemma_turn_keeps_rival_open(mid, turn.team, turn.face, turn.column);
    }
    lemma_dice_bound(next.board, Team::Red, 0);
    lemma_dice_bound(next.board, Team::Blue, 0);
    law_side_filled_counts(next.board, Team::Red);
    law_side_filled_counts(next.board, Team::Blue);
    let slots = game.board.columns() * game.board.rows;
    assert(2 * game.board.columns() * game.board.rows == slots + slots) by (nonlinear_arith)
        requires
            slots == game.board.columns() * game.board.rows,
    ;
}

/// Whatever the coin, the dice and the strategies do, a well-formed game
/// stays well formed, on a board of the same size.
pub proof fn law_game_stays_well_formed(game: GameModel, next: GameModel, n: nat)
    requires
        game.wf(),
        game.reaches(next, n),
    ensures
        next.wf(),
        next.board.rows == game.board.rows,
        next.board.columns() == game.board.columns(),
    decreases n,
{
    if n > 0 {
        let mid = choose|mid: GameModel|
            game.reaches(mid, (n - 1) as nat) && #[trigger] mid.steps_to(next);
        law_game_stays_well_formed(game, mid, (n - 1) as nat);
        if mid.state.mover() is Some {
            let team = mid.state.mover().unwrap();
            let (face, column) = choose|face: usize, column: usize|
                valid_face(face) && mid.strategy(team).may_pick(mid.board, team, face, column)
                    && next == #[trigger] mid.turn(team, face, column as int);
            lemma_place_wf(mid.board, team, column as int, face);
            lemma_turn_keeps_rival_open(mid, team, face, column as int);
        }
    }
}

/// The greedy choice is a legal move, and no legal move raises the lead by
/// more: not the random move it falls back on, and no other.
pub proof fn law_greedy_is_best(
    board: BoardModel,
    team: Team,
    face: usize,
    fallback: usize,
    pick: usize,
)
    requires
        board.wf(),
        valid_face(face),
        board.legal(team, fallback as int),
        greedy_choice(board, team, face, fallback, pick),
    ensures
        board.legal(team, pick as int),
        board.gain(team, pick as int, face) >= board.gain(team, fallback as int, face),
        forall|c: int| #[trigger]
            board.legal(team, c) ==> board.gain(team, c, face) <= board.gain(
                team,
                pick as int,
                face,
            ),
{
    if some_beats_roll(board, team, face) {
        assert(first_best(board, team, face, pick as int));
    } else {
        lemma_gain(board, team, fallback as int, face);
        assert forall|c: int| #[trigger] board.legal(team, c) implies board.gain(team, c, face)
            <= board.gain(team, pick as int, face) by {
            assert(!(board.legal(team, c) && board.gain(team, c, face) > face));
        }
    }
}

/// A move that clears dice of the rival or joins a die of its own face
/// beats the roll; any other move raises the lead by the roll exactly.
pub proof fn law_gain_beats_roll(board: BoardModel, team: Team, column: int, face: usize)
    requires
        board.wf(),
        board.legal(team, column),
        valid_face(face),
    ensures
        board.gain(team, column, face) > face <==> occurrences(board.grid(team)[column], face) > 0
            || occurrences(board.grid(team.rival())[column], face) > 0,
        board.gain(team, column, face) >= face,
{
    lemma_gain(board, team, column, face);
    let k = occurrences(board.grid(team)[column], face);
    let m = occurrences(board.grid(team.rival())[column], face);
    assert(face * (2 * k + 1) + face * m * m > face <==> k > 0 || m > 0) by (nonlinear_arith)
        requires
            face >= 1,
    ;
}

} // verus!
