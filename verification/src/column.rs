//! One column of the board, as a sequence of cells.
//!
//! A column has a fixed number of slots. A slot is either empty (`None`) or
//! holds the face of a die (`Some(face)`). Everything here is specification:
//! the functions say what placing a die, bumping and scoring mean for a single
//! column, and the lemmas relate them to each other.

use vstd::prelude::*;
use vstd::multiset::*;
use vstd::seq_lib::*;

verus! {

/// A slot of a column: empty, or the face of the die that lies in it.
pub type Cell = Option<usize>;

/// The largest face of a die; the smallest is 1.
pub const MAX_FACE: usize = 6;

/// A face that a die can show.
pub open spec fn valid_face(face: usize) -> bool {
    1 <= face <= MAX_FACE
}

/// A cell is valid when it is empty or holds a face that a die can show.
pub open spec fn valid_cell(cell: Cell) -> bool {
    cell matches Some(face) ==> valid_face(face)
}

/// A column is valid when each of its cells is.
pub open spec fn valid_column(col: Seq<Cell>) -> bool {
    forall|r: int| 0 <= r < col.len() ==> valid_cell(#[trigger] col[r])
}

/// The column has at least one empty slot.
pub open spec fn has_gap(col: Seq<Cell>) -> bool {
    exists|r: int| 0 <= r < col.len() && (#[trigger] col[r]) is None
}

/// The highest index of an empty slot, or -1 when the column is full.
pub open spec fn last_gap(col: Seq<Cell>) -> int
    decreases col.len(),
{
    if col.len() == 0 {
        -1
    } else if col.last() is None {
        col.len() - 1
    } else {
        last_gap(col.drop_last())
    }
}

/// The column after a die showing `face` was put into its last empty slot.
pub open spec fn drop_die(col: Seq<Cell>, face: usize) -> Seq<Cell> {
    col.update(last_gap(col), Some(face))
}

/// The column after every die showing `face` was taken out of it.
pub open spec fn bump(col: Seq<Cell>, face: usize) -> Seq<Cell> {
    Seq::new(col.len(), |r: int| if col[r] == Some(face) { None } else { col[r] })
}

/// How many dice in the column show `face`.
pub open spec fn occurrences(col: Seq<Cell>, face: usize) -> nat {
    col.to_multiset().count(Some(face))
}

/// How many slots of the column hold a die.
pub open spec fn filled(col: Seq<Cell>) -> nat {
    (col.len() - col.to_multiset().count(None)) as nat
}

/// What the dice showing `face` are worth together: the face times the square
/// of their number.
pub open spec fn face_points(col: Seq<Cell>, face: usize) -> nat {
    (face as nat) * occurrences(col, face) * occurrences(col, face)
}

/// The worth of the dice that show a face from 1 to `top`.
pub open spec fn points_upto(col: Seq<Cell>, top: nat) -> nat
    decreases top,
{
    if top == 0 {
        0
    } else {
        points_upto(col, (top - 1) as nat) + face_points(col, top as usize)
    }
}

/// The score of a column: for each face, the face times the square of the
/// number of dice that show it.
pub open spec fn points(col: Seq<Cell>) -> nat {
    points_upto(col, MAX_FACE as nat)
}

/// How many dice in the column show a face from 1 to `top`.
pub open spec fn occurrences_upto(col: Seq<Cell>, top: nat) -> nat
    decreases top,
{
    if top == 0 {
        0
    } else {
        occurrences_upto(col, (top - 1) as nat) + occurrences(col, top as usize)
    }
}

/// `last_gap` finds an empty slot exactly when there is one, and no slot
/// above it is empty.
pub proof fn lemma_last_gap(col: Seq<Cell>)
    ensures
        -1 <= last_gap(col) < col.len(),
        has_gap(col) <==> last_gap(col) >= 0,
        last_gap(col) >= 0 ==> col[last_gap(col)] is None,
        forall|r: int| last_gap(col) < r < col.len() ==> (#[trigger] col[r]) is Some,
    decreases col.len(),
{
    if col.len() == 0 {
    } else if col.last() is None {
    } else {
        let rest = col.drop_last();
        lemma_last_gap(rest);
        assert forall|r: int| last_gap(col) < r < col.len() implies (#[trigger] col[r]) is Some by {
            if r < rest.len() {
                assert(rest[r] is Some);
            }
        }
        if has_gap(col) {
            let r = choose|r: int| 0 <= r < col.len() && (#[trigger] col[r]) is None;
            assert(rest[r] is None);
        }
        if last_gap(col) >= 0 {
            assert(col[last_gap(rest)] is None);
        }
    }
}

/// Appending a cell adds one occurrence of the face it holds, and none of
/// any other face.
pub proof fn lemma_occurrences_push(col: Seq<Cell>, cell: Cell, face: usize)
    ensures
        occurrences(col.push(cell), face) == occurrences(col, face) + if cell == Some(face) {
            1nat
        } else {
            0nat
        },
        col.push(cell).to_multiset().count(None) == col.to_multiset().count(None) + if cell is None {
            1nat
        } else {
            0nat
        },
{
    broadcast use {group_to_multiset_ensures, group_multiset_axioms, group_multiset_properties};

}

/// An empty column holds no die.
pub proof fn lemma_occurrences_empty(face: usize)
    ensures
        occurrences(Seq::<Cell>::empty(), face) == 0,
        Seq::<Cell>::empty().to_multiset().count(None) == 0,
{
    broadcast use {group_to_multiset_ensures, group_multiset_axioms, group_multiset_properties};

}

/// No face occurs more often than the column has slots, and the empty slots
/// are at most that many too.
pub proof fn lemma_occurrences_bound(col: Seq<Cell>, face: usize)
    ensures
        occurrences(col, face) <= col.len(),
        col.to_multiset().count(None) <= col.len(),
        filled(col) <= col.len(),
{
    to_multiset_len(col);
    axiom_count_le_len(col.to_multiset(), Some(face));
    axiom_count_le_len(col.to_multiset(), None);
}

/// In a valid column the dice showing a face up to `top` are among the dice
/// in the column; with `top` the largest face they are all of them.
pub proof fn lemma_occurrences_upto(col: Seq<Cell>, top: nat)
    requires
        valid_column(col),
        top <= MAX_FACE,
    ensures
        occurrences_upto(col, top) <= filled(col),
        top == MAX_FACE ==> occurrences_upto(col, top) == filled(col),
    decreases col.len(),
{
    lemma_occurrences_bound(col, 1);
    if col.len() == 0 {
        assert(col =~= Seq::<Cell>::empty());
        lemma_occurrences_upto_empty(top);
        lemma_occurrences_empty(1);
    } else {
        let rest = col.drop_last();
        let cell = col.last();
        assert(col =~= rest.push(cell));
        assert(valid_column(rest)) by {
            assert forall|r: int| 0 <= r < rest.len() implies valid_cell(#[trigger] rest[r]) by {
                assert(rest[r] == col[r]);
            }
        }
        assert(valid_cell(col[col.len() - 1]));
        lemma_occurrences_upto(rest, top);
        lemma_occurrences_bound(rest, 1);
        lemma_occurrences_upto_push(rest, cell, top);
        lemma_occurrences_push(rest, cell, 1);
    }
}

proof fn lemma_occurrences_upto_empty(top: nat)
    ensures
        occurrences_upto(Seq::<Cell>::empty(), top) == 0,
    decreases top,
{
    if top > 0 {
        lemma_occurrences_upto_empty((top - 1) as nat);
        lemma_occurrences_empty(top as usize);
    }
}

proof fn lemma_occurrences_upto_push(col: Seq<Cell>, cell: Cell, top: nat)
    requires
        top <= MAX_FACE,
    ensures
        occurrences_upto(col.push(cell), top) == occurrences_upto(col, top) + if cell matches Some(
            face,
        ) && 1 <= face <= top {
            1nat
        } else {
            0nat
        },
    decreases top,
{
    if top > 0 {
        lemma_occurrences_upto_push(col, cell, (top - 1) as nat);
        lemma_occurrences_push(col, cell, top as usize);
    }
}

/// The dice showing a face up to `top` are worth at most the largest face
/// times the square of their number.
proof fn lemma_points_upto_bound(col: Seq<Cell>, top: nat)
    requires
        top <= MAX_FACE,
    ensures
        points_upto(col, top) <= MAX_FACE * occurrences_upto(col, top) * occurrences_upto(col, top),
    decreases top,
{
    if top > 0 {
        lemma_points_upto_bound(col, (top - 1) as nat);
        let before = occurrences_upto(col, (top - 1) as nat);
        let here = occurrences(col, top as usize);
        assert(6 * before * before + top * here * here <= 6 * (before + here) * (before + here))
            by (nonlinear_arith)
            requires
                top <= 6,
        ;
    }
}

/// A valid column scores at most the largest face times the square of the
/// number of its slots, and so does every part of the sum.
pub proof fn lemma_points_bound(col: Seq<Cell>, top: nat)
    requires
        valid_column(col),
        top <= MAX_FACE,
    ensures
        points_upto(col, top) <= points(col) <= MAX_FACE * col.len() * col.len(),
    decreases MAX_FACE - top,
{
    if top < MAX_FACE {
        lemma_points_bound(col, top + 1);
    } else {
        lemma_points_upto_bound(col, top);
        lemma_occurrences_upto(col, top);
        lemma_occurrences_bound(col, 1);
        let dice = occurrences_upto(col, top);
        let slots = col.len();
        assert(6 * dice * dice <= 6 * slots * slots) by (nonlinear_arith)
            requires
                dice <= slots,
        ;
    }
}

/// Bumping takes dice out and puts none in: a column with an empty slot
/// still has one afterwards.
pub proof fn lemma_bump_keeps_gap(col: Seq<Cell>, face: usize)
    requires
        has_gap(col),
    ensures
        has_gap(bump(col, face)),
{
    let r = choose|r: int| 0 <= r < col.len() && (#[trigger] col[r]) is None;
    assert(bump(col, face)[r] is None);
}

/// Dropping a die into a column with an empty slot adds one die showing
/// its face and changes nothing else.
pub proof fn lemma_drop_die_occurrences(col: Seq<Cell>, face: usize, other: usize)
    requires
        has_gap(col),
    ensures
        occurrences(drop_die(col, face), other) == occurrences(col, other) + if other == face {
            1nat
        } else {
            0nat
        },
        filled(drop_die(col, face)) == filled(col) + 1,
{
    broadcast use {group_to_multiset_ensures, group_multiset_axioms, group_multiset_properties};

    lemma_last_gap(col);
    let gap = last_gap(col);
    assert(col[gap] == None::<usize>);
    to_multiset_update(col, gap, Some(face));
    lemma_occurrences_bound(col, face);
    lemma_occurrences_bound(drop_die(col, face), face);
    assert(col.to_multiset().count(None) > 0);
}

/// Bumping a face takes every die showing it out of the column and leaves
/// the others.
pub proof fn lemma_bump_occurrences(col: Seq<Cell>, face: usize, other: usize)
    ensures
        occurrences(bump(col, face), other) == if other == face {
            0
        } else {
            occurrences(col, other)
        },
        filled(bump(col, face)) + occurrences(col, face) == filled(col),
    decreases col.len(),
{
    lemma_occurrences_bound(col, face);
    lemma_occurrences_bound(bump(col, face), face);
    if col.len() == 0 {
        assert(col =~= Seq::<Cell>::empty());
        assert(bump(col, face) =~= Seq::<Cell>::empty());
        lemma_occurrences_empty(other);
        lemma_occurrences_empty(face);
    } else {
        let rest = col.drop_last();
        let cell = col.last();
        let bumped = if cell == Some(face) {
            None
        } else {
            cell
        };
        assert(col =~= rest.push(cell));
        assert(bump(col, face) =~= bump(rest, face).push(bumped));
        lemma_bump_occurrences(rest, face, other);
        lemma_occurrences_bound(rest, face);
        lemma_occurrences_bound(bump(rest, face), face);
        lemma_occurrences_push(rest, cell, other);
        lemma_occurrences_push(rest, cell, face);
        lemma_occurrences_push(bump(rest, face), bumped, other);
        lemma_occurrences_push(bump(rest, face), bumped, face);
    }
}

/// Dropping a die showing `face` raises the part of the score up to `top`
/// by the worth of one more die of that face, once `top` reaches the face.
proof fn lemma_drop_die_points_upto(col: Seq<Cell>, face: usize, top: nat)
    requires
        has_gap(col),
        top <= MAX_FACE,
    ensures
        points_upto(drop_die(col, face), top) == points_upto(col, top) + if 1 <= face <= top {
            face * (2 * occurrences(col, face) + 1)
        } else {
            0
        },
    decreases top,
{
    if top > 0 {
        lemma_drop_die_points_upto(col, face, (top - 1) as nat);
        lemma_drop_die_occurrences(col, face, top as usize);
        let had = occurrences(col, top as usize);
        if top == face {
            assert(top * (had + 1) * (had + 1) == top * had * had + top * (2 * had + 1))
                by (nonlinear_arith);
        }
    }
}

/// Bumping `face` lowers the part of the score up to `top` by the worth of
/// the dice of that face, once `top` reaches the face.
proof fn lemma_bump_points_upto(col: Seq<Cell>, face: usize, top: nat)
    requires
        top <= MAX_FACE,
    ensures
        points_upto(col, top) == points_upto(bump(col, face), top) + if 1 <= face <= top {
            face_points(col, face)
        } else {
            0
        },
    decreases top,
{
    if top > 0 {
        lemma_bump_points_upto(col, face, (top - 1) as nat);
        lemma_bump_occurrences(col, face, top as usize);
        if top == face {
            assert(top * 0 * 0 == 0) by (nonlinear_arith);
        }
    }
}

/// Dropping a die showing `face` into a column that holds `k` dice of that
/// face raises the score of the column by `face * (2 * k + 1)`.
pub proof fn lemma_drop_die_points(col: Seq<Cell>, face: usize)
    requires
        has_gap(col),
        valid_face(face),
    ensures
        points(drop_die(col, face)) == points(col) + face * (2 * occurrences(col, face) + 1),
{
    lemma_drop_die_points_upto(col, face, MAX_FACE as nat);
}

/// Bumping `face` lowers the score of the column by what its dice of that
/// face were worth.
pub proof fn lemma_bump_points(col: Seq<Cell>, face: usize)
    requires
        valid_face(face),
    ensures
        points(col) == points(bump(col, face)) + face_points(col, face),
{
    lemma_bump_points_upto(col, face, MAX_FACE as nat);
}

/// Two columns with the same cells in any order score the same up to every
/// face.
pub proof fn lemma_points_ignore_order(left: Seq<Cell>, right: Seq<Cell>, top: nat)
    requires
        left.to_multiset() == right.to_multiset(),
    ensures
        points_upto(left, top) == points_upto(right, top),
    decreases top,
{
    if top > 0 {
        lemma_points_ignore_order(left, right, (top - 1) as nat);
    }
}

} // verus!
