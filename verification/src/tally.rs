//! The tally of many games: how often each team won, and how often neither.

use vstd::prelude::*;

verus! {

/// How many games Red won, how many Blue won, and how many were tied.
#[derive(Clone, Copy, Debug, PartialEq, Eq, Structural)]
pub struct TotalWins {
    pub red_wins: usize,
    pub blue_wins: usize,
    pub ties: usize,
}

impl TotalWins {
    /// The number of games counted.
    pub open spec fn games(self) -> nat {
        (self.red_wins + self.blue_wins + self.ties) as nat
    }

    /// The two tallies can be added: no counter overflows.
    pub open spec fn can_add(self, other: TotalWins) -> bool {
        &&& self.red_wins + other.red_wins <= usize::MAX
        &&& self.blue_wins + other.blue_wins <= usize::MAX
        &&& self.ties + other.ties <= usize::MAX
    }

    /// The sum of two tallies, counter by counter.
    pub open spec fn plus(self, other: TotalWins) -> TotalWins {
        TotalWins {
            red_wins: (self.red_wins + other.red_wins) as usize,
            blue_wins: (self.blue_wins + other.blue_wins) as usize,
            ties: (self.ties + other.ties) as usize,
        }
    }

    /// The tally with one more game in it, which ended with `scores` for Red
    /// and for Blue: the higher score wins, equal scores tie.
    pub open spec fn with_game(self, scores: (usize, usize)) -> TotalWins {
        if scores.0 > scores.1 {
            TotalWins { red_wins: (self.red_wins + 1) as usize, ..self }
        } else if scores.0 < scores.1 {
            TotalWins { blue_wins: (self.blue_wins + 1) as usize, ..self }
        } else {
            TotalWins { ties: (self.ties + 1) as usize, ..self }
        }
    }

    /// The tally of no game.
    pub fn new() -> (tally: Self)
        ensures
            tally == (TotalWins { red_wins: 0, blue_wins: 0, ties: 0 }),
            tally.games() == 0,
    {
        TotalWins { red_wins: 0, blue_wins: 0, ties: 0 }
    }

    /// The sum of this tally and `other`.
    pub fn add(&self, other: TotalWins) -> (sum: Self)
        requires
            self.can_add(other),
        ensures
            sum == self.plus(other),
            sum.games() == self.games() + other.games(),
    {
        TotalWins {
            red_wins: self.red_wins + other.red_wins,
            blue_wins: self.blue_wins + other.blue_wins,
            ties: self.ties + other.ties,
        }
    }

    /// Counts one more game, which ended with `scores` for Red and for Blue.
    pub fn record(&mut self, scores: (usize, usize))
        requires
            old(self).games() < usize::MAX,
        ensures
            *final(self) == old(self).with_game(scores),
            final(self).games() == old(self).games() + 1,
    {
        if scores.0 > scores.1 {
            self.red_wins += 1;
        } else if scores.0 < scores.1 {
            self.blue_wins += 1;
        } else {
            self.ties += 1;
        }
    }
}

/// Adding tallies gives the same sum in either order.
pub proof fn lemma_plus_commutes(a: TotalWins, b: TotalWins)
    ensures
        a.can_add(b) == b.can_add(a),
        a.plus(b) == b.plus(a),
{
}

/// Adding three tallies gives the same sum however they are grouped.
pub proof fn lemma_plus_associates(a: TotalWins, b: TotalWins, c: TotalWins)
    requires
        a.can_add(b),
        a.plus(b).can_add(c),
    ensures
        b.can_add(c),
        a.can_add(b.plus(c)),
        a.plus(b).plus(c) == a.plus(b.plus(c)),
{
}

} // verus!
