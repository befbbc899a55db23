use dice_game::tally::TotalWins;

#[test]
fn new_tally_is_empty() {
    let tally = TotalWins::new();
    assert_eq!(tally, TotalWins { red_wins: 0, blue_wins: 0, ties: 0 });
}

#[test]
fn record_counts_the_winner() {
    let mut tally = TotalWins::new();
    tally.record((10, 3));
    assert_eq!(tally, TotalWins { red_wins: 1, blue_wins: 0, ties: 0 });
    tally.record((3, 10));
    tally.record((0, 1));
    assert_eq!(tally, TotalWins { red_wins: 1, blue_wins: 2, ties: 0 });
    tally.record((7, 7));
    assert_eq!(tally, TotalWins { red_wins: 1, blue_wins: 2, ties: 1 });
}

#[test]
fn add_sums_each_counter() {
    let a = TotalWins { red_wins: 1, blue_wins: 2, ties: 3 };
    let b = TotalWins { red_wins: 10, blue_wins: 20, ties: 30 };
    let c = TotalWins { red_wins: 5, blue_wins: 0, ties: 7 };
    assert_eq!(a.add(b), TotalWins { red_wins: 11, blue_wins: 22, ties: 33 });
    assert_eq!(a.add(b), b.add(a));
    assert_eq!(a.add(b).add(c), a.add(b.add(c)));
    assert_eq!(a.add(TotalWins::new()), a);
}
