//! The rounds of a run.

use vstd::prelude::*;

verus! {

/// The round that follows `round` after a pause, or nothing after the last one.
pub fn next_round(round: u32, rounds: u32) -> (res: Option<u32>)
    ensures
        res == following_round(round, rounds),
{
    if round < rounds {
        Some(round + 1)
    } else {
        None
    }
}

/// The round that follows `round` in a run of `rounds` rounds.
pub open spec fn following_round(round: u32, rounds: u32) -> Option<u32> {
    if round < rounds {
        Some((round + 1) as u32)
    } else {
        None
    }
}

/// The rounds of a run from `round` on.
pub open spec fn rounds_from(round: u32, rounds: u32) -> Seq<u32>
    decreases rounds - round,
{
    match following_round(round, rounds) {
        Some(next) => seq![round] + rounds_from(next, rounds),
        None => seq![round],
    }
}

/// A run that starts with its first round goes through every round once, in order, and ends after
/// the last; so there is one pause less than there are rounds.
pub proof fn law_run_has_all_rounds(rounds: u32)
    requires
        rounds > 0,
    ensures
        rounds_from(1, rounds).len() == rounds,
        forall|i: int| 0 <= i < rounds ==> rounds_from(1, rounds)[i] == i + 1,
{
    lemma_rounds_from(1, rounds);
}

proof fn lemma_rounds_from(round: u32, rounds: u32)
    requires
        0 < round <= rounds,
    ensures
        rounds_from(round, rounds).len() == rounds - round + 1,
        forall|i: int| 0 <= i <= rounds - round ==> rounds_from(round, rounds)[i] == round + i,
    decreases rounds - round,
{
    if round < rounds {
        let next = (round + 1) as u32;
        lemma_rounds_from(next, rounds);
        assert forall|i: int| 0 <= i <= rounds - round implies rounds_from(round, rounds)[i]
            == round + i by {
            if i > 0 {
                assert(rounds_from(next, rounds)[i - 1] == next + (i - 1));
            }
        }
    }
}

/// Every round but the last is followed by the one with the next number, and the last by none.
pub proof fn law_rounds_are_counted_up(round: u32, rounds: u32)
    ensures
        round < rounds ==> following_round(round, rounds) is Some && following_round(round, rounds)->0
            == round + 1,
        round >= rounds ==> following_round(round, rounds) is None,
{
}

} // verus!
