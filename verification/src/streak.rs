//! The failures of one server over several rounds of the cleaner.

use vstd::prelude::*;
use crate::cleaner::{
    after_visits, count_of, fresh_round, is_round, law_round_keeps_only_failing_servers,
    law_round_settles_each_server, probed, visit_to, Visit,
};

verus! {

/// How often in a row a server has failed after rounds in which it was alive or not, if `stored`
/// failures in a row were counted before them. A server that is deleted starts again without
/// failures.
pub open spec fn streak(stored: nat, alive: Seq<bool>, failure_threshold: u32) -> nat
    decreases alive.len(),
{
    if alive.len() == 0 {
        stored
    } else if alive.last() {
        0
    } else {
        let count = streak(stored, alive.drop_last(), failure_threshold) + 1;
        if count >= failure_threshold {
            0
        } else {
            count
        }
    }
}

/// Whether everything by such a server is deleted in the last of these rounds.
pub open spec fn is_deleted(stored: nat, alive: Seq<bool>, failure_threshold: u32) -> bool {
    alive.len() > 0 && !alive.last() && streak(stored, alive.drop_last(), failure_threshold) + 1
        >= failure_threshold
}

/// A server is deleted only when as many of its last probes as the threshold says have all failed.
/// The failures that were counted before the rounds are among them only if every probe since has
/// failed.
pub proof fn law_deletion_needs_failures_in_a_row(
    stored: nat,
    alive: Seq<bool>,
    failure_threshold: u32,
)
    requires
        failure_threshold > 0,
        is_deleted(stored, alive, failure_threshold),
    ensures
        ({
            ||| alive.len() >= failure_threshold && forall|i: int|
                alive.len() - failure_threshold <= i < alive.len() ==> !alive[i]
            ||| stored + alive.len() >= failure_threshold && forall|i: int|
                0 <= i < alive.len() ==> !alive[i]
        }),
{
    let front = alive.drop_last();
    lemma_streak(stored, front, failure_threshold);
    assert forall|i: int| 0 <= i < front.len() implies front[i] == alive[i] by {}
    if stored + front.len() == streak(stored, front, failure_threshold) && forall|i: int|
        0 <= i < front.len() ==> !front[i] {
        assert forall|i: int| 0 <= i < alive.len() implies !alive[i] by {
            if i < front.len() {
                assert(!front[i]);
            }
        }
    } else {
        assert forall|i: int| alive.len() - failure_threshold <= i < alive.len() implies !alive[i] by {
            if i < front.len() {
                assert(!front[i]);
            }
        }
    }
}

/// A server that was alive the last time, or comes with the failures that were counted before, and
/// then fails in one round after the other is deleted in the round in which the number of failures
/// reaches the threshold, and in none before. If the count has reached it already, the first
/// failure is enough.
pub proof fn law_dead_server_is_deleted_at_the_threshold(
    stored: nat,
    before: Seq<bool>,
    failed: nat,
    failure_threshold: u32,
)
    requires
        before.len() == 0 || before.last(),
        failed == 1 || 1 < failed <= failure_threshold - counted_before(stored, before),
    ensures
        is_deleted(stored, before + Seq::new(failed, |i: int| false), failure_threshold)
            <==> counted_before(stored, before) + failed >= failure_threshold,
{
    lemma_failures_add_up(stored, before, (failed - 1) as nat, failure_threshold);
    let alive = before + Seq::new(failed, |i: int| false);
    assert(alive.drop_last() =~= before + Seq::new((failed - 1) as nat, |i: int| false));
}

/// The failures that count after rounds of which the last, if there is one, found the server alive:
/// those that were counted before if there is none, and none otherwise.
pub open spec fn counted_before(stored: nat, before: Seq<bool>) -> nat {
    if before.len() == 0 {
        stored
    } else {
        0
    }
}

proof fn lemma_failures_add_up(stored: nat, before: Seq<bool>, failed: nat, failure_threshold: u32)
    requires
        before.len() == 0 || before.last(),
        failed == 0 || counted_before(stored, before) + failed < failure_threshold,
    ensures
        streak(stored, before + Seq::new(failed, |i: int| false), failure_threshold)
            == counted_before(stored, before) + failed,
    decreases failed,
{
    let alive = before + Seq::new(failed, |i: int| false);
    if failed == 0 {
        assert(alive =~= before);
    } else {
        lemma_failures_add_up(stored, before, (failed - 1) as nat, failure_threshold);
        assert(alive.drop_last() =~= before + Seq::new((failed - 1) as nat, |i: int| false));
    }
}

proof fn lemma_streak(stored: nat, alive: Seq<bool>, failure_threshold: u32)
    requires
        failure_threshold > 0,
    ensures
        ({
            let count = streak(stored, alive, failure_threshold);
            ||| count < failure_threshold && count <= alive.len() && forall|i: int|
                alive.len() - count <= i < alive.len() ==> !alive[i]
            ||| count == stored + alive.len() && forall|i: int|
                0 <= i < alive.len() ==> !alive[i]
        }),
    decreases alive.len(),
{
    if alive.len() > 0 && !alive.last() {
        let front = alive.drop_last();
        lemma_streak(stored, front, failure_threshold);
        assert forall|i: int| 0 <= i < front.len() implies front[i] == alive[i] by {}
        let count = streak(stored, front, failure_threshold);
        if count == stored + front.len() && forall|i: int| 0 <= i < front.len() ==> !front[i] {
            assert forall|i: int| 0 <= i < alive.len() implies !alive[i] by {
                if i < front.len() {
                    assert(!front[i]);
                }
            }
        } else {
            assert forall|i: int|
                alive.len() - streak(stored, alive, failure_threshold) <= i
                    < alive.len() implies !alive[i] by {
                if i < front.len() {
                    assert(!front[i]);
                }
            }
        }
    }
}

/// A round as it went: the authors of the announcements, and the visit to each server.
pub struct PastRound {
    pub pubkeys: Seq<Seq<char>>,
    pub visits: Seq<Visit>,
}

impl PastRound {
    /// Whether the server `pubkey` had an announcement and was not alive.
    pub open spec fn failed(self, pubkey: Seq<char>) -> bool {
        self.pubkeys.contains(pubkey) && !self.visits[visit_to(self.pubkeys, pubkey)].alive
    }
}

/// The failure counts after `rounds`, each of which starts with those that the one before has left.
pub open spec fn counts_after(
    failures: Map<Seq<char>, u32>,
    rounds: Seq<PastRound>,
    local_relay: Seq<char>,
    failure_threshold: u32,
) -> Map<Seq<char>, u32>
    decreases rounds.len(),
{
    if rounds.len() == 0 {
        failures
    } else {
        after_visits(
            fresh_round(
                rounds.last().pubkeys,
                counts_after(failures, rounds.drop_last(), local_relay, failure_threshold),
                local_relay,
                failure_threshold,
            ),
            rounds.last().visits,
        ).failures
    }
}

/// The count that is kept of a server after the rounds is the number of rounds in a row in which it
/// has failed, and goes on from the count that it had before them, if it had one. It does so whatever
/// happens to other servers and however many announcements the server has; a round in which it has
/// none ends the row. It is deleted in the last of the rounds exactly when that number reaches the
/// threshold there. After a round it has an entry only while the number is not zero.
pub proof fn law_rounds_count_failures_in_a_row(
    failures: Map<Seq<char>, u32>,
    rounds: Seq<PastRound>,
    local_relay: Seq<char>,
    failure_threshold: u32,
    pubkey: Seq<char>,
)
    requires
        failure_threshold > 0,
        forall|k: int|
            0 <= k < rounds.len() ==> is_round(
                (#[trigger] rounds[k]).pubkeys,
                counts_after(failures, rounds.take(k), local_relay, failure_threshold),
                local_relay,
                failure_threshold,
                rounds[k].visits,
            ),
    ensures
        ({
            let stored = count_of(failures, pubkey) as nat;
            let alive = Seq::new(rounds.len(), |k: int| !rounds[k].failed(pubkey));
            let counts = counts_after(failures, rounds, local_relay, failure_threshold);
            &&& count_of(counts, pubkey) == streak(stored, alive, failure_threshold)
            &&& rounds.len() > 0 ==> (counts.contains_key(pubkey) <==> streak(
                stored,
                alive,
                failure_threshold,
            ) > 0)
            &&& rounds.len() > 0 && !rounds.last().pubkeys.contains(pubkey) ==> !is_deleted(
                stored,
                alive,
                failure_threshold,
            )
            &&& rounds.len() > 0 && rounds.last().pubkeys.contains(pubkey) ==> {
                let last = fresh_round(
                    rounds.last().pubkeys,
                    counts_after(failures, rounds.drop_last(), local_relay, failure_threshold),
                    local_relay,
                    failure_threshold,
                );
                let i = visit_to(rounds.last().pubkeys, pubkey);
                probed(
                    after_visits(last, rounds.last().visits.take(i)),
                    rounds.last().visits[i],
                ).stage is Delete <==> is_deleted(stored, alive, failure_threshold)
            }
        }),
    decreases rounds.len(),
{
    if rounds.len() > 0 {
        let front = rounds.drop_last();
        let n = rounds.len() - 1;
        let alive = Seq::new(rounds.len(), |k: int| !rounds[k].failed(pubkey));
        assert forall|k: int| 0 <= k < front.len() implies is_round(
            (#[trigger] front[k]).pubkeys,
            counts_after(failures, front.take(k), local_relay, failure_threshold),
            local_relay,
            failure_threshold,
            front[k].visits,
        ) by {
            assert(front.take(k) =~= rounds.take(k));
            assert(front[k] == rounds[k]);
        }
        law_rounds_count_failures_in_a_row(
            failures,
            front,
            local_relay,
            failure_threshold,
            pubkey,
        );
        assert(alive.drop_last() =~= Seq::new(front.len(), |k: int| !front[k].failed(pubkey)));
        assert(rounds.take(n) =~= front);
        let prior = counts_after(failures, front, local_relay, failure_threshold);
        assert(is_round(
            rounds[n].pubkeys,
            counts_after(failures, rounds.take(n), local_relay, failure_threshold),
            local_relay,
            failure_threshold,
            rounds[n].visits,
        ));
        if rounds[n].pubkeys.contains(pubkey) {
            law_round_settles_each_server(
                rounds[n].pubkeys,
                prior,
                local_relay,
                failure_threshold,
                rounds[n].visits,
                pubkey,
            );
        } else {
            law_round_keeps_only_failing_servers(
                rounds[n].pubkeys,
                prior,
                local_relay,
                failure_threshold,
                rounds[n].visits,
            );
        }
    }
}

} // verus!
