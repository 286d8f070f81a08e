//! What holds of the token store across several operations.

use crate::auth::{accepts, available, fresh, issued, pruned, validated, Grant, TOKEN_DURATION};
use vstd::prelude::*;

verus! {

/// A token is accepted for the path it was issued for as long as less than
/// `TOKEN_DURATION` has passed since, and for no path at all from then on.
pub proof fn lemma_token_expiry(
    m: Map<u64, Grant>,
    id: u64,
    path: Seq<char>,
    issued_at: u64,
    now: u64,
    presented: Seq<char>,
)
    requires
        id != 0,
        issued_at <= now,
    ensures
        now - issued_at < TOKEN_DURATION ==> accepts(
            issued(m, id, path, issued_at),
            path,
            id,
            now,
        ),
        now - issued_at >= TOKEN_DURATION ==> !accepts(
            issued(m, id, path, issued_at),
            presented,
            id,
            now,
        ),
{
}

/// A token is refused for every path but the one it was issued for, at any time.
pub proof fn lemma_path_scoping(
    m: Map<u64, Grant>,
    id: u64,
    path: Seq<char>,
    issued_at: u64,
    now: u64,
    presented: Seq<char>,
)
    requires
        presented != path,
    ensures
        !accepts(issued(m, id, path, issued_at), presented, id, now),
{
}

/// The identifier zero is refused whatever the store holds, for every path, at any time.
pub proof fn lemma_zero_is_never_valid(m: Map<u64, Grant>, path: Seq<char>, now: u64)
    ensures
        !accepts(m, path, 0, now),
{
}

/// Presenting a token does not use it up: a token that was accepted at `now` is accepted
/// again at any `later` time at which it has not expired.
pub proof fn lemma_validation_is_repeatable(
    m: Map<u64, Grant>,
    id: u64,
    path: Seq<char>,
    now: u64,
    later: u64,
)
    requires
        accepts(m, path, id, now),
        now <= later,
        fresh(m[id].issued_at, later, TOKEN_DURATION),
    ensures
        accepts(validated(m, id, now), path, id, now),
        accepts(validated(m, id, now), path, id, later),
{
}

/// Whatever else is presented or issued in between, at a time no later than `now`, a token
/// that is valid at `now` stays in the store unchanged.
pub proof fn lemma_valid_tokens_survive(
    m: Map<u64, Grant>,
    id: u64,
    path: Seq<char>,
    now: u64,
    other: u64,
    other_path: Seq<char>,
    at: u64,
)
    requires
        accepts(m, path, id, now),
        at <= now,
    ensures
        accepts(validated(m, other, at), path, id, now),
        available(m, other, at) ==> accepts(issued(m, other, other_path, at), path, id, now),
{
}

/// Dropping the expired tokens at `at` and again at a later `now` leaves what dropping
/// them at `now` alone leaves.
pub proof fn lemma_pruned_again(m: Map<u64, Grant>, at: u64, now: u64, ttl: u64)
    requires
        at <= now,
    ensures
        pruned(pruned(m, at, ttl), now, ttl) == pruned(m, now, ttl),
{
    assert(pruned(pruned(m, at, ttl), now, ttl) =~= pruned(m, now, ttl));
}

/// One token handed out: its identifier, the path it is for, and the time.
pub struct Issue {
    pub id: u64,
    pub path: Seq<char>,
    pub at: u64,
}

/// What a store holding `m` holds after the tokens `issues` were handed out in order.
pub open spec fn issued_all(m: Map<u64, Grant>, issues: Seq<Issue>) -> Map<u64, Grant>
    decreases issues.len(),
{
    if issues.len() == 0 {
        m
    } else {
        let last = issues.last();
        issued(issued_all(m, issues.drop_last()), last.id, last.path, last.at)
    }
}

/// Whether each of `issues` carried an identifier that was available when it was handed
/// out, as `authorize` sees to.
pub open spec fn each_available(m: Map<u64, Grant>, issues: Seq<Issue>) -> bool
    decreases issues.len(),
{
    issues.len() > 0 ==> {
        &&& each_available(m, issues.drop_last())
        &&& available(issued_all(m, issues.drop_last()), issues.last().id, issues.last().at)
    }
}

/// Once every one of a run of issued tokens has expired, dropping the expired tokens
/// leaves what it would have left had none of them been issued: the store is back at its
/// baseline, and empty if it was empty before.
pub proof fn lemma_pruning_restores_baseline(m: Map<u64, Grant>, issues: Seq<Issue>, now: u64)
    requires
        each_available(m, issues),
        forall|i: int|
            0 <= i < issues.len() ==> (#[trigger] issues[i]).at <= now && now - issues[i].at
                >= TOKEN_DURATION,
    ensures
        pruned(issued_all(m, issues), now, TOKEN_DURATION) == pruned(m, now, TOKEN_DURATION),
        m.len() == 0 && m.dom().finite() ==> pruned(issued_all(m, issues), now, TOKEN_DURATION)
            == Map::<u64, Grant>::empty(),
    decreases issues.len(),
{
    if issues.len() > 0 {
        let last = issues.last();
        let earlier = issues.drop_last();
        assert forall|i: int| 0 <= i < earlier.len() implies (#[trigger] earlier[i]).at <= now
            && now - earlier[i].at >= TOKEN_DURATION by {
            assert(earlier[i] == issues[i]);
        }
        lemma_pruning_restores_baseline(m, earlier, now);
        let held = issued_all(m, earlier);
        lemma_pruned_again(held, last.at, now, TOKEN_DURATION);
        assert(pruned(issued(held, last.id, last.path, last.at), now, TOKEN_DURATION) =~= pruned(
            pruned(held, last.at, TOKEN_DURATION),
            now,
            TOKEN_DURATION,
        ));
    }
    if m.len() == 0 && m.dom().finite() {
        assert(m.dom() =~= Set::<u64>::empty());
        assert(pruned(m, now, TOKEN_DURATION) =~= Map::<u64, Grant>::empty());
    }
}

} // verus!
