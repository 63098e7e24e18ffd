use vstd::prelude::*;

use crate::address::ClientAddress;
use crate::table::{bump, count_of, lemma_count_bump, lemma_total_bump, occurrences, replay, total};

verus! {

/// Counting requests one after another is counting them all at once: the
/// table after `addrs` and then `a` is the table after `addrs`, bumped by `a`.
pub proof fn lemma_replay_push(s: Seq<(ClientAddress, nat)>, addrs: Seq<ClientAddress>, a: ClientAddress)
    ensures
        replay(s, addrs.push(a)) == bump(replay(s, addrs), a),
    decreases addrs.len(),
{
    if addrs.len() == 0 {
        assert(addrs.push(a).skip(1) =~= Seq::<ClientAddress>::empty());
        assert(addrs.push(a)[0] == a);
        assert(replay(bump(s, a), Seq::<ClientAddress>::empty()) == bump(s, a));
        assert(replay(s, addrs) == s);
    } else {
        assert(addrs.push(a).skip(1) =~= addrs.skip(1).push(a));
        assert(addrs.push(a)[0] == addrs[0]);
        lemma_replay_push(bump(s, addrs[0]), addrs.skip(1), a);
    }
}

/// Each request adds exactly one to the count of its own address.
pub proof fn lemma_replay_counts(s: Seq<(ClientAddress, nat)>, addrs: Seq<ClientAddress>, b: ClientAddress)
    ensures
        count_of(replay(s, addrs), b) == count_of(s, b) + occurrences(addrs, b),
        total(replay(s, addrs)) == total(s) + addrs.len(),
    decreases addrs.len(),
{
    if addrs.len() > 0 {
        lemma_count_bump(s, addrs[0], b);
        lemma_total_bump(s, addrs[0]);
        lemma_replay_counts(bump(s, addrs[0]), addrs.skip(1), b);
    }
}

proof fn lemma_occurrences_concat(x: Seq<ClientAddress>, y: Seq<ClientAddress>, b: ClientAddress)
    ensures
        occurrences(x + y, b) == occurrences(x, b) + occurrences(y, b),
    decreases x.len(),
{
    if x.len() == 0 {
        assert(x + y =~= y);
    } else {
        assert((x + y).skip(1) =~= x.skip(1) + y);
        lemma_occurrences_concat(x.skip(1), y, b);
    }
}

/// Any number of requests counted into an empty table and then drained:
/// the snapshot's counts add up to exactly the number of requests, and each
/// address is credited with exactly its own requests.
pub proof fn lemma_drain_accounts_for_all(addrs: Seq<ClientAddress>, b: ClientAddress)
    ensures
        total(replay(Seq::empty(), addrs)) == addrs.len(),
        count_of(replay(Seq::empty(), addrs), b) == occurrences(addrs, b),
{
    lemma_replay_counts(Seq::empty(), addrs, b);
}

/// Requests `before` a drain and requests `after` it: each request is
/// credited to exactly one of the drained snapshot and the fresh table that
/// the drain leaves, never to both and never to neither.
pub proof fn lemma_drain_splits_requests(
    before: Seq<ClientAddress>,
    after: Seq<ClientAddress>,
    b: ClientAddress,
)
    ensures
        count_of(replay(Seq::empty(), before), b) == occurrences(before, b),
        count_of(replay(Seq::empty(), after), b) == occurrences(after, b),
        count_of(replay(Seq::empty(), before), b) + count_of(replay(Seq::empty(), after), b)
            == occurrences(before + after, b),
        total(replay(Seq::empty(), before)) + total(replay(Seq::empty(), after)) == before.len()
            + after.len(),
{
    lemma_replay_counts(Seq::empty(), before, b);
    lemma_replay_counts(Seq::empty(), after, b);
    lemma_occurrences_concat(before, after, b);
}

} // verus!
