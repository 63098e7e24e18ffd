use vstd::prelude::*;
use vstd::rwlock::{RwLock, RwLockPredicate};

use crate::address::ClientAddress;
use crate::report::{rank, report_sorted};
use crate::table::{counts_view, well_formed, CountTable};

verus! {

/// What the lock guarding the table holds at every release: a well-formed
/// table.
pub struct TableInvariant {}

impl RwLockPredicate<CountTable> for TableInvariant {
    open spec fn inv(self, t: CountTable) -> bool {
        t.wf()
    }
}

/// The request counter shared by all request handlers and the reporter: one
/// count table behind a single lock. Every increment and every drain holds
/// the lock for the whole of its work, so each increment falls entirely
/// before or entirely after any drain.
pub struct RequestCounter {
    lock: RwLock<CountTable, TableInvariant>,
}

impl RequestCounter {
    /// A counter with an empty table.
    pub fn new() -> (c: RequestCounter) {
        let t = CountTable::new();
        RequestCounter { lock: RwLock::new(t, Ghost(TableInvariant {})) }
    }

    /// Records one request from `addr`. A count that has reached the largest
    /// `usize` stays there.
    pub fn increment(&self, addr: ClientAddress) {
        let (mut t, handle) = self.lock.acquire_write();
        if t.count(addr) < usize::MAX {
            t.increment(addr);
        }
        handle.release_write(t);
    }

    /// Takes everything counted since the last drain and leaves the table
    /// empty. The snapshot names each address at most once, each with a
    /// count of at least one.
    pub fn drain_and_reset(&self) -> (r: Vec<(ClientAddress, usize)>)
        ensures
            well_formed(counts_view(r@)),
    {
        let (mut t, handle) = self.lock.acquire_write();
        let r = t.drain_and_reset();
        handle.release_write(t);
        r
    }

    /// One turn of the reporter: drains the counter and puts the snapshot in
    /// report order. The result holds each drained row once.
    pub fn take_ranked(&self) -> (r: Vec<(ClientAddress, usize)>)
        ensures
            well_formed(counts_view(r@)),
            report_sorted(r@),
    {
        let snapshot = self.drain_and_reset();
        let r = rank(&snapshot);
        proof {
            lemma_same_rows_well_formed(snapshot@, r@);
        }
        r
    }
}

/// Two sequences of rows that hold the same rows equally often are well
/// formed together.
proof fn lemma_same_rows_well_formed(a: Seq<(ClientAddress, usize)>, b: Seq<(ClientAddress, usize)>)
    requires
        well_formed(counts_view(a)),
        a.to_multiset() == b.to_multiset(),
    ensures
        well_formed(counts_view(b)),
{
    broadcast use vstd::seq_lib::group_to_multiset_ensures;

    assert forall|i: int, j: int| 0 <= i < j < counts_view(b).len() implies counts_view(b)[i].0
        != counts_view(b)[j].0 by {
        if b[i].0 == b[j].0 {
            assert(a.to_multiset().count(b[i]) > 0);
            assert(a.to_multiset().count(b[j]) > 0);
            let ii = choose|k: int| 0 <= k < a.len() && a[k] == b[i];
            let jj = choose|k: int| 0 <= k < a.len() && a[k] == b[j];
            if ii == jj {
                // equal rows at two places of b: then a holds that row twice
                assert(b.to_multiset().count(b[i]) >= 2) by {
                    lemma_count_two(b, i, j);
                }
                assert(a.to_multiset().count(b[i]) >= 2);
                assert(exists|k: int| 0 <= k < a.len() && k != ii && a[k] == b[i]) by {
                    lemma_count_two_rev(a, ii);
                }
                let kk = choose|k: int| 0 <= k < a.len() && k != ii && a[k] == b[i];
                assert(counts_view(a)[ii].0 == counts_view(a)[kk].0);
            } else {
                assert(counts_view(a)[ii].0 == counts_view(a)[jj].0);
            }
        }
    }
    assert forall|i: int| 0 <= i < counts_view(b).len() implies counts_view(b)[i].1 >= 1 by {
        assert(a.to_multiset().count(b[i]) > 0);
        let ii = choose|k: int| 0 <= k < a.len() && a[k] == b[i];
        assert(counts_view(a)[ii].1 >= 1);
    }
}

} // verus!

verus! {

/// A row found at two places is held at least twice.
proof fn lemma_count_two(s: Seq<(ClientAddress, usize)>, i: int, j: int)
    requires
        0 <= i < s.len(),
        0 <= j < s.len(),
        i != j,
        s[i] == s[j],
    ensures
        s.to_multiset().count(s[i]) >= 2,
{
    broadcast use vstd::seq_lib::group_to_multiset_ensures, vstd::multiset::group_multiset_axioms;

    let rest = s.remove(i);
    let k = if j < i { j } else { j - 1 };
    assert(rest[k] == s[i]);
    assert(rest.contains(s[i]));
    assert(s.contains(s[i]));
    assert(rest.to_multiset() =~= s.to_multiset().remove(s[i]));
    assert(rest.to_multiset().count(s[i]) >= 1);
}

/// A row held at least twice, and found at `i`, is found at another place too.
proof fn lemma_count_two_rev(s: Seq<(ClientAddress, usize)>, i: int)
    requires
        0 <= i < s.len(),
        s.to_multiset().count(s[i]) >= 2,
    ensures
        exists|k: int| 0 <= k < s.len() && k != i && s[k] == s[i],
{
    broadcast use vstd::seq_lib::group_to_multiset_ensures;

    let rest = s.remove(i);
    assert(rest.to_multiset().count(s[i]) >= 1);
    assert(rest.contains(s[i]));
    let k = choose|k: int| 0 <= k < rest.len() && rest[k] == s[i];
    if k < i {
        assert(s[k] == s[i]);
    } else {
        assert(s[k + 1] == s[i]);
    }
}

} // verus!
