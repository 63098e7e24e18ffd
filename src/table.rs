use vstd::prelude::*;

use crate::address::ClientAddress;

verus! {

/// How many requests a table, or a snapshot of one, attributes to `a`:
/// the sum of the counts of the entries whose address is `a`.
pub open spec fn count_of(s: Seq<(ClientAddress, nat)>, a: ClientAddress) -> nat
    decreases s.len(),
{
    if s.len() == 0 {
        0
    } else {
        (if s[0].0 == a { s[0].1 } else { 0nat }) + count_of(s.skip(1), a)
    }
}

/// The sum of all counts.
pub open spec fn total(s: Seq<(ClientAddress, nat)>) -> nat
    decreases s.len(),
{
    if s.len() == 0 {
        0
    } else {
        s[0].1 + total(s.skip(1))
    }
}

/// No address has two entries.
pub open spec fn keys_distinct(s: Seq<(ClientAddress, nat)>) -> bool {
    forall|i: int, j: int| 0 <= i < j < s.len() ==> s[i].0 != s[j].0
}

/// A table is well formed when every address has at most one entry and
/// every entry holds at least one request (an absent address has no entry,
/// never an entry of zero).
pub open spec fn well_formed(s: Seq<(ClientAddress, nat)>) -> bool {
    &&& keys_distinct(s)
    &&& forall|i: int| 0 <= i < s.len() ==> s[i].1 >= 1
}

/// The table after one more request from `a`: the entry of `a` goes up by
/// one, or, where `a` has none, a new entry of one is added at the end.
pub open spec fn bump(s: Seq<(ClientAddress, nat)>, a: ClientAddress) -> Seq<(ClientAddress, nat)>
    decreases s.len(),
{
    if s.len() == 0 {
        seq![(a, 1nat)]
    } else if s[0].0 == a {
        seq![(a, s[0].1 + 1)] + s.skip(1)
    } else {
        seq![s[0]] + bump(s.skip(1), a)
    }
}

/// The table after one request from each address of `addrs`, in order.
pub open spec fn replay(s: Seq<(ClientAddress, nat)>, addrs: Seq<ClientAddress>) -> Seq<
    (ClientAddress, nat),
>
    decreases addrs.len(),
{
    if addrs.len() == 0 {
        s
    } else {
        replay(bump(s, addrs[0]), addrs.skip(1))
    }
}

/// How many times `a` occurs in `addrs`.
pub open spec fn occurrences(addrs: Seq<ClientAddress>, a: ClientAddress) -> nat
    decreases addrs.len(),
{
    if addrs.len() == 0 {
        0
    } else {
        (if addrs[0] == a { 1nat } else { 0nat }) + occurrences(addrs.skip(1), a)
    }
}

/// The counts of a snapshot, as naturals.
pub open spec fn counts_view(v: Seq<(ClientAddress, usize)>) -> Seq<(ClientAddress, nat)> {
    v.map_values(|e: (ClientAddress, usize)| (e.0, e.1 as nat))
}

proof fn lemma_skip_cons(x: (ClientAddress, nat), t: Seq<(ClientAddress, nat)>)
    ensures
        (seq![x] + t)[0] == x,
        (seq![x] + t).skip(1) == t,
        (seq![x] + t).len() == t.len() + 1,
{
    assert((seq![x] + t).skip(1) =~= t);
}

/// An address with no entry has a count of zero.
pub proof fn lemma_count_absent(s: Seq<(ClientAddress, nat)>, a: ClientAddress)
    requires
        forall|j: int| 0 <= j < s.len() ==> s[j].0 != a,
    ensures
        count_of(s, a) == 0,
    decreases s.len(),
{
    if s.len() > 0 {
        lemma_count_absent(s.skip(1), a);
    }
}

/// In a table without repeated addresses, the count of an address is the
/// count held by its entry.
pub proof fn lemma_count_at(s: Seq<(ClientAddress, nat)>, i: int)
    requires
        keys_distinct(s),
        0 <= i < s.len(),
    ensures
        count_of(s, s[i].0) == s[i].1,
    decreases s.len(),
{
    let a = s[i].0;
    if i == 0 {
        lemma_count_absent(s.skip(1), a);
    } else {
        lemma_count_at(s.skip(1), i - 1);
    }
}

/// One request from `a` adds one to the count of `a` and changes no other.
pub proof fn lemma_count_bump(s: Seq<(ClientAddress, nat)>, a: ClientAddress, b: ClientAddress)
    ensures
        count_of(bump(s, a), b) == count_of(s, b) + (if a == b { 1nat } else { 0nat }),
    decreases s.len(),
{
    if s.len() == 0 {
        lemma_skip_cons((a, 1nat), Seq::empty());
        assert(count_of(Seq::<(ClientAddress, nat)>::empty(), b) == 0);
    } else if s[0].0 == a {
        lemma_skip_cons((a, s[0].1 + 1), s.skip(1));
    } else {
        lemma_skip_cons(s[0], bump(s.skip(1), a));
        lemma_count_bump(s.skip(1), a, b);
    }
}

/// One request adds one to the total.
pub proof fn lemma_total_bump(s: Seq<(ClientAddress, nat)>, a: ClientAddress)
    ensures
        total(bump(s, a)) == total(s) + 1,
    decreases s.len(),
{
    if s.len() == 0 {
        lemma_skip_cons((a, 1nat), Seq::empty());
        assert(total(Seq::<(ClientAddress, nat)>::empty()) == 0);
    } else if s[0].0 == a {
        lemma_skip_cons((a, s[0].1 + 1), s.skip(1));
    } else {
        lemma_skip_cons(s[0], bump(s.skip(1), a));
        lemma_total_bump(s.skip(1), a);
    }
}

/// Where `a` first has an entry at `i`, a request from `a` raises that entry.
proof fn lemma_bump_found(s: Seq<(ClientAddress, nat)>, a: ClientAddress, i: int)
    requires
        0 <= i < s.len(),
        s[i].0 == a,
        forall|j: int| 0 <= j < i ==> s[j].0 != a,
    ensures
        bump(s, a) == s.update(i, (a, s[i].1 + 1)),
    decreases s.len(),
{
    if i == 0 {
        assert(bump(s, a) =~= s.update(i, (a, s[i].1 + 1)));
    } else {
        lemma_bump_found(s.skip(1), a, i - 1);
        assert(bump(s, a) =~= s.update(i, (a, s[i].1 + 1)));
    }
}

/// Where `a` has no entry, a request from `a` appends one.
proof fn lemma_bump_absent(s: Seq<(ClientAddress, nat)>, a: ClientAddress)
    requires
        forall|j: int| 0 <= j < s.len() ==> s[j].0 != a,
    ensures
        bump(s, a) == s.push((a, 1nat)),
    decreases s.len(),
{
    if s.len() == 0 {
        assert(bump(s, a) =~= s.push((a, 1nat)));
    } else {
        lemma_bump_absent(s.skip(1), a);
        assert(bump(s, a) =~= s.push((a, 1nat)));
    }
}

/// The table of request counts for one measurement window: each address
/// that made a request since the last drain, with how many it made.
pub struct CountTable {
    entries: Vec<(ClientAddress, usize)>,
}

impl View for CountTable {
    type V = Seq<(ClientAddress, nat)>;

    closed spec fn view(&self) -> Seq<(ClientAddress, nat)> {
        counts_view(self.entries@)
    }
}

impl CountTable {
    pub open spec fn wf(&self) -> bool {
        well_formed(self@)
    }

    /// An empty table.
    pub fn new() -> (t: CountTable)
        ensures
            t.wf(),
            t@ == Seq::<(ClientAddress, nat)>::empty(),
    {
        let t = CountTable { entries: Vec::new() };
        assert(t@ =~= Seq::<(ClientAddress, nat)>::empty());
        t
    }

    /// The number of requests from `addr` in the table.
    pub fn count(&self, addr: ClientAddress) -> (r: usize)
        requires
            self.wf(),
        ensures
            r as nat == count_of(self@, addr),
    {
        let n = self.entries.len();
        let mut i: usize = 0;
        while i < n
            invariant
                n == self.entries.len(),
                n == self@.len(),
                self.wf(),
                i <= n,
                forall|j: int| 0 <= j < i ==> self@[j].0 != addr,
            decreases n - i,
        {
            if self.entries[i].0 == addr {
                proof {
                    lemma_count_at(self@, i as int);
                }
                return self.entries[i].1;
            }
            i = i + 1;
        }
        proof {
            lemma_count_absent(self@, addr);
        }
        0
    }

    /// Records one request from `addr`.
    pub fn increment(&mut self, addr: ClientAddress)
        requires
            old(self).wf(),
            count_of(old(self)@, addr) < usize::MAX,
        ensures
            final(self).wf(),
            final(self)@ == bump(old(self)@, addr),
            forall|b: ClientAddress|
                #[trigger] count_of(final(self)@, b) == count_of(old(self)@, b) + (if b == addr {
                    1nat
                } else {
                    0nat
                }),
            total(final(self)@) == total(old(self)@) + 1,
    {
        proof {
            lemma_total_bump(self@, addr);
            assert forall|b: ClientAddress|
                count_of(bump(self@, addr), b) == count_of(self@, b) + (if b == addr {
                    1nat
                } else {
                    0nat
                }) by {
                lemma_count_bump(self@, addr, b);
            }
        }
        let ghost s0 = self@;
        let n = self.entries.len();
        let mut i: usize = 0;
        while i < n
            invariant
                n == self.entries.len(),
                n == self@.len(),
                self@ == s0,
                s0 == old(self)@,
                well_formed(s0),
                count_of(s0, addr) < usize::MAX,
                total(bump(s0, addr)) == total(s0) + 1,
                forall|b: ClientAddress|
                    #[trigger] count_of(bump(s0, addr), b) == count_of(s0, b) + (if b == addr {
                        1nat
                    } else {
                        0nat
                    }),
                i <= n,
                forall|j: int| 0 <= j < i ==> s0[j].0 != addr,
            decreases n - i,
        {
            if self.entries[i].0 == addr {
                let c = self.entries[i].1;
                proof {
                    lemma_count_at(s0, i as int);
                    lemma_bump_found(s0, addr, i as int);
                }
                self.entries.set(i, (addr, c + 1));
                assert(self@ =~= s0.update(i as int, (addr, s0[i as int].1 + 1)));
                return;
            }
            i = i + 1;
        }
        proof {
            lemma_bump_absent(s0, addr);
        }
        self.entries.push((addr, 1));
        assert(self@ =~= s0.push((addr, 1nat)));
    }

    /// Takes the whole table as a snapshot and leaves it empty.
    pub fn drain_and_reset(&mut self) -> (r: Vec<(ClientAddress, usize)>)
        requires
            old(self).wf(),
        ensures
            final(self).wf(),
            final(self)@ == Seq::<(ClientAddress, nat)>::empty(),
            counts_view(r@) == old(self)@,
            old(self)@.len() == 0 ==> r@.len() == 0,
    {
        let mut r: Vec<(ClientAddress, usize)> = Vec::new();
        std::mem::swap(&mut self.entries, &mut r);
        assert(self@ =~= Seq::<(ClientAddress, nat)>::empty());
        r
    }
}

} // verus!
