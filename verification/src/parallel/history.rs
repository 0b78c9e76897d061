//! The writes to one memory location, in the order of the transactions that made them.

use crate::parallel::memory::{MemoryEntry, TxIdx};
use vstd::prelude::*;

verus! {

/// The entries that transactions have left at one memory location, at most one per transaction.
pub struct WriteHistory {
    entries: Vec<(TxIdx, MemoryEntry)>,
}

/// Whether the transactions of the entries come in strictly increasing order.
pub open spec fn strictly_sorted(s: Seq<(TxIdx, MemoryEntry)>) -> bool {
    forall|i: int, j: int| 0 <= i < j < s.len() ==> #[trigger] s[i].0 < #[trigger] s[j].0
}

/// The entry of each transaction that occurs in `s`.
pub open spec fn entry_map(s: Seq<(TxIdx, MemoryEntry)>) -> Map<TxIdx, MemoryEntry> {
    Map::new(
        |k: TxIdx| exists|i: int| 0 <= i < s.len() && #[trigger] s[i].0 == k,
        |k: TxIdx| s[choose|i: int| 0 <= i < s.len() && #[trigger] s[i].0 == k].1,
    )
}

/// The entries of the transactions before `bound`, from the latest to the earliest.
pub open spec fn descending(m: Map<TxIdx, MemoryEntry>, bound: nat) -> Seq<(TxIdx, MemoryEntry)>
    decreases bound,
{
    if bound == 0 {
        Seq::empty()
    } else {
        let k = (bound - 1) as usize;
        let rest = descending(m, (bound - 1) as nat);
        if m.contains_key(k) {
            seq![(k, m[k])] + rest
        } else {
            rest
        }
    }
}

/// The entry of the latest transaction before `bound`, if there is one.
pub open spec fn closest_before(m: Map<TxIdx, MemoryEntry>, bound: TxIdx) -> Option<
    (TxIdx, MemoryEntry),
> {
    let d = descending(m, bound as nat);
    if d.len() == 0 {
        None
    } else {
        Some(d[0])
    }
}

/// Every entry that `descending` lists belongs to a transaction before the bound, and the
/// transactions come in strictly decreasing order.
pub proof fn lemma_descending_members(m: Map<TxIdx, MemoryEntry>, bound: nat)
    requires
        bound <= usize::MAX,
    ensures
        forall|i: int|
            0 <= i < descending(m, bound).len() ==> {
                let e = #[trigger] descending(m, bound)[i];
                e.0 < bound && m.contains_key(e.0) && m[e.0] == e.1
            },
        forall|i: int, j: int|
            0 <= i < j < descending(m, bound).len() ==> #[trigger] descending(m, bound)[i].0
                > #[trigger] descending(m, bound)[j].0,
    decreases bound,
{
    if bound > 0 {
        lemma_descending_members(m, (bound - 1) as nat);
        let d = descending(m, bound);
        let rest = descending(m, (bound - 1) as nat);
        let k = (bound - 1) as usize;
        if m.contains_key(k) {
            assert(d == seq![(k, m[k])] + rest);
            assert forall|i: int| 0 < i < d.len() implies d[i] == rest[i - 1] by {}
        }
    }
}

/// Every transaction before the bound that left an entry is listed by `descending`.
pub proof fn lemma_descending_covers(m: Map<TxIdx, MemoryEntry>, bound: nat, k: TxIdx)
    requires
        bound <= usize::MAX,
        k < bound,
        m.contains_key(k),
    ensures
        exists|i: int|
            0 <= i < descending(m, bound).len() && #[trigger] descending(m, bound)[i] == (k, m[k]),
    decreases bound,
{
    let d = descending(m, bound);
    let top = (bound - 1) as usize;
    if k == top {
        assert(d[0] == (k, m[k]));
    } else {
        lemma_descending_covers(m, (bound - 1) as nat, k);
        let rest = descending(m, (bound - 1) as nat);
        let i = choose|i: int| 0 <= i < rest.len() && #[trigger] rest[i] == (k, m[k]);
        if m.contains_key(top) {
            assert(d[i + 1] == (k, m[k]));
        } else {
            assert(d[i] == (k, m[k]));
        }
    }
}

/// The closest entry before a bound is that of the greatest transaction below it, and there is
/// none exactly where no transaction below it has left an entry.
pub proof fn lemma_closest_before(m: Map<TxIdx, MemoryEntry>, bound: TxIdx)
    ensures
        match closest_before(m, bound) {
            Some((k, e)) => {
                &&& k < bound
                &&& m.contains_key(k)
                &&& m[k] == e
                &&& forall|j: TxIdx| k < j < bound ==> !m.contains_key(j)
            },
            None => forall|j: TxIdx| j < bound ==> !m.contains_key(j),
        },
{
    lemma_descending_members(m, bound as nat);
    let d = descending(m, bound as nat);
    assert forall|j: TxIdx| j < bound && m.contains_key(j) implies d.len() > 0 && j <= d[0].0 by {
        lemma_descending_covers(m, bound as nat, j);
        let i = choose|i: int| 0 <= i < d.len() && #[trigger] d[i] == (j, m[j]);
        if i > 0 {
            assert(d[0].0 > d[i].0);
        }
    }
}

/// Two histories that agree below a bound list the same entries there.
pub proof fn lemma_descending_congruent(
    m: Map<TxIdx, MemoryEntry>,
    n: Map<TxIdx, MemoryEntry>,
    bound: nat,
)
    requires
        bound <= usize::MAX,
        forall|k: TxIdx| k < bound ==> m.contains_key(k) == n.contains_key(k),
        forall|k: TxIdx| k < bound && m.contains_key(k) ==> m[k] == n[k],
    ensures
        descending(m, bound) == descending(n, bound),
    decreases bound,
{
    if bound > 0 {
        lemma_descending_congruent(m, n, (bound - 1) as nat);
    }
}

proof fn lemma_entry_map_at(s: Seq<(TxIdx, MemoryEntry)>, i: int)
    requires
        strictly_sorted(s),
        0 <= i < s.len(),
    ensures
        entry_map(s).contains_key(s[i].0),
        entry_map(s)[s[i].0] == s[i].1,
{
    let j = choose|j: int| 0 <= j < s.len() && #[trigger] s[j].0 == s[i].0;
    assert(i == j);
}

proof fn lemma_descending_is_reversed_prefix(s: Seq<(TxIdx, MemoryEntry)>, p: nat, bound: nat)
    requires
        bound <= usize::MAX,
        strictly_sorted(s),
        p <= s.len(),
        forall|i: int| 0 <= i < p ==> #[trigger] s[i].0 < bound,
        forall|i: int| p <= i < s.len() ==> #[trigger] s[i].0 >= bound,
    ensures
        descending(entry_map(s), bound) == Seq::new(p, |i: int| s[p - 1 - i]),
    decreases bound,
{
    let m = entry_map(s);
    let want = Seq::new(p, |i: int| s[p - 1 - i]);
    if bound == 0 {
        assert(p == 0) by {
            if p > 0 {
                assert(s[0].0 < bound);
            }
        }
        assert(want =~= Seq::empty());
    } else {
        let k = (bound - 1) as usize;
        if p > 0 && s[p - 1].0 == k {
            lemma_entry_map_at(s, p - 1);
            assert forall|i: int| 0 <= i < p - 1 implies #[trigger] s[i].0 < bound - 1 by {
                assert(s[i].0 < s[p - 1].0);
            }
            lemma_descending_is_reversed_prefix(s, (p - 1) as nat, (bound - 1) as nat);
            assert(want =~= seq![(k, m[k])] + Seq::new((p - 1) as nat, |i: int| s[p - 1 - 1 - i]));
        } else {
            assert(!m.contains_key(k)) by {
                if m.contains_key(k) {
                    let i = choose|i: int| 0 <= i < s.len() && #[trigger] s[i].0 == k;
                    assert(i < p);
                    if i < p - 1 {
                        assert(s[i].0 < s[p - 1].0);
                    }
                }
            }
            assert forall|i: int| 0 <= i < p implies #[trigger] s[i].0 < bound - 1 by {
                if s[i].0 == k {
                    assert(m.contains_key(k));
                }
            }
            lemma_descending_is_reversed_prefix(s, p, (bound - 1) as nat);
        }
    }
}

impl View for WriteHistory {
    type V = Map<TxIdx, MemoryEntry>;

    closed spec fn view(&self) -> Map<TxIdx, MemoryEntry> {
        entry_map(self.entries@)
    }
}

impl Clone for WriteHistory {
    fn clone(&self) -> (r: Self)
        ensures
            r@ == self@,
    {
        let entries = self.copied();
        WriteHistory { entries }
    }
}

impl WriteHistory {
    #[verifier::type_invariant]
    spec fn in_order(self) -> bool {
        strictly_sorted(self.entries@)
    }

    /// A history without entries.
    pub fn new() -> (r: Self)
        ensures
            r@ == Map::<TxIdx, MemoryEntry>::empty(),
    {
        let r = WriteHistory { entries: Vec::new() };
        assert(r@ =~= Map::<TxIdx, MemoryEntry>::empty());
        r
    }

    /// How many entries belong to transactions before `bound`.
    fn count_before(&self, bound: TxIdx) -> (n: usize)
        ensures
            n <= self.entries@.len(),
            forall|i: int| 0 <= i < n ==> #[trigger] self.entries@[i].0 < bound,
            forall|i: int| n <= i < self.entries@.len() ==> #[trigger] self.entries@[i].0 >= bound,
    {
        proof {
            use_type_invariant(self);
        }
        let mut n: usize = self.entries.len();
        while n > 0 && self.entries[n - 1].0 >= bound
            invariant
                n <= self.entries@.len(),
                strictly_sorted(self.entries@),
                forall|i: int|
                    n <= i < self.entries@.len() ==> #[trigger] self.entries@[i].0 >= bound,
            decreases n,
        {
            n = n - 1;
        }
        n
    }

    /// Leaves `entry` as the entry of the transaction.
    pub fn insert(&mut self, tx_idx: TxIdx, entry: MemoryEntry)
        ensures
            final(self)@ == old(self)@.insert(tx_idx, entry),
    {
        let n: usize = self.count_before(tx_idx);
        proof {
            use_type_invariant(&*self);
        }
        let ghost s = self.entries@;
        let mut entries = Vec::new();
        std::mem::swap(&mut entries, &mut self.entries);
        if n < entries.len() && entries[n].0 == tx_idx {
            entries.set(n, (tx_idx, entry));
            proof {
                let t = entries@;
                assert(t == s.update(n as int, (tx_idx, entry)));
                assert forall|k: TxIdx| entry_map(t).contains_key(k) <==> entry_map(s).insert(
                    tx_idx,
                    entry,
                ).contains_key(k) by {
                    if entry_map(s).contains_key(k) {
                        let i = choose|i: int| 0 <= i < s.len() && #[trigger] s[i].0 == k;
                        assert(t[i].0 == k);
                    }
                    if k == tx_idx {
                        assert(t[n as int].0 == k);
                    }
                    if entry_map(t).contains_key(k) {
                        let i = choose|i: int| 0 <= i < t.len() && #[trigger] t[i].0 == k;
                        assert(s[i].0 == k);
                    }
                }
                assert forall|k: TxIdx| entry_map(t).contains_key(k) implies entry_map(t)[k]
                    == entry_map(s).insert(tx_idx, entry)[k] by {
                    let i = choose|i: int| 0 <= i < t.len() && #[trigger] t[i].0 == k;
                    lemma_entry_map_at(t, i);
                    assert(s[i].0 == t[i].0);
                    lemma_entry_map_at(s, i);
                    if k == tx_idx {
                        assert(t[n as int].0 == k);
                        assert(i == n);
                    }
                }
                assert(entry_map(t) =~= entry_map(s).insert(tx_idx, entry));
            }
        } else {
            entries.insert(n, (tx_idx, entry));
            proof {
                let t = entries@;
                assert(t == s.insert(n as int, (tx_idx, entry)));
                assert forall|i: int| 0 <= i < n implies t[i] == s[i] by {}
                assert forall|i: int| n < i < t.len() implies t[i] == s[i - 1] by {}
                assert forall|i: int, j: int| 0 <= i < j < t.len() implies #[trigger] t[i].0
                    < #[trigger] t[j].0 by {
                    if n < i {
                        assert(s[i - 1].0 < s[j - 1].0);
                    } else if n == i {
                        assert(s[j - 1].0 >= tx_idx);
                        assert(s[n as int].0 <= s[j - 1].0);
                    } else if j == n {
                        assert(s[i].0 < tx_idx);
                    } else if n < j {
                        assert(s[i].0 < s[j - 1].0);
                    } else {
                        assert(s[i].0 < s[j].0);
                    }
                }
                assert forall|k: TxIdx| entry_map(t).contains_key(k) <==> entry_map(s).insert(
                    tx_idx,
                    entry,
                ).contains_key(k) by {
                    if entry_map(s).contains_key(k) {
                        let i = choose|i: int| 0 <= i < s.len() && #[trigger] s[i].0 == k;
                        if i < n {
                            assert(t[i].0 == k);
                        } else {
                            assert(t[i + 1].0 == k);
                        }
                    }
                    if k == tx_idx {
                        assert(t[n as int].0 == k);
                    }
                    if entry_map(t).contains_key(k) && k != tx_idx {
                        let i = choose|i: int| 0 <= i < t.len() && #[trigger] t[i].0 == k;
                        if i < n {
                            assert(s[i].0 == k);
                        } else {
                            assert(s[i - 1].0 == k);
                        }
                    }
                }
                assert forall|k: TxIdx| entry_map(t).contains_key(k) implies entry_map(t)[k]
                    == entry_map(s).insert(tx_idx, entry)[k] by {
                    let i = choose|i: int| 0 <= i < t.len() && #[trigger] t[i].0 == k;
                    lemma_entry_map_at(t, i);
                    if i < n {
                        lemma_entry_map_at(s, i);
                    } else if i > n {
                        lemma_entry_map_at(s, i - 1);
                        assert(t[n as int].0 < t[i].0);
                    }
                }
                assert(entry_map(t) =~= entry_map(s).insert(tx_idx, entry));
            }
        }
        self.entries = entries;
    }

    /// Takes the entry of the transaction out, if it has one.
    pub fn remove(&mut self, tx_idx: TxIdx)
        ensures
            final(self)@ == old(self)@.remove(tx_idx),
    {
        let n: usize = self.count_before(tx_idx);
        proof {
            use_type_invariant(&*self);
        }
        let ghost s = self.entries@;
        if n < self.entries.len() && self.entries[n].0 == tx_idx {
            let mut entries = Vec::new();
            std::mem::swap(&mut entries, &mut self.entries);
            entries.remove(n);
            proof {
                let t = entries@;
                assert(t == s.remove(n as int));
                assert forall|i: int| 0 <= i < n implies t[i] == s[i] by {}
                assert forall|i: int| n <= i < t.len() implies t[i] == s[i + 1] by {}
                assert(strictly_sorted(t));
                assert forall|k: TxIdx| entry_map(t).contains_key(k) <==> entry_map(s).remove(
                    tx_idx,
                ).contains_key(k) by {
                    if entry_map(s).contains_key(k) && k != tx_idx {
                        let i = choose|i: int| 0 <= i < s.len() && #[trigger] s[i].0 == k;
                        if i < n {
                            assert(t[i].0 == k);
                        } else {
                            assert(t[i - 1].0 == k);
                        }
                    }
                    if entry_map(t).contains_key(k) {
                        let i = choose|i: int| 0 <= i < t.len() && #[trigger] t[i].0 == k;
                        if i < n {
                            assert(s[i].0 == k && s[i].0 < s[n as int].0);
                        } else {
                            assert(s[i + 1].0 == k && s[n as int].0 < s[i + 1].0);
                        }
                    }
                }
                assert forall|k: TxIdx| entry_map(t).contains_key(k) implies entry_map(t)[k]
                    == entry_map(s).remove(tx_idx)[k] by {
                    let i = choose|i: int| 0 <= i < t.len() && #[trigger] t[i].0 == k;
                    lemma_entry_map_at(t, i);
                    if i < n {
                        lemma_entry_map_at(s, i);
                    } else {
                        lemma_entry_map_at(s, i + 1);
                    }
                }
                assert(entry_map(t) =~= entry_map(s).remove(tx_idx));
            }
            self.entries = entries;
        } else {
            proof {
                if entry_map(s).contains_key(tx_idx) {
                    let i = choose|i: int| 0 <= i < s.len() && #[trigger] s[i].0 == tx_idx;
                    assert(i >= n);
                    if i > n {
                        assert(s[n as int].0 < s[i].0);
                    }
                }
                assert(entry_map(s) =~= entry_map(s).remove(tx_idx));
            }
        }
    }

    /// The entries of the transactions before `bound`, from the latest to the earliest.
    pub fn below(&self, bound: TxIdx) -> (r: Vec<(TxIdx, MemoryEntry)>)
        ensures
            r@ == descending(self@, bound as nat),
    {
        let n: usize = self.count_before(bound);
        proof {
            use_type_invariant(self);
            lemma_descending_is_reversed_prefix(self.entries@, n as nat, bound as nat);
        }
        let mut r = Vec::new();
        let mut i: usize = n;
        while i > 0
            invariant
                i <= n <= self.entries@.len(),
                r@ == Seq::new((n - i) as nat, |j: int| self.entries@[n - 1 - j]),
            decreases i,
        {
            i = i - 1;
            r.push(self.entries[i]);
        }
        r
    }

    /// The entry of the latest transaction before `bound`.
    pub fn closest(&self, bound: TxIdx) -> (r: Option<(TxIdx, MemoryEntry)>)
        ensures
            r == closest_before(self@, bound),
    {
        let n: usize = self.count_before(bound);
        proof {
            use_type_invariant(self);
            lemma_descending_is_reversed_prefix(self.entries@, n as nat, bound as nat);
        }
        if n == 0 {
            None
        } else {
            Some(self.entries[n - 1])
        }
    }

    /// A copy of all entries.
    fn copied(&self) -> (r: Vec<(TxIdx, MemoryEntry)>)
        ensures
            strictly_sorted(r@),
            entry_map(r@) == self@,
    {
        proof {
            use_type_invariant(self);
        }
        let mut r = Vec::new();
        let mut i: usize = 0;
        while i < self.entries.len()
            invariant
                i <= self.entries@.len(),
                r@ == self.entries@.take(i as int),
            decreases self.entries@.len() - i,
        {
            r.push(self.entries[i]);
            i = i + 1;
        }
        assert(r@ =~= self.entries@);
        r
    }
}

} // verus!
