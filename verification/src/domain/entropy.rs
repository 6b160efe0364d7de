//! Structural entropy inputs: counts of syntax-node kinds, from which the
//! Shannon entropy of a file's structure is computed.
//!
//! The counts are kept in order of first occurrence, each kind once.
use vstd::prelude::*;
use crate::domain::primitives::DomainError;
use crate::text::{owned, str_eq};

verus! {

/// Total count of valid syntax nodes in a file; never zero.
#[derive(Debug, Clone, Copy, PartialEq, Eq, Structural, PartialOrd, Ord, Hash)]
pub struct NodeCount(u32);

impl View for NodeCount {
    type V = u32;

    closed spec fn view(&self) -> u32 {
        self.0
    }
}

impl NodeCount {
    /// A count is never zero.
    #[verifier::type_invariant]
    spec fn positive(self) -> bool {
        self.0 > 0
    }

    /// A count; an error for zero.
    pub fn new(count: u32) -> (r: Result<Self, DomainError>)
        ensures
            count > 0 ==> (r matches Ok(c) && c@ == count),
            count == 0 ==> (r matches Err(DomainError::InternalError(m)) && m@ == "node count cannot be zero"@),
    {
        if count == 0 {
            return Err(DomainError::InternalError(owned("node count cannot be zero")));
        }
        Ok(NodeCount(count))
    }

    pub fn as_u32(self) -> (r: u32)
        ensures
            r == self@,
            r > 0,
    {
        proof {
            use_type_invariant(&self);
        }
        self.0
    }

    pub fn as_usize(self) -> (r: usize)
        ensures
            r == self@,
            r > 0,
    {
        proof {
            use_type_invariant(&self);
        }
        self.0 as usize
    }
}

/// Frequency of one node kind; never zero.
#[derive(Debug, Clone, Copy, PartialEq, Eq, Structural, PartialOrd, Ord, Hash)]
pub struct SymbolFrequency(u32);

impl View for SymbolFrequency {
    type V = u32;

    closed spec fn view(&self) -> u32 {
        self.0
    }
}

impl SymbolFrequency {
    /// A frequency is never zero.
    #[verifier::type_invariant]
    spec fn positive(self) -> bool {
        self.0 > 0
    }

    /// A frequency; an error for zero.
    pub fn new(freq: u32) -> (r: Result<Self, DomainError>)
        ensures
            freq > 0 ==> (r matches Ok(f) && f@ == freq),
            freq == 0 ==> (r matches Err(DomainError::InternalError(m)) && m@ == "symbol frequency cannot be zero"@),
    {
        if freq == 0 {
            return Err(DomainError::InternalError(owned("symbol frequency cannot be zero")));
        }
        Ok(SymbolFrequency(freq))
    }

    pub fn as_u32(self) -> (r: u32)
        ensures
            r == self@,
            r > 0,
    {
        proof {
            use_type_invariant(&self);
        }
        self.0
    }
}

/// The kinds and counts of a distribution, in order of first occurrence.
pub open spec fn entries_view(v: Seq<(String, NodeCount)>) -> Seq<(Seq<char>, u32)> {
    v.map_values(|e: (String, NodeCount)| (e.0@, e.1@))
}

/// Each kind occurs once and every count is positive.
pub open spec fn entries_ok(s: Seq<(Seq<char>, u32)>) -> bool {
    &&& forall|i: int, j: int| 0 <= i < j < s.len() ==> s[i].0 != s[j].0
    &&& forall|i: int| 0 <= i < s.len() ==> #[trigger] s[i].1 > 0
}

/// The counts after one more node of a kind: its count grows by one, or it
/// is added with count 1 after the others.
pub open spec fn spec_insert(s: Seq<(Seq<char>, u32)>, kind: Seq<char>) -> Seq<(Seq<char>, u32)> {
    if exists|i: int| 0 <= i < s.len() && s[i].0 == kind {
        let i = choose|i: int| 0 <= i < s.len() && s[i].0 == kind;
        s.update(i, (kind, (s[i].1 + 1) as u32))
    } else {
        s.push((kind, 1u32))
    }
}

/// The counts of a sequence of kinds, in order of first occurrence.
pub open spec fn kind_counts(kinds: Seq<Seq<char>>) -> Seq<(Seq<char>, u32)>
    decreases kinds.len(),
{
    if kinds.len() == 0 {
        Seq::empty()
    } else {
        spec_insert(kind_counts(kinds.drop_last()), kinds.last())
    }
}

/// The sum of the counts.
pub open spec fn counts_sum(s: Seq<(Seq<char>, u32)>) -> nat
    decreases s.len(),
{
    if s.len() == 0 {
        0
    } else {
        counts_sum(s.drop_last()) + s.last().1 as nat
    }
}

/// Counts of node kinds.
#[derive(Debug, Clone, PartialEq, Eq)]
pub struct SymbolDistribution(Vec<(String, NodeCount)>);

impl View for SymbolDistribution {
    type V = Seq<(Seq<char>, u32)>;

    closed spec fn view(&self) -> Seq<(Seq<char>, u32)> {
        entries_view(self.0@)
    }
}

/// `i` is the best entry not yet chosen: no unchosen entry has a higher
/// count, and none before it has the same.
pub open spec fn best_unchosen(s: Seq<(Seq<char>, u32)>, chosen: Seq<int>, i: int) -> bool {
    &&& 0 <= i < s.len()
    &&& !chosen.contains(i)
    &&& forall|j: int| 0 <= j < s.len() && !chosen.contains(j) ==> #[trigger] s[j].1 <= s[i].1
    &&& forall|j: int| 0 <= j < i && !chosen.contains(j) ==> #[trigger] s[j].1 < s[i].1
}

/// `ids` picks, one after another, the best entry not yet chosen.
pub open spec fn ranked(s: Seq<(Seq<char>, u32)>, ids: Seq<int>) -> bool {
    forall|k: int| 0 <= k < ids.len() ==> #[trigger] best_unchosen(s, ids.take(k), ids[k])
}

impl SymbolDistribution {
    /// Every kind once, every count positive.
    pub open spec fn wf(&self) -> bool {
        entries_ok(self@)
    }

    pub fn new() -> (r: Self)
        ensures
            r@ == Seq::<(Seq<char>, u32)>::empty(),
            r.wf(),
    {
        let r = SymbolDistribution(Vec::new());
        assert(r@ =~= Seq::<(Seq<char>, u32)>::empty());
        r
    }

    pub fn with_capacity(capacity: usize) -> (r: Self)
        ensures
            r@ == Seq::<(Seq<char>, u32)>::empty(),
            r.wf(),
    {
        let r = SymbolDistribution(Vec::with_capacity(capacity));
        assert(r@ =~= Seq::<(Seq<char>, u32)>::empty());
        r
    }

    /// Count one more node of a kind: its count grows by one, or it is
    /// added with count 1 after the others.
    pub fn insert(&mut self, node_type: String)
        requires
            old(self).wf(),
            forall|i: int| 0 <= i < old(self)@.len() && #[trigger] old(self)@[i].0 == node_type@ ==> old(self)@[i].1 < u32::MAX,
        ensures
            final(self).wf(),
            (exists|i: int| 0 <= i < old(self)@.len() && old(self)@[i].0 == node_type@) ==> (exists|i: int|
                0 <= i < old(self)@.len() && old(self)@[i].0 == node_type@ && final(self)@ == old(self)@.update(i, (node_type@, (old(self)@[i].1 + 1) as u32))),
            !(exists|i: int| 0 <= i < old(self)@.len() && old(self)@[i].0 == node_type@) ==> final(self)@ == old(self)@.push((node_type@, 1u32)),
            final(self)@ == spec_insert(old(self)@, node_type@),
    {
        let ghost before = self@;
        let mut i: usize = 0;
        while i < self.0.len()
            invariant
                0 <= i <= self.0@.len(),
                self@ == before,
                before == old(self)@,
                entries_ok(before),
                forall|j: int| 0 <= j < before.len() && #[trigger] before[j].0 == node_type@ ==> before[j].1 < u32::MAX,
                forall|j: int| 0 <= j < i ==> #[trigger] before[j].0 != node_type@,
            decreases self.0@.len() - i,
        {
            if str_eq(self.0[i].0.as_str(), node_type.as_str()) {
                assert(before[i as int].0 == node_type@);
                let c = self.0[i].1.0;
                let mut entry: (String, NodeCount) = (String::new(), NodeCount(1));
                self.0.set_and_swap(i, &mut entry);
                entry.1 = NodeCount(c + 1);
                self.0.set_and_swap(i, &mut entry);
                proof {
                    assert(self@ =~= before.update(i as int, (node_type@, (before[i as int].1 + 1) as u32)));
                    let c = choose|q: int| 0 <= q < before.len() && before[q].0 == node_type@;
                    if c != i as int {
                        if c < i as int {
                            assert(before[c].0 != before[i as int].0);
                        } else {
                            assert(before[i as int].0 != before[c].0);
                        }
                    }
                }
                return;
            }
            i += 1;
        }
        self.0.push((node_type, NodeCount(1)));
        assert(self@ =~= before.push((node_type@, 1u32)));
        assert(entries_ok(self@)) by {
            assert forall|a: int, b: int| 0 <= a < b < self@.len() implies self@[a].0 != self@[b].0 by {
                if b == before.len() {
                    assert(before[a].0 != node_type@);
                }
            }
        }
    }

    /// The number of distinct kinds.
    pub fn len(&self) -> (r: usize)
        ensures
            r == self@.len(),
    {
        self.0.len()
    }

    pub fn is_empty(&self) -> (r: bool)
        ensures
            r == (self@.len() == 0),
    {
        self.0.len() == 0
    }

    /// The number of nodes counted; 1 when there are none, so that it can
    /// divide.
    pub fn total_nodes(&self) -> (r: NodeCount)
        requires
            counts_sum(self@) <= u32::MAX,
        ensures
            r@ == (if counts_sum(self@) == 0 { 1 } else { counts_sum(self@) }),
    {
        let mut sum: u32 = 0;
        let mut i: usize = 0;
        while i < self.0.len()
            invariant
                0 <= i <= self@.len(),
                counts_sum(self@) <= u32::MAX,
                sum == counts_sum(self@.take(i as int)),
            decreases self@.len() - i,
        {
            assert(self@.take(i + 1).drop_last() =~= self@.take(i as int));
            proof {
                lemma_counts_sum_prefix(self@, i + 1);
            }
            sum = sum + self.0[i].1.0;
            i += 1;
        }
        assert(self@.take(i as int) =~= self@);
        NodeCount(if sum == 0 { 1 } else { sum })
    }

    /// The number of distinct kinds.
    pub fn unique_symbols(&self) -> (r: usize)
        ensures
            r == self@.len(),
    {
        self.0.len()
    }

    /// The kinds and their counts, in order of first occurrence.
    pub fn frequencies(&self) -> (r: &[(String, NodeCount)])
        ensures
            entries_view(r@) == self@,
    {
        self.0.as_slice()
    }

    /// The `n` most frequent kinds, most frequent first; among equal counts
    /// the one that occurred first comes first.
    pub fn most_common(&self, n: usize) -> (r: Vec<(&String, &NodeCount)>)
        ensures
            r@.len() == (if n < self@.len() { n as int } else { self@.len() as int }),
            exists|ids: Seq<int>| ids.len() == r@.len() && ranked(self@, ids)
                && forall|k: int| 0 <= k < ids.len() ==> (#[trigger] r@[k].0)@ == self@[ids[k]].0 && r@[k].1@ == self@[ids[k]].1,
    {
        let len = self.0.len();
        let m = if n < len { n } else { len };
        let mut chosen: Vec<bool> = Vec::new();
        let mut x: usize = 0;
        while x < len
            invariant
                0 <= x <= len,
                len == self@.len(),
                chosen@.len() == x,
                forall|j: int| 0 <= j < x ==> !#[trigger] chosen@[j],
            decreases len - x,
        {
            chosen.push(false);
            x += 1;
        }
        let mut out: Vec<(&String, &NodeCount)> = Vec::new();
        let ghost mut ids: Seq<int> = Seq::empty();
        let mut k: usize = 0;
        while k < m
            invariant
                len == self@.len(),
                m <= len,
                0 <= k <= m,
                chosen@.len() == len,
                ids.len() == k,
                out@.len() == k,
                ranked(self@, ids),
                forall|j: int| 0 <= j < len ==> (#[trigger] chosen@[j] <==> ids.contains(j)),
                forall|q: int| 0 <= q < k ==> 0 <= #[trigger] ids[q] < len,
                forall|q: int| 0 <= q < k ==> (#[trigger] out@[q].0)@ == self@[ids[q]].0 && out@[q].1@ == self@[ids[q]].1,
            decreases m - k,
        {
            // Pick the first unchosen entry with the highest count.
            let mut best: usize = len;
            let mut i: usize = 0;
            proof {
                assert(exists|j: int| 0 <= j < len && !ids.contains(j)) by {
                    lemma_some_unchosen(ids, len as int);
                }
            }
            while i < len
                invariant
                    len == self@.len(),
                    chosen@.len() == len,
                    0 <= i <= len,
                    forall|j: int| 0 <= j < len ==> (#[trigger] chosen@[j] <==> ids.contains(j)),
                    best == len || (best < i && !ids.contains(best as int)),
                    best == len ==> forall|j: int| 0 <= j < i ==> ids.contains(j),
                    best < len ==> forall|j: int| 0 <= j < i && !ids.contains(j) ==> #[trigger] self@[j].1 <= self@[best as int].1,
                    best < len ==> forall|j: int| 0 <= j < best && !ids.contains(j) ==> #[trigger] self@[j].1 < self@[best as int].1,
                decreases len - i,
            {
                if !chosen[i] {
                    assert(!ids.contains(i as int));
                    if best == len || self.0[i].1.0 > self.0[best].1.0 {
                        best = i;
                    }
                }
                i += 1;
            }
            proof {
                if best == len {
                    let j = choose|j: int| 0 <= j < len && !ids.contains(j);
                    assert(ids.contains(j));
                }
                assert(best_unchosen(self@, ids, best as int));
            }
            let entry = &self.0[best];
            out.push((&entry.0, &entry.1));
            chosen.set(best, true);
            proof {
                let old_ids = ids;
                ids = ids.push(best as int);
                assert(ids.take(k as int) =~= old_ids);
                assert forall|q: int| 0 <= q < ids.len() implies #[trigger] best_unchosen(self@, ids.take(q), ids[q]) by {
                    if q < k {
                        assert(ids.take(q) =~= old_ids.take(q));
                    }
                }
                assert forall|j: int| 0 <= j < len implies (#[trigger] chosen@[j] <==> ids.contains(j)) by {
                    if j == best {
                        assert(ids[k as int] == j);
                    } else {
                        if old_ids.contains(j) {
                            let q = choose|q: int| 0 <= q < old_ids.len() && old_ids[q] == j;
                            assert(ids[q] == j);
                        }
                        if ids.contains(j) {
                            let q = choose|q: int| 0 <= q < ids.len() && ids[q] == j;
                            assert(q < k);
                            assert(old_ids[q] == j);
                        }
                    }
                }
            }
            k += 1;
        }
        proof {
            assert(ids.len() == out@.len() && ranked(self@, ids)
                && forall|q: int| 0 <= q < ids.len() ==> (#[trigger] out@[q].0)@ == self@[ids[q]].0 && out@[q].1@ == self@[ids[q]].1);
        }
        out
    }
}

/// Fewer choices than entries leave an entry unchosen.
proof fn lemma_some_unchosen(ids: Seq<int>, len: int)
    requires
        ids.len() < len,
        forall|q: int| 0 <= q < ids.len() ==> 0 <= #[trigger] ids[q] < len,
    ensures
        exists|j: int| 0 <= j < len && !ids.contains(j),
{
    if forall|j: int| 0 <= j < len ==> ids.contains(j) {
        let range = vstd::set_lib::set_int_range(0, len);
        vstd::set_lib::lemma_int_range(0, len);
        assert(range.subset_of(ids.to_set()));
        ids.lemma_cardinality_of_set();
        vstd::seq_lib::seq_to_set_is_finite(ids);
        vstd::set_lib::lemma_len_subset(range, ids.to_set());
    }
}

/// Counting a run of node kinds one by one, as `insert` does from an empty
/// distribution, gives a well-formed distribution whose counts sum to the
/// number of kinds counted; so `total_nodes` is that number (or 1 for none),
/// and the frequencies sum to it.
pub proof fn law_kind_counts_total(kinds: Seq<Seq<char>>)
    requires
        kinds.len() <= u32::MAX,
    ensures
        entries_ok(kind_counts(kinds)),
        counts_sum(kind_counts(kinds)) == kinds.len(),
    decreases kinds.len(),
{
    if kinds.len() > 0 {
        let prev = kind_counts(kinds.drop_last());
        let kind = kinds.last();
        law_kind_counts_total(kinds.drop_last());
        let after = spec_insert(prev, kind);
        assert forall|i: int| 0 <= i < prev.len() && #[trigger] prev[i].0 == kind implies prev[i].1 < u32::MAX by {
            lemma_count_le_sum(prev, i);
        }
        if exists|i: int| 0 <= i < prev.len() && prev[i].0 == kind {
            let i = choose|i: int| 0 <= i < prev.len() && prev[i].0 == kind;
            lemma_sum_update(prev, i, (kind, (prev[i].1 + 1) as u32));
            assert(entries_ok(after)) by {
                assert forall|a: int, b: int| 0 <= a < b < after.len() implies after[a].0 != after[b].0 by {
                    assert(after[a].0 == prev[a].0 && after[b].0 == prev[b].0);
                }
            }
        } else {
            assert(after.drop_last() =~= prev);
            assert(entries_ok(after)) by {
                assert forall|a: int, b: int| 0 <= a < b < after.len() implies after[a].0 != after[b].0 by {
                    if b == prev.len() {
                        assert(after[a] == prev[a]);
                    } else {
                        assert(after[a] == prev[a] && after[b] == prev[b]);
                    }
                }
            }
        }
    }
}

/// Each count is at most the sum.
pub proof fn lemma_count_le_sum(s: Seq<(Seq<char>, u32)>, i: int)
    requires
        0 <= i < s.len(),
    ensures
        s[i].1 <= counts_sum(s),
    decreases s.len(),
{
    if i < s.len() - 1 {
        lemma_count_le_sum(s.drop_last(), i);
    }
}

/// Raising one count by one raises the sum by one.
pub proof fn lemma_sum_update(s: Seq<(Seq<char>, u32)>, i: int, e: (Seq<char>, u32))
    requires
        0 <= i < s.len(),
        e.1 == s[i].1 + 1,
    ensures
        counts_sum(s.update(i, e)) == counts_sum(s) + 1,
    decreases s.len(),
{
    if i == s.len() - 1 {
        assert(s.update(i, e).drop_last() =~= s.drop_last());
    } else {
        lemma_sum_update(s.drop_last(), i, e);
        assert(s.update(i, e).drop_last() =~= s.drop_last().update(i, e));
    }
}

/// Inserting a kind raises the sum by one.
pub proof fn lemma_insert_sum(before: Seq<(Seq<char>, u32)>, after: Seq<(Seq<char>, u32)>, name: Seq<char>)
    requires
        (exists|i: int| 0 <= i < before.len() && before[i].0 == name) ==> (exists|i: int|
            0 <= i < before.len() && before[i].0 == name && after == before.update(i, (name, (before[i].1 + 1) as u32))),
        !(exists|i: int| 0 <= i < before.len() && before[i].0 == name) ==> after == before.push((name, 1u32)),
        forall|i: int| 0 <= i < before.len() && #[trigger] before[i].0 == name ==> before[i].1 < u32::MAX,
    ensures
        counts_sum(after) == counts_sum(before) + 1,
{
    if exists|i: int| 0 <= i < before.len() && before[i].0 == name {
        let i = choose|i: int| 0 <= i < before.len() && before[i].0 == name && after == before.update(i, (name, (before[i].1 + 1) as u32));
        lemma_sum_update(before, i, (name, (before[i].1 + 1) as u32));
    } else {
        assert(after.drop_last() =~= before);
    }
}

/// Sums over prefixes are at most the whole sum.
proof fn lemma_counts_sum_prefix(s: Seq<(Seq<char>, u32)>, i: int)
    requires
        0 <= i <= s.len(),
    ensures
        counts_sum(s.take(i)) <= counts_sum(s),
    decreases s.len() - i,
{
    if i < s.len() {
        lemma_counts_sum_prefix(s, i + 1);
        assert(s.take(i + 1).drop_last() =~= s.take(i));
    } else {
        assert(s.take(i) =~= s);
    }
}

impl Default for SymbolDistribution {
    fn default() -> (r: Self)
        ensures
            r@ == Seq::<(Seq<char>, u32)>::empty(),
    {
        Self::new()
    }
}

/// Entropy rules: the Shannon entropy of a distribution and its metric mass.
#[derive(Debug)]
pub struct EntropyRules;

} // verus!
