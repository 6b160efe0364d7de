//! Domain rules: the formulas that compute metrics from structural events
//! and node metrics. All computations are deterministic pure functions.
use vstd::prelude::*;
use std::collections::HashMap;
use std::collections::hash_map::DefaultHasher;
use std::hash::{Hash, Hasher};
use vstd::std_specs::hash::group_hash_axioms;
use vstd::std_specs::hash::DefaultHasherAdditionalSpecFns;
use vstd::std_specs::iter::IteratorSpec;
use crate::domain::events::{BranchType, StructuralEvent};
use crate::domain::metrics::{FileMetrics, MaintainabilityIndex, NodeMetrics, StructuralFingerprint, file_metrics_of, spec_node_complex};
use crate::domain::primitives::DomainError;
use crate::text::{is_whitespace, owned, spec_is_whitespace};

verus! {

broadcast use group_hash_axioms;

/// The number of branch events.
pub open spec fn branch_count(events: Seq<StructuralEvent>) -> nat
    decreases events.len(),
{
    if events.len() == 0 {
        0
    } else {
        branch_count(events.drop_last()) + if events.last() is Branch { 1nat } else { 0nat }
    }
}

/// At most as many branches in a prefix as in the whole stream, and no more
/// branches than events.
pub proof fn lemma_branch_count_bounds(events: Seq<StructuralEvent>, i: int)
    requires
        0 <= i <= events.len(),
    ensures
        branch_count(events.take(i)) <= branch_count(events),
        branch_count(events) <= events.len(),
    decreases events.len() - i,
{
    if i < events.len() {
        lemma_branch_count_bounds(events, i + 1);
        assert(events.take(i + 1).drop_last() =~= events.take(i));
    } else {
        assert(events.take(i) =~= events);
        lemma_branch_count_le_len(events);
    }
}

proof fn lemma_branch_count_le_len(events: Seq<StructuralEvent>)
    ensures
        branch_count(events) <= events.len(),
    decreases events.len(),
{
    if events.len() > 0 {
        lemma_branch_count_le_len(events.drop_last());
    }
}

/// The cyclomatic complexity of a stream of events: one plus its branches.
pub open spec fn events_complexity(events: Seq<StructuralEvent>) -> int {
    1 + branch_count(events) as int
}

/// A complexity is consistent with a number of branches when it is at least
/// 1 and at least one more than the branches.
pub open spec fn complexity_consistent(complexity: int, branches: int) -> bool {
    complexity >= 1 && complexity >= branches + 1
}

/// The complexity computed from a stream of events always passes the
/// consistency check against the stream's own branch count.
pub proof fn law_events_complexity_consistent(events: Seq<StructuralEvent>)
    ensures
        complexity_consistent(events_complexity(events), branch_count(events) as int),
{
}

/// The cyclomatic complexities of a sequence of nodes.
pub open spec fn node_ccs(nodes: Seq<NodeMetrics>) -> Seq<u32> {
    nodes.map_values(|n: NodeMetrics| n.cc)
}

/// The cognitive complexities of a sequence of nodes.
pub open spec fn node_cognitives(nodes: Seq<NodeMetrics>) -> Seq<u32> {
    nodes.map_values(|n: NodeMetrics| n.cognitive)
}

/// The sum of a sequence of counters.
pub open spec fn sum_u32(s: Seq<u32>) -> nat
    decreases s.len(),
{
    if s.len() == 0 {
        0
    } else {
        sum_u32(s.drop_last()) + s.last() as nat
    }
}

/// The largest of a sequence of counters, 0 for none.
pub open spec fn max_u32_seq(s: Seq<u32>) -> u32
    decreases s.len(),
{
    if s.len() == 0 {
        0
    } else {
        let m = max_u32_seq(s.drop_last());
        if s.last() > m { s.last() } else { m }
    }
}

/// The largest of the complexities is at most their sum, so the maximum that
/// `compute_max_complexity` finds never exceeds what `compute_sum_complexity`
/// adds up.
pub proof fn lemma_max_le_sum(s: Seq<u32>)
    ensures
        max_u32_seq(s) <= sum_u32(s),
    decreases s.len(),
{
    if s.len() > 0 {
        lemma_max_le_sum(s.drop_last());
    }
}

/// Sums of prefixes grow.
proof fn lemma_sum_prefix(s: Seq<u32>, i: int)
    requires
        0 <= i <= s.len(),
    ensures
        sum_u32(s.take(i)) <= sum_u32(s),
    decreases s.len() - i,
{
    if i < s.len() {
        lemma_sum_prefix(s, i + 1);
        assert(s.take(i + 1).drop_last() =~= s.take(i));
    } else {
        assert(s.take(i) =~= s);
    }
}

/// The line counts of a sequence of nodes.
pub open spec fn node_locs(nodes: Seq<NodeMetrics>) -> Seq<u32> {
    nodes.map_values(|n: NodeMetrics| n.loc)
}

/// The nesting depths of a sequence of nodes.
pub open spec fn node_depths(nodes: Seq<NodeMetrics>) -> Seq<u32> {
    nodes.map_values(|n: NodeMetrics| n.depth)
}

/// The whole-number totals over a file's functions from which aggregated
/// metrics are drawn: sums, maxima, and how many functions are complex,
/// large and deeply nested.
#[derive(Debug, Clone, Copy, PartialEq, Eq, Structural)]
pub struct NodeTotals {
    pub count: usize,
    pub total_loc: u32,
    pub total_cc: u32,
    pub max_cc: u32,
    pub max_depth: u32,
    pub depth_sum: u32,
    pub complex_functions: u32,
    pub large_functions: u32,
    pub deep_functions: u32,
}

/// Whether the sums over the nodes fit in 32 bits.
pub open spec fn totals_fit(nodes: Seq<NodeMetrics>) -> bool {
    &&& sum_u32(node_locs(nodes)) <= u32::MAX
    &&& sum_u32(node_ccs(nodes)) <= u32::MAX
    &&& sum_u32(node_depths(nodes)) <= u32::MAX
    &&& nodes.len() <= u32::MAX
}

/// The test for a complex function.
pub open spec fn complex_node() -> spec_fn(NodeMetrics) -> bool {
    |n: NodeMetrics| spec_node_complex(n)
}

/// The test for a large function: more than fifty lines.
pub open spec fn large_node() -> spec_fn(NodeMetrics) -> bool {
    |n: NodeMetrics| n.loc > 50
}

/// The test for a deeply nested function: deeper than three.
pub open spec fn deep_node() -> spec_fn(NodeMetrics) -> bool {
    |n: NodeMetrics| n.depth > 3
}

/// The totals of a sequence of nodes.
pub open spec fn spec_node_totals(nodes: Seq<NodeMetrics>) -> NodeTotals {
    NodeTotals {
        count: nodes.len() as usize,
        total_loc: sum_u32(node_locs(nodes)) as u32,
        total_cc: sum_u32(node_ccs(nodes)) as u32,
        max_cc: max_u32_seq(node_ccs(nodes)),
        max_depth: max_u32_seq(node_depths(nodes)),
        depth_sum: sum_u32(node_depths(nodes)) as u32,
        complex_functions: nodes.filter(complex_node()).len() as u32,
        large_functions: nodes.filter(large_node()).len() as u32,
        deep_functions: nodes.filter(deep_node()).len() as u32,
    }
}

impl NodeTotals {
    /// The totals over the nodes, in one pass.
    pub fn from_nodes(nodes: &[NodeMetrics]) -> (r: Self)
        requires
            totals_fit(nodes@),
        ensures
            r == spec_node_totals(nodes@),
    {
        let ghost ns = nodes@;
        let mut t = NodeTotals {
            count: 0,
            total_loc: 0,
            total_cc: 0,
            max_cc: 0,
            max_depth: 0,
            depth_sum: 0,
            complex_functions: 0,
            large_functions: 0,
            deep_functions: 0,
        };
        let mut i: usize = 0;
        while i < nodes.len()
            invariant
                ns == nodes@,
                totals_fit(ns),
                0 <= i <= ns.len(),
                t == spec_node_totals(ns.take(i as int)),
            decreases ns.len() - i,
        {
            let ghost prev = ns.take(i as int);
            let ghost cur = ns.take(i + 1);
            assert(cur.drop_last() =~= prev);
            assert(node_locs(cur).drop_last() =~= node_locs(prev));
            assert(node_ccs(cur).drop_last() =~= node_ccs(prev));
            assert(node_depths(cur).drop_last() =~= node_depths(prev));
            proof {
                lemma_sum_prefix(node_locs(ns), i + 1);
                lemma_sum_prefix(node_ccs(ns), i + 1);
                lemma_sum_prefix(node_depths(ns), i + 1);
                assert(node_locs(ns).take(i + 1) =~= node_locs(cur));
                assert(node_ccs(ns).take(i + 1) =~= node_ccs(cur));
                assert(node_depths(ns).take(i + 1) =~= node_depths(cur));
                reveal(Seq::filter);
                assert(cur.last() == ns[i as int]);
                cur.lemma_filter_len(complex_node());
                cur.lemma_filter_len(large_node());
                cur.lemma_filter_len(deep_node());
                assert(cur.filter(complex_node()).len() == prev.filter(complex_node()).len() + if spec_node_complex(ns[i as int]) { 1int } else { 0int });
                assert(cur.filter(large_node()).len() == prev.filter(large_node()).len() + if ns[i as int].loc > 50 { 1int } else { 0int });
                assert(cur.filter(deep_node()).len() == prev.filter(deep_node()).len() + if ns[i as int].depth > 3 { 1int } else { 0int });
            }
            let n = &nodes[i];
            t.count = t.count + 1;
            t.total_loc = t.total_loc + n.loc;
            t.total_cc = t.total_cc + n.cc;
            t.depth_sum = t.depth_sum + n.depth;
            if n.cc > t.max_cc {
                t.max_cc = n.cc;
            }
            if n.depth > t.max_depth {
                t.max_depth = n.depth;
            }
            if n.is_complex() {
                t.complex_functions = t.complex_functions + 1;
            }
            if n.is_large() {
                t.large_functions = t.large_functions + 1;
            }
            if n.is_deeply_nested() {
                t.deep_functions = t.deep_functions + 1;
            }
            i += 1;
        }
        assert(ns.take(i as int) =~= ns);
        t
    }
}

/// Cyclomatic complexity computation rules.
#[derive(Debug)]
pub struct ComplexityRules;

impl ComplexityRules {
    pub fn compute_base_complexity() -> (r: u32)
        ensures
            r == 1,
    {
        1
    }

    /// One plus the number of branches.
    pub fn compute_from_events(events: &[StructuralEvent]) -> (r: u32)
        requires
            branch_count(events@) < u32::MAX,
        ensures
            r == events_complexity(events@),
    {
        let mut complexity: u32 = Self::compute_base_complexity();
        let mut i: usize = 0;
        while i < events.len()
            invariant
                0 <= i <= events@.len(),
                branch_count(events@) < u32::MAX,
                complexity == 1 + branch_count(events@.take(i as int)),
            decreases events@.len() - i,
        {
            assert(events@.take(i + 1).drop_last() =~= events@.take(i as int));
            proof {
                lemma_branch_count_bounds(events@, i + 1);
            }
            if events[i].is_branch() {
                complexity += 1;
            }
            i += 1;
        }
        assert(events@.take(i as int) =~= events@);
        complexity
    }

    /// The largest node complexity, 0 for no nodes.
    pub fn compute_max_complexity(nodes: &[NodeMetrics]) -> (r: u32)
        ensures
            r == max_u32_seq(node_ccs(nodes@)),
    {
        let mut m: u32 = 0;
        let mut i: usize = 0;
        while i < nodes.len()
            invariant
                0 <= i <= nodes@.len(),
                m == max_u32_seq(node_ccs(nodes@).take(i as int)),
            decreases nodes@.len() - i,
        {
            assert(node_ccs(nodes@).take(i + 1).drop_last() =~= node_ccs(nodes@).take(i as int));
            if nodes[i].cc > m {
                m = nodes[i].cc;
            }
            i += 1;
        }
        assert(node_ccs(nodes@).take(i as int) =~= node_ccs(nodes@));
        m
    }

    /// The sum of the node complexities.
    pub fn compute_sum_complexity(nodes: &[NodeMetrics]) -> (r: u32)
        requires
            sum_u32(node_ccs(nodes@)) <= u32::MAX,
        ensures
            r == sum_u32(node_ccs(nodes@)),
    {
        let mut s: u32 = 0;
        let mut i: usize = 0;
        while i < nodes.len()
            invariant
                0 <= i <= nodes@.len(),
                sum_u32(node_ccs(nodes@)) <= u32::MAX,
                s == sum_u32(node_ccs(nodes@).take(i as int)),
            decreases nodes@.len() - i,
        {
            assert(node_ccs(nodes@).take(i + 1).drop_last() =~= node_ccs(nodes@).take(i as int));
            proof {
                lemma_sum_prefix(node_ccs(nodes@), i + 1);
            }
            s = s + nodes[i].cc;
            i += 1;
        }
        assert(node_ccs(nodes@).take(i as int) =~= node_ccs(nodes@));
        s
    }

    /// A complexity is consistent when it is at least 1 and at least one
    /// more than the number of branches.
    pub fn validate_complexity_invariants(complexity: u32, branch_count: u32) -> (r: Result<(), DomainError>)
        requires
            branch_count < u32::MAX,
        ensures
            r is Ok <==> complexity_consistent(complexity as int, branch_count as int),
            complexity < 1 ==> (r matches Err(DomainError::InvalidSpan(m)) && m@ == "complexity below minimum"@),
            complexity >= 1 && complexity < branch_count + 1 ==> (r matches Err(DomainError::InvalidSpan(m)) && m@ == "complexity inconsistent with branches"@),
    {
        if complexity < Self::compute_base_complexity() {
            return Err(DomainError::InvalidSpan(owned("complexity below minimum")));
        }
        if complexity < branch_count + 1 {
            return Err(DomainError::InvalidSpan(owned("complexity inconsistent with branches")));
        }
        Ok(())
    }
}

/// The cognitive complexity and the number of open blocks after a stream of
/// events: each branch adds one plus the number of open blocks, except a
/// logical operator, which adds one; a block exit at depth zero keeps it zero.
pub open spec fn cognitive_scan(events: Seq<StructuralEvent>) -> (nat, nat)
    decreases events.len(),
{
    if events.len() == 0 {
        (0, 0)
    } else {
        let (total, depth) = cognitive_scan(events.drop_last());
        match events.last() {
            StructuralEvent::BlockEntry { .. } => (total, depth + 1),
            StructuralEvent::BlockExit { .. } => (total, if depth == 0 { 0 } else { (depth - 1) as nat }),
            StructuralEvent::Branch { branch_type, .. } => (
                total + if branch_type is Logical { 1nat } else { 1 + depth },
                depth,
            ),
            _ => (total, depth),
        }
    }
}

/// Cognitive complexity computation rules.
#[derive(Debug)]
pub struct CognitiveComplexityRules;

impl CognitiveComplexityRules {
    /// The cognitive complexity of a stream of events.
    pub fn compute_from_events(events: &[StructuralEvent]) -> (r: u32)
        requires
            events@.len() <= u32::MAX,
            cognitive_scan(events@).0 <= u32::MAX,
        ensures
            r == cognitive_scan(events@).0,
    {
        let mut total: u32 = 0;
        let mut depth: u32 = 0;
        let mut i: usize = 0;
        while i < events.len()
            invariant
                0 <= i <= events@.len(),
                events@.len() <= u32::MAX,
                cognitive_scan(events@).0 <= u32::MAX,
                (total as nat, depth as nat) == cognitive_scan(events@.take(i as int)),
                depth <= i,
            decreases events@.len() - i,
        {
            let ghost prev = events@.take(i as int);
            assert(events@.take(i + 1).drop_last() =~= prev);
            assert(events@.take(i + 1).last() == events@[i as int]);
            proof {
                lemma_cognitive_prefix(events@, i + 1);
            }
            match &events[i] {
                StructuralEvent::BlockEntry { .. } => {
                    depth += 1;
                },
                StructuralEvent::BlockExit { .. } => {
                    if depth > 0 {
                        depth -= 1;
                    }
                },
                StructuralEvent::Branch { branch_type, .. } => {
                    match branch_type {
                        BranchType::Logical => {
                            total += 1;
                        },
                        _ => {
                            total += 1 + depth;
                        },
                    }
                },
                _ => {},
            }
            i += 1;
        }
        assert(events@.take(i as int) =~= events@);
        total
    }
}

impl CognitiveComplexityRules {
    /// Whether the cognitive complexity of a stream of events fits in `u32`.
    pub fn fits_u32(events: &[StructuralEvent]) -> (r: bool)
        ensures
            r == (cognitive_scan(events@).0 <= u32::MAX),
    {
        let mut total: u64 = 0;
        let mut depth: u64 = 0;
        let mut i: usize = 0;
        while i < events.len()
            invariant
                0 <= i <= events@.len(),
                (total as nat, depth as nat) == cognitive_scan(events@.take(i as int)),
                total <= u32::MAX,
                depth <= i,
            decreases events@.len() - i,
        {
            let ghost prev = events@.take(i as int);
            assert(events@.take(i + 1).drop_last() =~= prev);
            assert(events@.take(i + 1).last() == events@[i as int]);
            match &events[i] {
                StructuralEvent::BlockEntry { .. } => {
                    depth += 1;
                },
                StructuralEvent::BlockExit { .. } => {
                    if depth > 0 {
                        depth -= 1;
                    }
                },
                StructuralEvent::Branch { branch_type, .. } => {
                    match branch_type {
                        BranchType::Logical => {
                            total += 1;
                        },
                        _ => {
                            if depth >= u32::MAX as u64 {
                                proof {
                                    lemma_cognitive_prefix(events@, i + 1);
                                }
                                return false;
                            }
                            total += 1 + depth;
                        },
                    }
                },
                _ => {},
            }
            i += 1;
            if total > u32::MAX as u64 {
                proof {
                    lemma_cognitive_prefix(events@, i as int);
                }
                return false;
            }
        }
        assert(events@.take(i as int) =~= events@);
        true
    }
}

/// The cognitive complexity of any stretch of a stream is at most that of the
/// whole stream: a stretch starts with no open blocks, so its depths never
/// exceed those of the stream at the same events.
pub proof fn lemma_cognitive_stretch(events: Seq<StructuralEvent>, a: int, b: int)
    requires
        0 <= a <= b <= events.len(),
    ensures
        cognitive_scan(events.subrange(a, b)).0 <= cognitive_scan(events).0,
{
    lemma_cognitive_stretch_step(events, a, b);
    lemma_cognitive_prefix(events, b);
}

proof fn lemma_cognitive_stretch_step(events: Seq<StructuralEvent>, a: int, b: int)
    requires
        0 <= a <= b <= events.len(),
    ensures
        cognitive_scan(events.subrange(a, b)).0 + cognitive_scan(events.take(a)).0 <= cognitive_scan(events.take(b)).0,
        cognitive_scan(events.subrange(a, b)).1 <= cognitive_scan(events.take(b)).1,
    decreases b - a,
{
    if b == a {
        assert(events.subrange(a, b) =~= Seq::<StructuralEvent>::empty());
    } else {
        lemma_cognitive_stretch_step(events, a, b - 1);
        assert(events.subrange(a, b).drop_last() =~= events.subrange(a, b - 1));
        assert(events.take(b).drop_last() =~= events.take(b - 1));
        assert(events.subrange(a, b).last() == events[b - 1]);
        assert(events.take(b).last() == events[b - 1]);
    }
}

/// The cognitive complexity grows along a stream.
proof fn lemma_cognitive_prefix(events: Seq<StructuralEvent>, i: int)
    requires
        0 <= i <= events.len(),
    ensures
        cognitive_scan(events.take(i)).0 <= cognitive_scan(events).0,
    decreases events.len() - i,
{
    if i < events.len() {
        lemma_cognitive_prefix(events, i + 1);
        assert(events.take(i + 1).drop_last() =~= events.take(i));
    } else {
        assert(events.take(i) =~= events);
    }
}

/// What a `DefaultHasher` has been fed, after also feeding it a string as
/// `str`'s `Hash` impl does. This and the three names below are fixed within
/// one build; std does not promise that `Hash` feeds the same bytes on every
/// target or in every release.
pub uninterp spec fn spec_feed_str(state: Seq<Seq<u8>>, s: Seq<char>) -> Seq<Seq<u8>>;

/// Calls `<str as Hash>::hash` on a `DefaultHasher`. Claimed: what the hasher
/// has been fed afterwards depends only on what it had been fed before and
/// on the characters of `s`.
#[verifier::external_body]
fn feed_str(s: &str, h: &mut DefaultHasher)
    ensures
        final(h)@ == spec_feed_str(old(h)@, s@),
{
    s.hash(h)
}

/// What a `DefaultHasher` has been fed, after also feeding it a `u32`.
pub uninterp spec fn spec_feed_u32(state: Seq<Seq<u8>>, v: u32) -> Seq<Seq<u8>>;

/// Calls `<u32 as Hash>::hash` on a `DefaultHasher`. Claimed: the hasher's
/// feed afterwards depends only on its feed before and on `v`.
#[verifier::external_body]
fn feed_u32(v: u32, h: &mut DefaultHasher)
    ensures
        final(h)@ == spec_feed_u32(old(h)@, v),
{
    v.hash(h)
}

/// What a `DefaultHasher` has been fed, after also feeding it a `u8`.
pub uninterp spec fn spec_feed_u8(state: Seq<Seq<u8>>, v: u8) -> Seq<Seq<u8>>;

/// Calls `<u8 as Hash>::hash` on a `DefaultHasher`. Claimed: the hasher's
/// feed afterwards depends only on its feed before and on `v`.
#[verifier::external_body]
fn feed_u8(v: u8, h: &mut DefaultHasher)
    ensures
        final(h)@ == spec_feed_u8(old(h)@, v),
{
    v.hash(h)
}

/// What a `DefaultHasher` has been fed, after also feeding it a `bool`.
pub uninterp spec fn spec_feed_bool(state: Seq<Seq<u8>>, v: bool) -> Seq<Seq<u8>>;

/// Calls `<bool as Hash>::hash` on a `DefaultHasher`. Claimed: the hasher's
/// feed afterwards depends only on its feed before and on `v`.
#[verifier::external_body]
fn feed_bool(v: bool, h: &mut DefaultHasher)
    ensures
        final(h)@ == spec_feed_bool(old(h)@, v),
{
    v.hash(h)
}

/// The code of a branch type, in declaration order.
pub open spec fn branch_code(t: BranchType) -> u8 {
    match t {
        BranchType::Conditional => 0,
        BranchType::Loop => 1,
        BranchType::Switch => 2,
        BranchType::Exception => 3,
        BranchType::Logical => 4,
    }
}

fn branch_type_code(t: BranchType) -> (r: u8)
    ensures
        r == branch_code(t),
{
    match t {
        BranchType::Conditional => 0,
        BranchType::Loop => 1,
        BranchType::Switch => 2,
        BranchType::Exception => 3,
        BranchType::Logical => 4,
    }
}

/// The length of an event's span.
pub open spec fn span_len(e: StructuralEvent) -> u32 {
    match crate::domain::events::event_span(e) {
        Some(s) => (s@.1 - s@.0) as u32,
        None => 0,
    }
}

/// What the fingerprint hasher is fed for one event: block entries and
/// exits, branches (with their type) and function starts (with whether they
/// are named), each with its span's length; nothing for other events.
pub open spec fn feed_event(state: Seq<Seq<u8>>, e: StructuralEvent) -> Seq<Seq<u8>> {
    match e {
        StructuralEvent::BlockEntry { .. } => spec_feed_u32(spec_feed_str(state, "block_entry"@), span_len(e)),
        StructuralEvent::BlockExit { .. } => spec_feed_u32(spec_feed_str(state, "block_exit"@), span_len(e)),
        StructuralEvent::Branch { branch_type, .. } => spec_feed_u32(
            spec_feed_u8(spec_feed_str(state, "branch"@), branch_code(branch_type)),
            span_len(e),
        ),
        StructuralEvent::FunctionStart { name, .. } => spec_feed_u32(
            spec_feed_bool(spec_feed_str(state, "function_start"@), name is Some),
            span_len(e),
        ),
        _ => state,
    }
}

/// What the fingerprint hasher is fed for a stream of events.
pub open spec fn feed_events(events: Seq<StructuralEvent>) -> Seq<Seq<u8>>
    decreases events.len(),
{
    if events.len() == 0 {
        Seq::empty()
    } else {
        feed_event(feed_events(events.drop_last()), events.last())
    }
}

/// The part of an event that the fingerprint sees.
pub enum FedItem {
    BlockEntry(u32),
    BlockExit(u32),
    Branch(u8, u32),
    FunctionStart(bool, u32),
}

/// What the fingerprint sees of an event: its kind, its span's length, the
/// code of a branch's type and whether a function is named. Imports, exports,
/// function ends and cursor positions are not seen at all.
pub open spec fn fed_item(e: StructuralEvent) -> Option<FedItem> {
    match e {
        StructuralEvent::BlockEntry { .. } => Some(FedItem::BlockEntry(span_len(e))),
        StructuralEvent::BlockExit { .. } => Some(FedItem::BlockExit(span_len(e))),
        StructuralEvent::Branch { branch_type, .. } => Some(FedItem::Branch(branch_code(branch_type), span_len(e))),
        StructuralEvent::FunctionStart { name, .. } => Some(FedItem::FunctionStart(name is Some, span_len(e))),
        _ => None,
    }
}

/// What the fingerprint sees of a stream of events, in order.
pub open spec fn fed_items(events: Seq<StructuralEvent>) -> Seq<FedItem>
    decreases events.len(),
{
    if events.len() == 0 {
        Seq::empty()
    } else {
        match fed_item(events.last()) {
            Some(item) => fed_items(events.drop_last()).push(item),
            None => fed_items(events.drop_last()),
        }
    }
}

/// What the fingerprint hasher is fed for one seen item.
pub open spec fn feed_item(state: Seq<Seq<u8>>, item: FedItem) -> Seq<Seq<u8>> {
    match item {
        FedItem::BlockEntry(len) => spec_feed_u32(spec_feed_str(state, "block_entry"@), len),
        FedItem::BlockExit(len) => spec_feed_u32(spec_feed_str(state, "block_exit"@), len),
        FedItem::Branch(code, len) => spec_feed_u32(spec_feed_u8(spec_feed_str(state, "branch"@), code), len),
        FedItem::FunctionStart(named, len) => spec_feed_u32(spec_feed_bool(spec_feed_str(state, "function_start"@), named), len),
    }
}

/// What the fingerprint hasher is fed for a sequence of seen items.
pub open spec fn feed_items(items: Seq<FedItem>) -> Seq<Seq<u8>>
    decreases items.len(),
{
    if items.len() == 0 {
        Seq::empty()
    } else {
        feed_item(feed_items(items.drop_last()), items.last())
    }
}

proof fn lemma_feed_events_items(events: Seq<StructuralEvent>)
    ensures
        feed_events(events) == feed_items(fed_items(events)),
    decreases events.len(),
{
    if events.len() > 0 {
        lemma_feed_events_items(events.drop_last());
        let prev = fed_items(events.drop_last());
        match fed_item(events.last()) {
            Some(item) => {
                assert(prev.push(item).drop_last() =~= prev);
            },
            None => {},
        }
    }
}

/// Two streams of events that show the fingerprint the same items get the
/// same fingerprint. So inserting or removing imports, exports, function ends
/// or cursor positions, moving spans without changing their lengths, and
/// renaming a named function leave the fingerprint unchanged.
pub proof fn law_fingerprint_sees_only_fed_items(a: Seq<StructuralEvent>, b: Seq<StructuralEvent>)
    requires
        fed_items(a) == fed_items(b),
    ensures
        feed_events(a) == feed_events(b),
        DefaultHasher::spec_finish(feed_events(a)) == DefaultHasher::spec_finish(feed_events(b)),
{
    lemma_feed_events_items(a);
    lemma_feed_events_items(b);
}

/// The character that normalising puts for a character: `_` for an ASCII
/// letter or underscore, `#` for an ASCII digit, the character itself otherwise.
pub open spec fn normal_char(c: char) -> char {
    if ('a' <= c <= 'z') || ('A' <= c <= 'Z') || c == '_' {
        '_'
    } else if '0' <= c <= '9' {
        '#'
    } else {
        c
    }
}

/// The maximal runs of non-whitespace characters.
pub open spec fn words(s: Seq<char>) -> Seq<Seq<char>>
    decreases s.len(),
{
    if s.len() == 0 {
        Seq::empty()
    } else {
        let w = words(s.drop_last());
        let c = s.last();
        if spec_is_whitespace(c) {
            w
        } else if s.len() >= 2 && !spec_is_whitespace(s[s.len() - 2]) {
            w.update(w.len() - 1, w.last().push(c))
        } else {
            w.push(seq![c])
        }
    }
}

/// Words joined by single spaces.
pub open spec fn join_words(w: Seq<Seq<char>>) -> Seq<char>
    decreases w.len(),
{
    if w.len() == 0 {
        Seq::empty()
    } else if w.len() == 1 {
        w[0]
    } else {
        join_words(w.drop_last()) + seq![' '] + w.last()
    }
}

/// A structure string normalised: letters and underscores become `_`,
/// digits become `#`, and whitespace runs become single spaces with none at
/// either end.
pub open spec fn normalized(s: Seq<char>) -> Seq<char> {
    join_words(words(s.map_values(|c: char| normal_char(c))))
}

proof fn lemma_words_nonempty(s: Seq<char>)
    requires
        s.len() > 0,
        !spec_is_whitespace(s.last()),
    ensures
        words(s).len() > 0,
    decreases s.len(),
{
    if s.len() >= 2 && !spec_is_whitespace(s[s.len() - 2]) {
        assert(s.drop_last().last() == s[s.len() - 2]);
        lemma_words_nonempty(s.drop_last());
    }
}

proof fn lemma_join_extend(w: Seq<Seq<char>>, c: char)
    requires
        w.len() > 0,
    ensures
        join_words(w.update(w.len() - 1, w.last().push(c))) == join_words(w).push(c),
{
    let u = w.update(w.len() - 1, w.last().push(c));
    if w.len() == 1 {
    } else {
        assert(u.drop_last() =~= w.drop_last());
    }
}

proof fn lemma_join_push(w: Seq<Seq<char>>, c: char)
    ensures
        join_words(w.push(seq![c])) == if w.len() == 0 { seq![c] } else { join_words(w) + seq![' ', c] },
{
    let u = w.push(seq![c]);
    assert(u.drop_last() =~= w);
    if w.len() > 0 {
        assert(join_words(w) + seq![' '] + seq![c] =~= join_words(w) + seq![' ', c]);
    }
}

/// Duplication detection rules.
#[derive(Debug)]
pub struct DuplicationRules;

impl DuplicationRules {
    /// The fingerprint of a structure string: the hash of its normalised form.
    pub fn compute_fingerprint(structure: &str) -> (r: StructuralFingerprint)
        ensures
            r@ == DefaultHasher::spec_finish(spec_feed_str(Seq::empty(), normalized(structure@))),
    {
        let normal = Self::normalize_structure(structure);
        let mut hasher = DefaultHasher::new();
        feed_str(normal.as_str(), &mut hasher);
        StructuralFingerprint::new(hasher.finish())
    }

    fn normalize_structure(structure: &str) -> (r: String)
        ensures
            r@ == normalized(structure@),
    {
        let ghost mapped = structure@.map_values(|c: char| normal_char(c));
        let mut out = String::new();
        let mut in_word = false;
        for c in it: structure.chars()
            invariant
                it.seq() == structure@,
                mapped == structure@.map_values(|c: char| normal_char(c)),
                out@ == join_words(words(mapped.take(it.index() as int))),
                in_word <==> (it.index() > 0 && !spec_is_whitespace(mapped[it.index() - 1])),
                (out@.len() == 0) <==> (words(mapped.take(it.index() as int)).len() == 0),
        {
            let ghost i = it.index() as int;
            let ghost prev = mapped.take(i);
            let ghost cur = mapped.take(i + 1);
            assert(cur.drop_last() =~= prev);
            assert(cur.last() == normal_char(c));
            let m = if ('a' <= c && c <= 'z') || ('A' <= c && c <= 'Z') || c == '_' {
                '_'
            } else if '0' <= c && c <= '9' {
                '#'
            } else {
                c
            };
            let ws = is_whitespace(m);
            if ws {
                in_word = false;
            } else {
                proof {
                    if in_word {
                        assert(cur[cur.len() - 2] == mapped[i - 1]);
                        lemma_words_nonempty(prev);
                        lemma_join_extend(words(prev), m);
                    } else {
                        if i > 0 {
                            assert(cur[cur.len() - 2] == mapped[i - 1]);
                        }
                        lemma_join_push(words(prev), m);
                    }
                }
                if in_word {
                    out.push(m);
                } else {
                    if !out.as_str().is_empty() {
                        out.push(' ');
                    }
                    out.push(m);
                }
                in_word = true;
            }
        }
        proof {
            assert(mapped.take(mapped.len() as int) =~= mapped);
        }
        out
    }

    /// The fingerprint of a stream of events.
    pub fn compute_fingerprint_from_events(events: &[StructuralEvent]) -> (r: StructuralFingerprint)
        ensures
            r@ == DefaultHasher::spec_finish(feed_events(events@)),
    {
        let mut hasher = DefaultHasher::new();
        let mut i: usize = 0;
        while i < events.len()
            invariant
                0 <= i <= events@.len(),
                hasher@ == feed_events(events@.take(i as int)),
            decreases events@.len() - i,
        {
            assert(events@.take(i + 1).drop_last() =~= events@.take(i as int));
            let e = &events[i];
            match e {
                StructuralEvent::BlockEntry { span } => {
                    feed_str("block_entry", &mut hasher);
                    feed_u32(span.len(), &mut hasher);
                },
                StructuralEvent::BlockExit { span } => {
                    feed_str("block_exit", &mut hasher);
                    feed_u32(span.len(), &mut hasher);
                },
                StructuralEvent::Branch { branch_type, span } => {
                    feed_str("branch", &mut hasher);
                    feed_u8(branch_type_code(*branch_type), &mut hasher);
                    feed_u32(span.len(), &mut hasher);
                },
                StructuralEvent::FunctionStart { name, span } => {
                    feed_str("function_start", &mut hasher);
                    feed_bool(name.is_some(), &mut hasher);
                    feed_u32(span.len(), &mut hasher);
                },
                _ => {},
            }
            i += 1;
        }
        assert(events@.take(i as int) =~= events@);
        StructuralFingerprint::new(hasher.finish())
    }
}

/// The duplicates that a fingerprint seen `c` times stands for.
pub open spec fn excess(c: u16) -> int {
    if c > 1 { c - 1 } else { 0 }
}

/// The step of the sum of excesses over the fingerprints of a map.
pub open spec fn excess_step(m: Map<u64, u16>) -> spec_fn(int, u64) -> int {
    |acc: int, k: u64| acc + excess(m[k])
}

/// The duplicates that a map from fingerprint to occurrences stands for:
/// the occurrences beyond the first, summed over all fingerprints.
pub open spec fn dup_sum(m: Map<u64, u16>) -> int {
    m.dom().fold(0int, excess_step(m))
}

proof fn lemma_excess_step_commutes(m: Map<u64, u16>)
    ensures
        vstd::set::fold::is_fun_commutative(excess_step(m)),
{
}

/// The number of nodes with a fingerprint.
pub open spec fn fingerprint_count(nodes: Seq<NodeMetrics>, f: u64) -> nat
    decreases nodes.len(),
{
    if nodes.len() == 0 {
        0
    } else {
        fingerprint_count(nodes.drop_last(), f) + if nodes.last().fingerprint@ == f { 1nat } else { 0nat }
    }
}

/// The map from each fingerprint of the nodes to its number of nodes.
pub open spec fn fingerprint_counts(nodes: Seq<NodeMetrics>) -> Map<u64, u16> {
    Map::new(
        |f: u64| fingerprint_count(nodes, f) > 0,
        |f: u64| fingerprint_count(nodes, f) as u16,
    )
}

impl DuplicationRules {
    /// The number of duplicates: for each fingerprint, its occurrences
    /// beyond the first.
    pub fn count_duplicates(fingerprints: &HashMap<u64, u16>) -> (r: u32)
        requires
            dup_sum(fingerprints@) <= u16::MAX,
        ensures
            r == dup_sum(fingerprints@),
    {
        let ghost m = fingerprints@;
        let ghost f = excess_step(m);
        proof {
            lemma_excess_step_commutes(m);
            vstd::set::fold::lemma_fold_empty(0int, f);
        }
        let mut total: u32 = 0;
        let ghost all = vstd::std_specs::hash::spec_keys_iter(fingerprints).remaining().unref();
        let ghost mut done: int = 0;
        assert(all.take(0).to_set() =~= Set::<u64>::empty());
        for k in it: fingerprints.keys()
            invariant
                m == fingerprints@,
                f == excess_step(m),
                vstd::set::fold::is_fun_commutative(f),
                all == vstd::std_specs::hash::spec_keys_iter(fingerprints).remaining().unref(),
                it.seq().unref() == all,
                all.no_duplicates(),
                all.to_set() == m.dom(),
                done == it.index(),
                total == all.take(done).to_set().fold(0int, f),
                dup_sum(m) <= u16::MAX,
        {
            let ghost i = done;
            assert(all[i] == *k);
            proof {
                lemma_prefix_fold_step(all, m, i);
                lemma_prefix_fold_le(all, m, i + 1);
                assert(all.take(all.len() as int) =~= all);
            }
            let c = match fingerprints.get(k) {
                Some(v) => *v,
                None => 0,
            };
            assert(c == m[all[i]]);
            let e: u32 = if c > 1 { (c - 1) as u32 } else { 0 };
            total = total + e;
            proof {
                done = done + 1;
            }
        }
        proof {
            assert(all.take(done) =~= all);
        }
        total
    }
}

/// Folding one more key of a duplicate-free listing adds its excess.
proof fn lemma_prefix_fold_step(ks: Seq<u64>, m: Map<u64, u16>, i: int)
    requires
        ks.no_duplicates(),
        0 <= i < ks.len(),
    ensures
        ks.take(i + 1).to_set().fold(0int, excess_step(m)) == ks.take(i).to_set().fold(0int, excess_step(m)) + excess(m[ks[i]]),
{
    let prev = ks.take(i);
    assert(ks.take(i + 1) =~= prev.push(ks[i]));
    assert(prev.push(ks[i]).to_set() =~= prev.to_set().insert(ks[i])) by {
        prev.lemma_push_to_set_commute(ks[i]);
    }
    assert(!prev.to_set().contains(ks[i])) by {
        if prev.to_set().contains(ks[i]) {
            assert(prev.contains(ks[i]));
            let j = choose|j: int| 0 <= j < prev.len() && prev[j] == ks[i];
            assert(ks[j] == ks[i]);
        }
    }
    vstd::seq_lib::seq_to_set_is_finite(prev);
    lemma_excess_step_commutes(m);
    vstd::set::fold::lemma_fold_insert(prev.to_set(), 0int, excess_step(m), ks[i]);
}

/// Folding a prefix gives at most the fold of the whole listing.
proof fn lemma_prefix_fold_le(ks: Seq<u64>, m: Map<u64, u16>, i: int)
    requires
        ks.no_duplicates(),
        0 <= i <= ks.len(),
    ensures
        ks.take(i).to_set().fold(0int, excess_step(m)) <= ks.take(ks.len() as int).to_set().fold(0int, excess_step(m)),
    decreases ks.len() - i,
{
    if i < ks.len() {
        lemma_prefix_fold_step(ks, m, i);
        lemma_prefix_fold_le(ks, m, i + 1);
    }
}

/// The deepest block nesting and the current depth after a stream of
/// events; an exit at depth zero keeps the depth at zero.
pub open spec fn depth_scan(events: Seq<StructuralEvent>) -> (nat, nat)
    decreases events.len(),
{
    if events.len() == 0 {
        (0, 0)
    } else {
        let (mx, depth) = depth_scan(events.drop_last());
        match events.last() {
            StructuralEvent::BlockEntry { .. } => (if depth + 1 > mx { depth + 1 } else { mx }, depth + 1),
            StructuralEvent::BlockExit { .. } => (mx, if depth == 0 { 0 } else { (depth - 1) as nat }),
            _ => (mx, depth),
        }
    }
}

/// The number of import events.
pub open spec fn import_count(events: Seq<StructuralEvent>) -> nat
    decreases events.len(),
{
    if events.len() == 0 {
        0
    } else {
        import_count(events.drop_last()) + if events.last() is Import { 1nat } else { 0nat }
    }
}

/// The number of export events.
pub open spec fn export_count(events: Seq<StructuralEvent>) -> nat
    decreases events.len(),
{
    if events.len() == 0 {
        0
    } else {
        export_count(events.drop_last()) + if events.last() is Export { 1nat } else { 0nat }
    }
}

/// The file metrics of a stream of events and its nodes: complexities from
/// the nodes, or from the events when there are none; depth, fan-out and
/// exports from the events; duplicates from the nodes' fingerprints.
pub open spec fn spec_file_metrics(events: Seq<StructuralEvent>, nodes: Seq<NodeMetrics>, loc: u32, mi: MaintainabilityIndex) -> FileMetrics {
    let cc_events = (1 + branch_count(events)) as u32;
    let cog_events = cognitive_scan(events).0 as u32;
    file_metrics_of(
        loc,
        if nodes.len() == 0 { cc_events } else { max_u32_seq(node_ccs(nodes)) },
        if nodes.len() == 0 { cc_events } else { sum_u32(node_ccs(nodes)) as u32 },
        if nodes.len() == 0 { cog_events } else { max_u32_seq(node_cognitives(nodes)) },
        if nodes.len() == 0 { cog_events } else { sum_u32(node_cognitives(nodes)) as u32 },
        depth_scan(events).0 as u32,
        0,
        import_count(events) as u32,
        export_count(events) as u32,
        mi,
        dup_sum(fingerprint_counts(nodes)) as u32,
        nodes.len() as u32,
    )
}

/// The sizes that the file-metric computation needs to stay within `u32`
/// (and `u16` for fingerprint occurrences).
pub open spec fn aggregation_fits(events: Seq<StructuralEvent>, nodes: Seq<NodeMetrics>) -> bool {
    &&& events.len() < u32::MAX
    &&& nodes.len() == 0 ==> cognitive_scan(events).0 <= u32::MAX
    &&& sum_u32(node_ccs(nodes)) <= u32::MAX
    &&& sum_u32(node_cognitives(nodes)) <= u32::MAX
    &&& forall|f: u64| #[trigger] fingerprint_count(nodes, f) <= u16::MAX
    &&& dup_sum(fingerprint_counts(nodes)) <= u16::MAX
}

/// Maintainability index computation rules.
#[derive(Debug)]
pub struct MaintainabilityRules;

impl MaintainabilityRules {
    /// What the maintainability index of a file is estimated from: `None`
    /// when there are no functions or no lines (the index is then 100),
    /// otherwise the number of functions and the sum of their complexities.
    pub fn maintainability_inputs(nodes: &[NodeMetrics], total_loc: u32) -> (r: Option<(usize, u32)>)
        requires
            sum_u32(node_ccs(nodes@)) <= u32::MAX,
        ensures
            nodes@.len() == 0 || total_loc == 0 ==> r is None,
            nodes@.len() > 0 && total_loc > 0 ==> r == Some((nodes@.len() as usize, sum_u32(node_ccs(nodes@)) as u32)),
    {
        if nodes.len() == 0 || total_loc == 0 {
            return None;
        }
        Some((nodes.len(), ComplexityRules::compute_sum_complexity(nodes)))
    }
}

/// Metric aggregation rules.
#[derive(Debug)]
pub struct AggregationRules;

impl AggregationRules {
    /// The metrics of a file from its events, its nodes, its line count and
    /// its maintainability index. Maxima never exceed sums, so this always
    /// succeeds.
    pub fn compute_file_metrics(events: &[StructuralEvent], nodes: &[NodeMetrics], actual_loc: u32, mi: MaintainabilityIndex) -> (r: Result<FileMetrics, DomainError>)
        requires
            aggregation_fits(events@, nodes@),
        ensures
            r == Ok::<FileMetrics, DomainError>(spec_file_metrics(events@, nodes@, actual_loc, mi)),
    {
        let loc = actual_loc;
        let (cc_sum, cc_max) = if nodes.len() == 0 {
            proof {
                lemma_branch_count_bounds(events@, 0);
            }
            let cc = ComplexityRules::compute_from_events(events);
            (cc, cc)
        } else {
            (ComplexityRules::compute_sum_complexity(nodes), ComplexityRules::compute_max_complexity(nodes))
        };
        let (cognitive_sum, cognitive_max) = if nodes.len() == 0 {
            let c = CognitiveComplexityRules::compute_from_events(events);
            (c, c)
        } else {
            (Self::sum_cognitive(nodes), Self::max_cognitive(nodes))
        };
        proof {
            lemma_max_le_sum(node_ccs(nodes@));
            lemma_max_le_sum(node_cognitives(nodes@));
        }
        let depth_max = Self::compute_max_depth(events);
        let fan_out = Self::compute_fan_out(events);
        let exports = Self::compute_exports(events);
        let fingerprints = Self::compute_fingerprints(nodes);
        let dup_blocks = DuplicationRules::count_duplicates(&fingerprints);
        FileMetrics::new(
            loc,
            cc_max,
            cc_sum,
            cognitive_max,
            cognitive_sum,
            depth_max,
            0,
            fan_out,
            exports,
            mi,
            dup_blocks,
            nodes.len() as u32,
        )
    }

    fn sum_cognitive(nodes: &[NodeMetrics]) -> (r: u32)
        requires
            sum_u32(node_cognitives(nodes@)) <= u32::MAX,
        ensures
            r == sum_u32(node_cognitives(nodes@)),
    {
        let mut s: u32 = 0;
        let mut i: usize = 0;
        while i < nodes.len()
            invariant
                0 <= i <= nodes@.len(),
                sum_u32(node_cognitives(nodes@)) <= u32::MAX,
                s == sum_u32(node_cognitives(nodes@).take(i as int)),
            decreases nodes@.len() - i,
        {
            assert(node_cognitives(nodes@).take(i + 1).drop_last() =~= node_cognitives(nodes@).take(i as int));
            proof {
                lemma_sum_prefix(node_cognitives(nodes@), i + 1);
            }
            s = s + nodes[i].cognitive;
            i += 1;
        }
        assert(node_cognitives(nodes@).take(i as int) =~= node_cognitives(nodes@));
        s
    }

    fn max_cognitive(nodes: &[NodeMetrics]) -> (r: u32)
        ensures
            r == max_u32_seq(node_cognitives(nodes@)),
    {
        let mut m: u32 = 0;
        let mut i: usize = 0;
        while i < nodes.len()
            invariant
                0 <= i <= nodes@.len(),
                m == max_u32_seq(node_cognitives(nodes@).take(i as int)),
            decreases nodes@.len() - i,
        {
            assert(node_cognitives(nodes@).take(i + 1).drop_last() =~= node_cognitives(nodes@).take(i as int));
            if nodes[i].cognitive > m {
                m = nodes[i].cognitive;
            }
            i += 1;
        }
        assert(node_cognitives(nodes@).take(i as int) =~= node_cognitives(nodes@));
        m
    }

    fn compute_max_depth(events: &[StructuralEvent]) -> (r: u32)
        requires
            events@.len() <= u32::MAX,
        ensures
            r == depth_scan(events@).0,
    {
        let mut depth: u32 = 0;
        let mut max_depth: u32 = 0;
        let mut i: usize = 0;
        while i < events.len()
            invariant
                0 <= i <= events@.len(),
                events@.len() <= u32::MAX,
                (max_depth as nat, depth as nat) == depth_scan(events@.take(i as int)),
                depth <= i,
                max_depth <= i,
            decreases events@.len() - i,
        {
            assert(events@.take(i + 1).drop_last() =~= events@.take(i as int));
            assert(events@.take(i + 1).last() == events@[i as int]);
            match &events[i] {
                StructuralEvent::BlockEntry { .. } => {
                    depth += 1;
                    if depth > max_depth {
                        max_depth = depth;
                    }
                },
                StructuralEvent::BlockExit { .. } => {
                    if depth > 0 {
                        depth -= 1;
                    }
                },
                _ => {},
            }
            i += 1;
        }
        assert(events@.take(i as int) =~= events@);
        max_depth
    }

    fn compute_fan_out(events: &[StructuralEvent]) -> (r: u32)
        requires
            events@.len() <= u32::MAX,
        ensures
            r == import_count(events@),
    {
        let mut n: u32 = 0;
        let mut i: usize = 0;
        while i < events.len()
            invariant
                0 <= i <= events@.len(),
                events@.len() <= u32::MAX,
                n == import_count(events@.take(i as int)),
                n <= i,
            decreases events@.len() - i,
        {
            assert(events@.take(i + 1).drop_last() =~= events@.take(i as int));
            if events[i].is_import() {
                n += 1;
            }
            i += 1;
        }
        assert(events@.take(i as int) =~= events@);
        n
    }

    fn compute_exports(events: &[StructuralEvent]) -> (r: u32)
        requires
            events@.len() <= u32::MAX,
        ensures
            r == export_count(events@),
    {
        let mut n: u32 = 0;
        let mut i: usize = 0;
        while i < events.len()
            invariant
                0 <= i <= events@.len(),
                events@.len() <= u32::MAX,
                n == export_count(events@.take(i as int)),
                n <= i,
            decreases events@.len() - i,
        {
            assert(events@.take(i + 1).drop_last() =~= events@.take(i as int));
            if events[i].is_export() {
                n += 1;
            }
            i += 1;
        }
        assert(events@.take(i as int) =~= events@);
        n
    }

    fn compute_fingerprints(nodes: &[NodeMetrics]) -> (r: HashMap<u64, u16>)
        requires
            forall|f: u64| #[trigger] fingerprint_count(nodes@, f) <= u16::MAX,
        ensures
            r@ == fingerprint_counts(nodes@),
    {
        let mut m: HashMap<u64, u16> = HashMap::new();
        let mut i: usize = 0;
        assert(m@ =~= fingerprint_counts(nodes@.take(0)));
        while i < nodes.len()
            invariant
                0 <= i <= nodes@.len(),
                forall|f: u64| #[trigger] fingerprint_count(nodes@, f) <= u16::MAX,
                m@ == fingerprint_counts(nodes@.take(i as int)),
            decreases nodes@.len() - i,
        {
            let ghost prev = nodes@.take(i as int);
            let ghost cur = nodes@.take(i + 1);
            assert(cur.drop_last() =~= prev);
            let fp = nodes[i].fingerprint.as_u64();
            proof {
                lemma_fingerprint_count_prefix(nodes@, i + 1, fp);
            }
            let c: u16 = match m.get(&fp) {
                Some(v) => *v,
                None => 0,
            };
            assert(c == fingerprint_count(prev, fp));
            m.insert(fp, c + 1);
            assert(m@ =~= fingerprint_counts(cur)) by {
                assert forall|g: u64| #[trigger] fingerprint_counts(cur).contains_key(g) == m@.contains_key(g) by {
                }
            }
            i += 1;
        }
        assert(nodes@.take(i as int) =~= nodes@);
        m
    }
}

impl AggregationRules {
    /// Whether the file metrics of a stream of events and its nodes can be
    /// computed within the sizes that the aggregation counts in.
    pub fn fits(events: &[StructuralEvent], nodes: &[NodeMetrics]) -> (r: bool)
        ensures
            r == aggregation_fits(events@, nodes@),
    {
        if events.len() >= u32::MAX as usize {
            return false;
        }
        if nodes.len() == 0 && !CognitiveComplexityRules::fits_u32(events) {
            return false;
        }
        if !Self::sum_fits(nodes, true) || !Self::sum_fits(nodes, false) {
            return false;
        }
        let counts = match Self::checked_fingerprints(nodes) {
            Some(m) => m,
            None => return false,
        };
        Self::dup_sum_fits(&counts)
    }

    /// Whether the cyclomatic (or else the cognitive) complexities of the
    /// nodes sum to at most `u32::MAX`.
    fn sum_fits(nodes: &[NodeMetrics], cyclomatic: bool) -> (r: bool)
        ensures
            cyclomatic ==> r == (sum_u32(node_ccs(nodes@)) <= u32::MAX),
            !cyclomatic ==> r == (sum_u32(node_cognitives(nodes@)) <= u32::MAX),
    {
        let ghost vals = if cyclomatic { node_ccs(nodes@) } else { node_cognitives(nodes@) };
        let mut s: u64 = 0;
        let mut i: usize = 0;
        while i < nodes.len()
            invariant
                0 <= i <= nodes@.len(),
                vals == if cyclomatic { node_ccs(nodes@) } else { node_cognitives(nodes@) },
                vals.len() == nodes@.len(),
                s == sum_u32(vals.take(i as int)),
                s <= u32::MAX,
            decreases nodes@.len() - i,
        {
            assert(vals.take(i + 1).drop_last() =~= vals.take(i as int));
            let v: u32 = if cyclomatic { nodes[i].cc } else { nodes[i].cognitive };
            assert(v == vals[i as int]);
            s = s + v as u64;
            i += 1;
            if s > u32::MAX as u64 {
                proof {
                    lemma_sum_prefix(vals, i as int);
                }
                return false;
            }
        }
        assert(vals.take(i as int) =~= vals);
        true
    }

    /// The map from each fingerprint of the nodes to its number of nodes, or
    /// `None` when some fingerprint is shared by more than `u16::MAX` nodes.
    fn checked_fingerprints(nodes: &[NodeMetrics]) -> (r: Option<HashMap<u64, u16>>)
        ensures
            match r {
                Some(m) => m@ == fingerprint_counts(nodes@) && forall|f: u64| #[trigger] fingerprint_count(nodes@, f) <= u16::MAX,
                None => !(forall|f: u64| #[trigger] fingerprint_count(nodes@, f) <= u16::MAX),
            },
    {
        let mut m: HashMap<u64, u16> = HashMap::new();
        let mut i: usize = 0;
        assert(m@ =~= fingerprint_counts(nodes@.take(0)));
        while i < nodes.len()
            invariant
                0 <= i <= nodes@.len(),
                m@ == fingerprint_counts(nodes@.take(i as int)),
                forall|f: u64| #[trigger] fingerprint_count(nodes@.take(i as int), f) <= u16::MAX,
            decreases nodes@.len() - i,
        {
            let ghost prev = nodes@.take(i as int);
            let ghost cur = nodes@.take(i + 1);
            assert(cur.drop_last() =~= prev);
            let fp = nodes[i].fingerprint.as_u64();
            let c: u16 = match m.get(&fp) {
                Some(v) => *v,
                None => 0,
            };
            assert(c == fingerprint_count(prev, fp));
            if c == u16::MAX {
                proof {
                    lemma_fingerprint_count_prefix(nodes@, i + 1, fp);
                    assert(fingerprint_count(cur, fp) > u16::MAX);
                }
                return None;
            }
            m.insert(fp, c + 1);
            assert(m@ =~= fingerprint_counts(cur)) by {
                assert forall|g: u64| #[trigger] fingerprint_counts(cur).contains_key(g) == m@.contains_key(g) by {
                }
            }
            assert forall|f: u64| #[trigger] fingerprint_count(cur, f) <= u16::MAX by {
                assert(fingerprint_count(prev, f) <= u16::MAX);
            }
            i += 1;
        }
        assert(nodes@.take(i as int) =~= nodes@);
        Some(m)
    }

    /// Whether the duplicates that a map from fingerprint to occurrences
    /// stands for number at most `u16::MAX`.
    fn dup_sum_fits(fingerprints: &HashMap<u64, u16>) -> (r: bool)
        ensures
            r == (dup_sum(fingerprints@) <= u16::MAX),
    {
        let ghost m = fingerprints@;
        let ghost f = excess_step(m);
        proof {
            lemma_excess_step_commutes(m);
            vstd::set::fold::lemma_fold_empty(0int, f);
        }
        let mut total: u32 = 0;
        let ghost all = vstd::std_specs::hash::spec_keys_iter(fingerprints).remaining().unref();
        let ghost mut done: int = 0;
        assert(all.take(0).to_set() =~= Set::<u64>::empty());
        for k in it: fingerprints.keys()
            invariant
                m == fingerprints@,
                f == excess_step(m),
                vstd::set::fold::is_fun_commutative(f),
                all == vstd::std_specs::hash::spec_keys_iter(fingerprints).remaining().unref(),
                it.seq().unref() == all,
                all.no_duplicates(),
                all.to_set() == m.dom(),
                done == it.index(),
                total == all.take(done).to_set().fold(0int, f),
                total <= u16::MAX,
        {
            let ghost i = done;
            assert(all[i] == *k);
            proof {
                lemma_prefix_fold_step(all, m, i);
                lemma_prefix_fold_le(all, m, i + 1);
                assert(all.take(all.len() as int) =~= all);
            }
            let c = match fingerprints.get(k) {
                Some(v) => *v,
                None => 0,
            };
            assert(c == m[all[i]]);
            let e: u32 = if c > 1 { (c - 1) as u32 } else { 0 };
            total = total + e;
            proof {
                done = done + 1;
            }
            if total > u16::MAX as u32 {
                return false;
            }
        }
        proof {
            assert(all.take(done) =~= all);
        }
        true
    }
}

/// Counts over a prefix are at most counts over the whole.
proof fn lemma_fingerprint_count_prefix(nodes: Seq<NodeMetrics>, i: int, f: u64)
    requires
        0 <= i <= nodes.len(),
    ensures
        fingerprint_count(nodes.take(i), f) <= fingerprint_count(nodes, f),
    decreases nodes.len() - i,
{
    if i < nodes.len() {
        lemma_fingerprint_count_prefix(nodes, i + 1, f);
        assert(nodes.take(i + 1).drop_last() =~= nodes.take(i));
    } else {
        assert(nodes.take(i) =~= nodes);
    }
}

} // verus!
