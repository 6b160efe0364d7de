//! Single-pass syntax walker: metrics are counters updated while the tree is
//! walked, with no intermediate representation of the results.
//!
//! The walk itself is split in two. [`collect_visits`] records, for the nodes
//! of a parse listed in pre-order with their depths, each node entered and
//! left ([`NodeVisit`], specified by [`spec_visits`]); [`walk_visits`] runs
//! the metric accumulator over that record and is specified exactly by
//! [`spec_walk`].
use vstd::prelude::*;
use crate::data::{FunctionData, FileStructure, WalkState, FINGERPRINT_PRIME, seq_sum, seq_max, max_u32};
use crate::metrics::{count_lines, newline_count};
use crate::syntax::{SyntaxNode, SyntaxNodeView, node_views, spec_syntax_nodes, syntax_nodes};
use crate::text::utf8_decode;
use std::collections::HashSet;
use crate::lang::{BranchKind, Language, LanguageSpec};
use crate::text::str_eq;
use vstd::std_specs::hash::group_hash_axioms;

verus! {

broadcast use group_hash_axioms;

/// Error type for walk operations.
#[derive(Debug)]
pub enum WalkError {
    ParseFailed(String),
    LanguageSetupFailed(String),
    /// A counter of the walk would leave the range of its integer type.
    MetricOverflow(String),
}

impl WalkError {
    /// The description of the error: its kind, a colon and its message.
    pub fn describe(&self) -> (r: String)
        ensures
            match self {
                WalkError::ParseFailed(m) => r@ == "Parse failed: "@ + m@,
                WalkError::LanguageSetupFailed(m) => r@ == "Language setup failed: "@ + m@,
                WalkError::MetricOverflow(m) => r@ == "Metric overflow: "@ + m@,
            },
    {
        match self {
            WalkError::ParseFailed(m) => crate::text::concat_str("Parse failed: ", m.as_str()),
            WalkError::LanguageSetupFailed(m) => crate::text::concat_str("Language setup failed: ", m.as_str()),
            WalkError::MetricOverflow(m) => crate::text::concat_str("Metric overflow: ", m.as_str()),
        }
    }
}

/// One event of a pre-order walk: a node entered or a node left.
#[derive(Debug, Clone)]
pub struct NodeVisit {
    /// True when the node is entered, false when it is left.
    pub entering: bool,
    /// The node's kind.
    pub kind: String,
    /// The node's first byte.
    pub start_byte: u32,
    /// The 1-based line on which the node starts.
    pub start_line: u32,
    /// The 1-based line on which the node ends.
    pub end_line: u32,
    /// The node's source text, for an identifier or literal whose bytes are UTF-8.
    pub text: Option<String>,
    /// The text of the first child named like an identifier, when the node is left.
    pub name: Option<String>,
}

/// Context of an enclosing function, saved while a nested one is walked.
#[derive(Debug, Clone)]
pub struct FunctionContext {
    pub name: Option<String>,
    pub start_line: u32,
    pub cc: u32,
    pub cognitive: u32,
    pub max_depth: u32,
    pub depth_at_start: u32,
    pub fingerprint: u64,
}

/// The state of a walk: the accumulator, the saved contexts of enclosing
/// functions, and the functions finished so far.
pub ghost struct WalkRun {
    pub state: WalkState,
    pub stack: Seq<FunctionContext>,
    pub functions: Seq<FunctionData>,
}

/// FNV-1a offset basis, the seed of node-kind hashes.
pub const KIND_SEED: u64 = 0xcbf29ce484222325u64;

/// The seed of content hashes (identifiers and literals).
pub const CONTENT_SEED: u64 = 0x811c9dc5u64;

/// FNV-1a over a byte sequence from a given seed.
pub open spec fn fnv(h: u64, bytes: Seq<u8>) -> u64
    decreases bytes.len(),
{
    if bytes.len() == 0 {
        h
    } else {
        fnv((h ^ (bytes[0] as u64)).wrapping_mul(FINGERPRINT_PRIME), bytes.drop_first())
    }
}

proof fn lemma_fnv_push(h: u64, s: Seq<u8>, b: u8)
    ensures
        fnv(h, s.push(b)) == (fnv(h, s) ^ (b as u64)).wrapping_mul(FINGERPRINT_PRIME),
    decreases s.len(),
{
    if s.len() > 0 {
        let h1 = (h ^ (s[0] as u64)).wrapping_mul(FINGERPRINT_PRIME);
        assert(s.push(b)[0] == s[0]);
        assert(s.push(b).drop_first() =~= s.drop_first().push(b));
        lemma_fnv_push(h1, s.drop_first(), b);
        assert(fnv(h, s) == fnv(h1, s.drop_first()));
        assert(fnv(h, s.push(b)) == fnv(h1, s.push(b).drop_first()));
    } else {
        assert(s.push(b)[0] == b);
        assert(s.push(b).drop_first() =~= Seq::<u8>::empty());
        let h1 = (h ^ (b as u64)).wrapping_mul(FINGERPRINT_PRIME);
        assert(fnv(h1, Seq::<u8>::empty()) == h1);
        assert(fnv(h, s.push(b)) == fnv(h1, s.push(b).drop_first()));
    }
}

/// One FNV-1a step tells different bytes apart: xor with the byte is one to
/// one, and so is multiplying by the (odd) prime modulo 2^64.
proof fn lemma_fnv_step_injective(x: u64, b1: u8, b2: u8)
    requires
        b1 != b2,
    ensures
        (x ^ (b1 as u64)).wrapping_mul(FINGERPRINT_PRIME) != (x ^ (b2 as u64)).wrapping_mul(FINGERPRINT_PRIME),
{
    let a1 = x ^ (b1 as u64);
    let a2 = x ^ (b2 as u64);
    let w1 = b1 as u64;
    let w2 = b2 as u64;
    assert(a1 != a2) by (bit_vector)
        requires
            a1 == x ^ w1,
            a2 == x ^ w2,
            w1 != w2,
    ;
    assert((a1 * 0x100000001b3u64) % 0x10000000000000000int != (a2 * 0x100000001b3u64) % 0x10000000000000000int) by (bit_vector)
        requires
            a1 != a2,
    ;
}

/// The UTF-8 encoding of a text with one more ASCII character is the text's
/// encoding followed by that character's code.
proof fn lemma_encode_push_ascii(t: Seq<char>, c: char)
    requires
        (c as u32) < 128,
    ensures
        vstd::utf8::encode_utf8(t.push(c)) == vstd::utf8::encode_utf8(t).push(((c as u32) & 0x7F) as u8),
{
    crate::data::lemma_utf8_concat(t, seq![c]);
    assert(t + seq![c] =~= t.push(c));
    assert(seq![c].drop_first() =~= Seq::<char>::empty());
    assert(seq![c][0] == c);
    assert(vstd::utf8::encode_utf8(Seq::<char>::empty()) =~= Seq::<u8>::empty());
    assert(vstd::utf8::has_width_1_encoding(c as u32));
    assert(vstd::utf8::encode_utf8(seq![c]) =~= seq![((c as u32) & 0x7F) as u8]);
    assert(vstd::utf8::encode_utf8(t) + seq![((c as u32) & 0x7F) as u8] =~= vstd::utf8::encode_utf8(t).push(((c as u32) & 0x7F) as u8));
}

/// FNV-1a over two byte runs one after the other continues from the hash of
/// the first.
proof fn lemma_fnv_concat(h: u64, a: Seq<u8>, b: Seq<u8>)
    ensures
        fnv(h, a + b) == fnv(fnv(h, a), b),
    decreases a.len(),
{
    if a.len() > 0 {
        let h1 = (h ^ (a[0] as u64)).wrapping_mul(FINGERPRINT_PRIME);
        assert((a + b)[0] == a[0]);
        assert((a + b).drop_first() =~= a.drop_first() + b);
        lemma_fnv_concat(h1, a.drop_first(), b);
    } else {
        assert(a + b =~= b);
    }
}

/// Different states stay different through any further bytes: each step
/// (xor with a byte, then multiplication by the odd prime) is one to one.
proof fn lemma_fnv_state_injective(h1: u64, h2: u64, s: Seq<u8>)
    requires
        h1 != h2,
    ensures
        fnv(h1, s) != fnv(h2, s),
    decreases s.len(),
{
    if s.len() > 0 {
        let w = s[0] as u64;
        let a1 = h1 ^ w;
        let a2 = h2 ^ w;
        assert(a1 != a2) by (bit_vector)
            requires
                a1 == h1 ^ w,
                a2 == h2 ^ w,
                h1 != h2,
        ;
        assert((a1 * 0x100000001b3u64) % 0x10000000000000000int != (a2 * 0x100000001b3u64) % 0x10000000000000000int) by (bit_vector)
            requires
                a1 != a2,
        ;
        lemma_fnv_state_injective(a1.wrapping_mul(FINGERPRINT_PRIME), a2.wrapping_mul(FINGERPRINT_PRIME), s.drop_first());
    }
}

/// The content hash depends on all of the content: two texts that differ in
/// exactly one character, both ASCII (the characters of most identifiers and
/// literals), at the same position, hash differently; so do two node kinds.
pub proof fn law_hash_tells_one_char_apart(p: Seq<char>, c1: char, c2: char, q: Seq<char>)
    requires
        c1 != c2,
        (c1 as u32) < 128,
        (c2 as u32) < 128,
    ensures
        spec_hash_content(p.push(c1) + q) != spec_hash_content(p.push(c2) + q),
        spec_hash_kind(p.push(c1) + q) != spec_hash_kind(p.push(c2) + q),
{
    lemma_encode_push_ascii(p, c1);
    lemma_encode_push_ascii(p, c2);
    crate::data::lemma_utf8_concat(p.push(c1), q);
    crate::data::lemma_utf8_concat(p.push(c2), q);
    let u1 = c1 as u32;
    let u2 = c2 as u32;
    let b1 = (u1 & 0x7F) as u8;
    let b2 = (u2 & 0x7F) as u8;
    assert(b1 != b2) by (bit_vector)
        requires
            b1 == (u1 & 0x7F) as u8,
            b2 == (u2 & 0x7F) as u8,
            u1 < 128,
            u2 < 128,
            u1 != u2,
    ;
    let e = vstd::utf8::encode_utf8(p);
    let eq = vstd::utf8::encode_utf8(q);
    lemma_fnv_concat(CONTENT_SEED, e.push(b1), eq);
    lemma_fnv_concat(CONTENT_SEED, e.push(b2), eq);
    lemma_fnv_push(CONTENT_SEED, e, b1);
    lemma_fnv_push(CONTENT_SEED, e, b2);
    lemma_fnv_step_injective(fnv(CONTENT_SEED, e), b1, b2);
    lemma_fnv_state_injective(fnv(CONTENT_SEED, e.push(b1)), fnv(CONTENT_SEED, e.push(b2)), eq);
    lemma_fnv_concat(KIND_SEED, e.push(b1), eq);
    lemma_fnv_concat(KIND_SEED, e.push(b2), eq);
    lemma_fnv_push(KIND_SEED, e, b1);
    lemma_fnv_push(KIND_SEED, e, b2);
    lemma_fnv_step_injective(fnv(KIND_SEED, e), b1, b2);
    lemma_fnv_state_injective(fnv(KIND_SEED, e.push(b1)), fnv(KIND_SEED, e.push(b2)), eq);
}

pub open spec fn spec_hash_kind(kind: Seq<char>) -> u64 {
    fnv(KIND_SEED, vstd::utf8::encode_utf8(kind))
}

pub open spec fn spec_hash_content(text: Seq<char>) -> u64 {
    fnv(CONTENT_SEED, vstd::utf8::encode_utf8(text))
}

fn fnv_bytes(seed: u64, bytes: &[u8]) -> (h: u64)
    ensures
        h == fnv(seed, bytes@),
{
    let mut h = seed;
    let mut i: usize = 0;
    assert(bytes@.skip(0) =~= bytes@);
    while i < bytes.len()
        invariant
            0 <= i <= bytes@.len(),
            fnv(h, bytes@.skip(i as int)) == fnv(seed, bytes@),
        decreases bytes@.len() - i,
    {
        assert(bytes@.skip(i as int).drop_first() =~= bytes@.skip(i + 1));
        h ^= bytes[i] as u64;
        h = h.wrapping_mul(FINGERPRINT_PRIME);
        i += 1;
    }
    assert(bytes@.skip(i as int) =~= Seq::<u8>::empty());
    h
}

/// Simple string hash for fingerprint updates (FNV-1a over the kind's bytes).
pub fn hash_kind(kind: &str) -> (h: u64)
    ensures
        h == spec_hash_kind(kind@),
{
    fnv_bytes(KIND_SEED, kind.as_bytes())
}

/// Hash content (identifiers, literals) for fingerprinting.
pub fn hash_content(text: &str) -> (h: u64)
    ensures
        h == spec_hash_content(text@),
{
    fnv_bytes(CONTENT_SEED, text.as_bytes())
}

pub open spec fn spec_is_identifier_or_literal(kind: Seq<char>) -> bool {
    kind == "identifier"@ || kind == "field_identifier"@ || kind == "type_identifier"@ || kind
        == "property_identifier"@ || kind == "string_literal"@ || kind == "string"@ || kind
        == "integer_literal"@ || kind == "number"@ || kind == "float_literal"@ || kind
        == "boolean"@ || kind == "true"@ || kind == "false"@
}

/// Check if node kind is an identifier or literal that should be fingerprinted.
pub fn is_identifier_or_literal(kind: &str) -> (r: bool)
    ensures
        r == spec_is_identifier_or_literal(kind@),
{
    str_eq(kind, "identifier") || str_eq(kind, "field_identifier") || str_eq(kind, "type_identifier")
        || str_eq(kind, "property_identifier") || str_eq(kind, "string_literal") || str_eq(
        kind,
        "string",
    ) || str_eq(kind, "integer_literal") || str_eq(kind, "number") || str_eq(kind, "float_literal")
        || str_eq(kind, "boolean") || str_eq(kind, "true") || str_eq(kind, "false")
}

// ---------------------------------------------------------------------------
// One step of the walk, specified.
// ---------------------------------------------------------------------------

/// The context saved for the function being walked when a nested one starts.
pub open spec fn ctx_of(s: WalkState) -> FunctionContext {
    FunctionContext {
        name: None,
        start_line: s.fn_start_line,
        cc: s.fn_cc,
        cognitive: s.fn_cognitive,
        max_depth: s.fn_max_depth,
        depth_at_start: s.fn_depth_at_start,
        fingerprint: s.fingerprint_hash,
    }
}

pub open spec fn entry_function(spec: LanguageSpec, r: WalkRun, v: NodeVisit) -> WalkRun {
    if spec.spec_is_function(v.kind@) {
        WalkRun {
            state: r.state.spec_start_function(v.start_byte, v.start_line).spec_update_fingerprint(
                spec_hash_kind("function"@),
            ),
            stack: if r.state.in_function {
                r.stack.push(ctx_of(r.state))
            } else {
                r.stack
            },
            functions: r.functions,
        }
    } else {
        r
    }
}

pub open spec fn entry_block(spec: LanguageSpec, r: WalkRun, v: NodeVisit) -> Option<WalkRun> {
    if spec.spec_is_block(v.kind@) {
        if !r.state.can_enter_block() {
            None
        } else {
            let s = r.state.spec_enter_block();
            Some(
                WalkRun {
                    state: if s.in_function {
                        s.spec_update_fingerprint(spec_hash_kind("block"@))
                    } else {
                        s
                    },
                    ..r
                },
            )
        }
    } else {
        Some(r)
    }
}

/// The cognitive-complexity update of one branch of the given kind.
pub open spec fn cognitive_for_branch(s: WalkState, bk: BranchKind) -> Option<WalkState> {
    match bk {
        BranchKind::Conditional | BranchKind::Loop | BranchKind::Switch | BranchKind::Exception => {
            if !s.can_record_cognitive(true) {
                None
            } else {
                let s1 = s.spec_record_cognitive(true);
                if s1.cognitive_nesting == u32::MAX {
                    None
                } else {
                    Some(s1.spec_enter_cognitive_nesting())
                }
            }
        },
        BranchKind::SwitchCase | BranchKind::Else => {
            if !s.can_record_cognitive(false) {
                None
            } else {
                let s1 = s.spec_record_cognitive(false);
                if bk == BranchKind::Else {
                    if s1.cognitive_nesting == u32::MAX {
                        None
                    } else {
                        Some(s1.spec_enter_cognitive_nesting())
                    }
                } else {
                    Some(s1)
                }
            }
        },
        BranchKind::BooleanAnd | BranchKind::BooleanOr => {
            let is_and = bk == BranchKind::BooleanAnd;
            let is_new = s.last_bool_op != Some(is_and);
            let s1 = WalkState { last_bool_op: Some(is_and), ..s };
            if is_new {
                if !s1.can_record_cognitive(false) {
                    None
                } else {
                    Some(s1.spec_record_cognitive(false))
                }
            } else {
                Some(s1)
            }
        },
    }
}

/// How a branch changes cognitive complexity. A conditional, loop, switch or
/// exception branch adds one plus the current cognitive nesting (to the file,
/// and to the function when inside one) and opens one more level of nesting;
/// a switch case adds one; an `else` adds one and opens a level; a boolean
/// operator adds one when it starts a run of a different operator than the
/// last one, and nothing when it continues a run. Nothing else changes, and
/// the update fails only when a counter would leave `u32`.
pub proof fn law_branch_cognitive(s: WalkState, bk: BranchKind)
    ensures
        (bk is Conditional || bk is Loop || bk is Switch || bk is Exception) ==> {
            let inc = 1 + s.cognitive_nesting;
            &&& (cognitive_for_branch(s, bk) is None <==> (s.cognitive + inc > u32::MAX
                || (s.in_function && s.fn_cognitive + inc > u32::MAX) || s.cognitive_nesting == u32::MAX))
            &&& cognitive_for_branch(s, bk) matches Some(t) ==> {
                &&& t.cognitive == s.cognitive + inc
                &&& t.fn_cognitive == if s.in_function { s.fn_cognitive + inc } else { s.fn_cognitive as int }
                &&& t.cognitive_nesting == s.cognitive_nesting + 1
                &&& t == WalkState { cognitive: t.cognitive, fn_cognitive: t.fn_cognitive, cognitive_nesting: t.cognitive_nesting, ..s }
            }
        },
        (bk is SwitchCase || bk is Else) ==> {
            &&& (cognitive_for_branch(s, bk) is None <==> (s.cognitive + 1 > u32::MAX
                || (s.in_function && s.fn_cognitive + 1 > u32::MAX) || (bk is Else && s.cognitive_nesting == u32::MAX)))
            &&& cognitive_for_branch(s, bk) matches Some(t) ==> {
                &&& t.cognitive == s.cognitive + 1
                &&& t.fn_cognitive == if s.in_function { s.fn_cognitive + 1 } else { s.fn_cognitive as int }
                &&& t.cognitive_nesting == if bk is Else { s.cognitive_nesting + 1 } else { s.cognitive_nesting as int }
                &&& t == WalkState { cognitive: t.cognitive, fn_cognitive: t.fn_cognitive, cognitive_nesting: t.cognitive_nesting, ..s }
            }
        },
        (bk is BooleanAnd || bk is BooleanOr) ==> {
            let starts_run = s.last_bool_op != Some(bk is BooleanAnd);
            let inc: int = if starts_run { 1 } else { 0 };
            &&& (cognitive_for_branch(s, bk) is None <==> (s.cognitive + inc > u32::MAX
                || (s.in_function && s.fn_cognitive + inc > u32::MAX)))
            &&& cognitive_for_branch(s, bk) matches Some(t) ==> {
                &&& t.cognitive == s.cognitive + inc
                &&& t.fn_cognitive == if s.in_function { s.fn_cognitive + inc } else { s.fn_cognitive as int }
                &&& t.last_bool_op == Some(bk is BooleanAnd)
                &&& t == WalkState { cognitive: t.cognitive, fn_cognitive: t.fn_cognitive, last_bool_op: t.last_bool_op, ..s }
            }
        },
{
}

pub open spec fn entry_branch(spec: LanguageSpec, r: WalkRun, v: NodeVisit) -> Option<WalkRun> {
    if spec.spec_is_branch(v.kind@) {
        let bk = spec.spec_classify_branch(v.kind@);
        let adds_cc = bk.spec_adds_cc();
        if adds_cc && !r.state.can_record_branch() {
            None
        } else {
            let s1 = if adds_cc {
                r.state.spec_record_branch()
            } else {
                r.state
            };
            match cognitive_for_branch(s1, bk) {
                None => None,
                Some(s2) => Some(
                    WalkRun {
                        state: if s2.in_function {
                            s2.spec_update_fingerprint(spec_hash_kind(v.kind@))
                        } else {
                            s2
                        },
                        ..r
                    },
                ),
            }
        }
    } else {
        Some(r)
    }
}

pub open spec fn entry_counts(spec: LanguageSpec, r: WalkRun, v: NodeVisit) -> Option<WalkRun> {
    let imp = spec.spec_is_import(v.kind@);
    let exp = spec.spec_is_export(v.kind@);
    if (imp && r.state.imports == u32::MAX) || (exp && r.state.exports == u32::MAX) {
        None
    } else {
        Some(
            WalkRun {
                state: WalkState {
                    imports: if imp {
                        (r.state.imports + 1) as u32
                    } else {
                        r.state.imports
                    },
                    exports: if exp {
                        (r.state.exports + 1) as u32
                    } else {
                        r.state.exports
                    },
                    ..r.state
                },
                ..r
            },
        )
    }
}

pub open spec fn entry_tail(spec: LanguageSpec, r: WalkRun, v: NodeVisit) -> WalkRun {
    let s1 = if !spec.spec_is_boolean_and(v.kind@) && !spec.spec_is_boolean_or(v.kind@) {
        WalkState { last_bool_op: None, ..r.state }
    } else {
        r.state
    };
    let s2 = if s1.in_function && spec_is_identifier_or_literal(v.kind@) && v.text is Some {
        s1.spec_update_fingerprint(spec_hash_content(v.text->0@))
    } else {
        s1
    };
    WalkRun { state: s2, ..r }
}

/// Entering a node: function start, block entry, branch, import/export
/// counts, boolean chain reset, and content fingerprint, in this order.
pub open spec fn spec_entry(spec: LanguageSpec, r: WalkRun, v: NodeVisit) -> Option<WalkRun> {
    let r1 = entry_function(spec, r, v);
    match entry_block(spec, r1, v) {
        None => None,
        Some(r2) => match entry_branch(spec, r2, v) {
            None => None,
            Some(r3) => match entry_counts(spec, r3, v) {
                None => None,
                Some(r4) => Some(entry_tail(spec, r4, v)),
            },
        },
    }
}

/// The record of a function that ends at a node left with the given visit.
pub open spec fn finished_function(s: WalkState, v: NodeVisit) -> FunctionData {
    let raw = v.end_line - s.fn_start_line + 1;
    FunctionData {
        name: v.name,
        start_line: s.fn_start_line,
        end_line: v.end_line,
        loc: if raw >= 1 { raw as u32 } else { 1 },
        cc: s.fn_cc,
        cognitive: s.fn_cognitive,
        depth: s.fn_max_depth,
        fingerprint: s.fingerprint_hash,
    }
}

/// Restores the saved context of the enclosing function.
pub open spec fn restore(s: WalkState, ctx: FunctionContext) -> WalkState {
    WalkState {
        in_function: true,
        fn_start_line: ctx.start_line,
        fn_cc: ctx.cc,
        fn_cognitive: ctx.cognitive,
        fn_max_depth: ctx.max_depth,
        fn_depth_at_start: ctx.depth_at_start,
        fingerprint_hash: ctx.fingerprint,
        ..s
    }
}

/// Leaving a node: block exit, branch nesting exit, then function end with
/// the enclosing function's context restored.
pub open spec fn spec_exit(spec: LanguageSpec, r: WalkRun, v: NodeVisit) -> Option<WalkRun> {
    let s1 = if spec.spec_is_block(v.kind@) {
        r.state.spec_exit_block()
    } else {
        r.state
    };
    let s2 = if spec.spec_is_branch(v.kind@) && spec.spec_classify_branch(v.kind@).spec_increases_nesting() {
        s1.spec_exit_cognitive_nesting()
    } else {
        s1
    };
    if spec.spec_is_function(v.kind@) {
        if v.end_line < s2.fn_start_line || v.end_line - s2.fn_start_line + 1 > u32::MAX {
            None
        } else {
            let f = finished_function(s2, v);
            let s3 = s2.spec_end_function();
            if r.stack.len() > 0 {
                Some(
                    WalkRun {
                        state: restore(s3, r.stack.last()),
                        stack: r.stack.drop_last(),
                        functions: r.functions.push(f),
                    },
                )
            } else {
                Some(WalkRun { state: s3, stack: r.stack, functions: r.functions.push(f) })
            }
        }
    } else {
        Some(WalkRun { state: s2, ..r })
    }
}

pub open spec fn spec_step(spec: LanguageSpec, r: WalkRun, v: NodeVisit) -> Option<WalkRun> {
    if v.entering {
        spec_entry(spec, r, v)
    } else {
        spec_exit(spec, r, v)
    }
}

/// The walk over a sequence of visits, from a given state; `None` when some
/// counter would leave its range.
pub open spec fn spec_walk(spec: LanguageSpec, r0: WalkRun, visits: Seq<NodeVisit>) -> Option<WalkRun>
    decreases visits.len(),
{
    if visits.len() == 0 {
        Some(r0)
    } else {
        match spec_walk(spec, r0, visits.drop_last()) {
            None => None,
            Some(r) => spec_step(spec, r, visits.last()),
        }
    }
}

/// The state a file's walk starts from.
pub open spec fn initial_run(loc: u32) -> WalkRun {
    WalkRun {
        state: WalkState { loc, ..WalkState::spec_default() },
        stack: Seq::empty(),
        functions: Seq::empty(),
    }
}


// ---------------------------------------------------------------------------
// The walk, executed.
// ---------------------------------------------------------------------------

/// The ghost view of the walk's mutable parts.
pub open spec fn run_of(state: WalkState, stack: Seq<FunctionContext>, functions: Seq<FunctionData>) -> WalkRun {
    WalkRun { state, stack, functions }
}

fn handle_function_entry(spec: &LanguageSpec, state: &mut WalkState, stack: &mut Vec<FunctionContext>, v: &NodeVisit)
    ensures
        run_of(*final(state), final(stack)@, Seq::empty()) == entry_function(*spec, run_of(*old(state), old(stack)@, Seq::empty()), *v),
{
    if spec.is_function(v.kind.as_str()) {
        if state.in_function {
            stack.push(
                FunctionContext {
                    name: None,
                    start_line: state.fn_start_line,
                    cc: state.fn_cc,
                    cognitive: state.fn_cognitive,
                    max_depth: state.fn_max_depth,
                    depth_at_start: state.fn_depth_at_start,
                    fingerprint: state.fingerprint_hash,
                },
            );
        }
        state.start_function(v.start_byte, v.start_line);
        state.update_fingerprint(hash_kind("function"));
    }
}

fn handle_block_entry(spec: &LanguageSpec, state: &mut WalkState, v: &NodeVisit) -> (ok: bool)
    ensures
        ok == entry_block(*spec, run_of(*old(state), Seq::empty(), Seq::empty()), *v) is Some,
        ok ==> run_of(*final(state), Seq::empty(), Seq::empty()) == entry_block(*spec, run_of(*old(state), Seq::empty(), Seq::empty()), *v)->0,
{
    if spec.is_block(v.kind.as_str()) {
        if state.depth == u32::MAX || (state.in_function && state.depth + 1 < state.fn_depth_at_start) {
            return false;
        }
        state.enter_block();
        if state.in_function {
            state.update_fingerprint(hash_kind("block"));
        }
    }
    true
}

fn update_cognitive_for_branch(state: &mut WalkState, bk: BranchKind) -> (ok: bool)
    ensures
        ok == cognitive_for_branch(*old(state), bk) is Some,
        ok ==> *final(state) == cognitive_for_branch(*old(state), bk)->0,
{
    match bk {
        BranchKind::Conditional | BranchKind::Loop | BranchKind::Switch | BranchKind::Exception => {
            let penalty = bk.adds_nesting_penalty();
            let inc: u64 = 1 + state.cognitive_nesting as u64;
            if state.cognitive as u64 + inc > u32::MAX as u64 || (state.in_function
                && state.fn_cognitive as u64 + inc > u32::MAX as u64) {
                return false;
            }
            state.record_cognitive(penalty);
            if state.cognitive_nesting == u32::MAX {
                return false;
            }
            state.enter_cognitive_nesting();
            true
        },
        BranchKind::SwitchCase | BranchKind::Else => {
            if state.cognitive == u32::MAX || (state.in_function && state.fn_cognitive == u32::MAX) {
                return false;
            }
            state.record_cognitive(false);
            if matches!(bk, BranchKind::Else) {
                if state.cognitive_nesting == u32::MAX {
                    return false;
                }
                state.enter_cognitive_nesting();
            }
            true
        },
        BranchKind::BooleanAnd | BranchKind::BooleanOr => {
            let is_and = matches!(bk, BranchKind::BooleanAnd);
            if state.record_bool_op(is_and) {
                if state.cognitive == u32::MAX || (state.in_function && state.fn_cognitive
                    == u32::MAX) {
                    return false;
                }
                state.record_cognitive(false);
            }
            true
        },
    }
}

fn handle_branch_entry(spec: &LanguageSpec, state: &mut WalkState, v: &NodeVisit) -> (ok: bool)
    ensures
        ok == entry_branch(*spec, run_of(*old(state), Seq::empty(), Seq::empty()), *v) is Some,
        ok ==> run_of(*final(state), Seq::empty(), Seq::empty()) == entry_branch(*spec, run_of(*old(state), Seq::empty(), Seq::empty()), *v)->0,
{
    let kind = v.kind.as_str();
    if spec.is_branch(kind) {
        let bk = spec.classify_branch(kind);
        if bk.adds_cc() {
            if state.cc == u32::MAX || (state.in_function && state.fn_cc == u32::MAX) {
                return false;
            }
            state.record_branch();
        }
        if !update_cognitive_for_branch(state, bk) {
            return false;
        }
        if state.in_function {
            state.update_fingerprint(hash_kind(kind));
        }
    }
    true
}

fn handle_counts_and_tail(spec: &LanguageSpec, state: &mut WalkState, v: &NodeVisit) -> (ok: bool)
    ensures
        ok == entry_counts(*spec, run_of(*old(state), Seq::empty(), Seq::empty()), *v) is Some,
        ok ==> run_of(*final(state), Seq::empty(), Seq::empty()) == entry_tail(*spec, entry_counts(*spec, run_of(*old(state), Seq::empty(), Seq::empty()), *v)->0, *v),
{
    let kind = v.kind.as_str();
    let imp = spec.is_import(kind);
    let exp = spec.is_export(kind);
    if (imp && state.imports == u32::MAX) || (exp && state.exports == u32::MAX) {
        return false;
    }
    if imp {
        state.imports += 1;
    }
    if exp {
        state.exports += 1;
    }
    if !spec.is_boolean_and(kind) && !spec.is_boolean_or(kind) {
        state.reset_bool_chain();
    }
    if state.in_function && is_identifier_or_literal(kind) {
        match &v.text {
            Some(t) => state.update_fingerprint(hash_content(t.as_str())),
            None => {},
        }
    }
    true
}

fn process_entry(spec: &LanguageSpec, state: &mut WalkState, stack: &mut Vec<FunctionContext>, functions: &Vec<FunctionData>, v: &NodeVisit) -> (ok: bool)
    ensures
        ok == spec_entry(*spec, run_of(*old(state), old(stack)@, functions@), *v) is Some,
        ok ==> run_of(*final(state), final(stack)@, functions@) == spec_entry(*spec, run_of(*old(state), old(stack)@, functions@), *v)->0,
{
    handle_function_entry(spec, state, stack, v);
    if !handle_block_entry(spec, state, v) {
        return false;
    }
    if !handle_branch_entry(spec, state, v) {
        return false;
    }
    handle_counts_and_tail(spec, state, v)
}

fn process_exit(spec: &LanguageSpec, state: &mut WalkState, stack: &mut Vec<FunctionContext>, functions: &mut Vec<FunctionData>, v: &NodeVisit) -> (ok: bool)
    ensures
        ok == spec_exit(*spec, run_of(*old(state), old(stack)@, old(functions)@), *v) is Some,
        ok ==> run_of(*final(state), final(stack)@, final(functions)@) == spec_exit(*spec, run_of(*old(state), old(stack)@, old(functions)@), *v)->0,
{
    let kind = v.kind.as_str();
    if spec.is_block(kind) {
        state.exit_block();
    }
    if spec.is_branch(kind) {
        let bk = spec.classify_branch(kind);
        if bk.increases_nesting() {
            state.exit_cognitive_nesting();
        }
    }
    if spec.is_function(kind) {
        let end_line = v.end_line;
        let start_line = state.fn_start_line;
        if end_line < start_line || end_line - start_line == u32::MAX {
            return false;
        }
        let raw = end_line - start_line + 1;
        let loc = if raw >= 1 { raw } else { 1 };
        let (cc, cognitive, depth, fingerprint) = state.end_function();
        functions.push(
            FunctionData {
                name: v.name.clone(),
                start_line,
                end_line,
                loc,
                cc,
                cognitive,
                depth,
                fingerprint,
            },
        );
        match stack.pop() {
            Some(ctx) => {
                state.in_function = true;
                state.fn_start_line = ctx.start_line;
                state.fn_cc = ctx.cc;
                state.fn_cognitive = ctx.cognitive;
                state.fn_max_depth = ctx.max_depth;
                state.fn_depth_at_start = ctx.depth_at_start;
                state.fingerprint_hash = ctx.fingerprint;
            },
            None => {},
        }
    }
    true
}

/// Runs the metric accumulator over a recorded walk. Returns the final state
/// and the functions in the order in which they end, or `None` when a counter
/// would leave its range.
pub fn walk_visits(spec: &LanguageSpec, visits: &Vec<NodeVisit>, loc: u32) -> (r: Option<(WalkState, Vec<FunctionData>)>)
    ensures
        r is Some <==> spec_walk(*spec, initial_run(loc), visits@) is Some,
        r matches Some((s, f)) ==> s == spec_walk(*spec, initial_run(loc), visits@)->0.state
            && f@ == spec_walk(*spec, initial_run(loc), visits@)->0.functions,
{
    let mut state = WalkState::default();
    state.loc = loc;
    let mut stack: Vec<FunctionContext> = Vec::new();
    let mut functions: Vec<FunctionData> = Vec::new();
    let mut i: usize = 0;
    assert(visits@.take(0) =~= Seq::<NodeVisit>::empty());
    while i < visits.len()
        invariant
            0 <= i <= visits@.len(),
            spec_walk(*spec, initial_run(loc), visits@.take(i as int)) == Some(run_of(state, stack@, functions@)),
        decreases visits@.len() - i,
    {
        let v = &visits[i];
        assert(visits@.take(i + 1).drop_last() =~= visits@.take(i as int));
        let ok = if v.entering {
            process_entry(spec, &mut state, &mut stack, &functions, v)
        } else {
            process_exit(spec, &mut state, &mut stack, &mut functions, v)
        };
        if !ok {
            proof {
                lemma_walk_none_extends(*spec, initial_run(loc), visits@, (i + 1) as int);
            }
            return None;
        }
        i += 1;
    }
    assert(visits@.take(i as int) =~= visits@);
    Some((state, functions))
}

/// Once the walk has failed on a prefix, it fails on every longer prefix.
pub proof fn lemma_walk_none_extends(spec: LanguageSpec, r0: WalkRun, visits: Seq<NodeVisit>, k: int)
    requires
        0 <= k <= visits.len(),
        spec_walk(spec, r0, visits.take(k)) is None,
    ensures
        spec_walk(spec, r0, visits) is None,
    decreases visits.len() - k,
{
    if k < visits.len() {
        assert(visits.take(k + 1).drop_last() =~= visits.take(k));
        lemma_walk_none_extends(spec, r0, visits, k + 1);
    } else {
        assert(visits.take(k) =~= visits);
    }
}


// ---------------------------------------------------------------------------
// Within-file duplicates and the file summary.
// ---------------------------------------------------------------------------

pub open spec fn fingerprints(fs: Seq<FunctionData>) -> Seq<u64> {
    fs.map_values(|f: FunctionData| f.fingerprint)
}

/// The number of entries that repeat an earlier entry.
pub open spec fn repeat_count(s: Seq<u64>) -> nat
    decreases s.len(),
{
    if s.len() == 0 {
        0
    } else {
        repeat_count(s.drop_last()) + if s.drop_last().contains(s.last()) { 1nat } else { 0nat }
    }
}

pub proof fn lemma_repeat_count_le(s: Seq<u64>)
    ensures
        repeat_count(s) <= s.len(),
    decreases s.len(),
{
    if s.len() > 0 {
        lemma_repeat_count_le(s.drop_last());
    }
}

/// Count duplicates within a single file: functions with the same
/// fingerprint, where N copies count as N-1 duplicates.
pub fn count_within_file_duplicates(functions: &[FunctionData]) -> (r: u32)
    requires
        functions@.len() <= u32::MAX,
    ensures
        r == (if functions@.len() < 2 { 0 } else { repeat_count(fingerprints(functions@)) }),
{
    if functions.len() < 2 {
        return 0;
    }
    let ghost fps = fingerprints(functions@);
    let mut seen: HashSet<u64> = HashSet::new();
    let mut count: u32 = 0;
    let mut i: usize = 0;
    while i < functions.len()
        invariant
            0 <= i <= functions@.len(),
            functions@.len() <= u32::MAX,
            fps == fingerprints(functions@),
            seen@ == fps.take(i as int).to_set(),
            count == repeat_count(fps.take(i as int)),
            count <= i,
        decreases functions@.len() - i,
    {
        let fp = functions[i].fingerprint;
        let ghost pre = fps.take(i as int);
        assert(fps.take(i + 1).drop_last() =~= pre);
        assert(fps.take(i + 1).last() == fp);
        if seen.contains(&fp) {
            count += 1;
        } else {
            seen.insert(fp);
        }
        let ghost cur = fps.take(i + 1);
        assert(cur =~= pre.push(fp));
        assert(seen@ =~= cur.to_set()) by {
            assert forall|x: u64| #[trigger] seen@.contains(x) <==> cur.contains(x) by {
                if cur.contains(x) {
                    let k = choose|k: int| 0 <= k < cur.len() && cur[k] == x;
                    if k < pre.len() {
                        assert(pre[k] == x);
                    }
                }
                if pre.contains(x) {
                    let k = choose|k: int| 0 <= k < pre.len() && pre[k] == x;
                    assert(cur[k] == x);
                }
            }
        }
        i += 1;
    }
    assert(fps.take(i as int) =~= fps);
    count
}

pub open spec fn ccs(f: Seq<FunctionData>) -> Seq<u32> {
    f.map_values(|x: FunctionData| x.cc)
}

pub open spec fn cognitives(f: Seq<FunctionData>) -> Seq<u32> {
    f.map_values(|x: FunctionData| x.cognitive)
}

pub open spec fn locs(f: Seq<FunctionData>) -> Seq<u32> {
    f.map_values(|x: FunctionData| x.loc)
}

/// Whether the file totals of a walk fit their counters.
pub open spec fn summary_fits(f: Seq<FunctionData>) -> bool {
    &&& f.len() <= u32::MAX
    &&& seq_sum(ccs(f)) <= u32::MAX
    &&& seq_sum(cognitives(f)) <= u32::MAX
    &&& seq_sum(locs(f)) <= u32::MAX
}

/// The file totals of a finished walk: without functions the file-level
/// counters stand (with a complexity of at least 1), otherwise the maxima and
/// sums over the functions (with a complexity sum of at least 1).
pub open spec fn summary_of(fs: FileStructure, path: Seq<char>, s: WalkState, f: Seq<FunctionData>) -> bool {
    &&& fs.path@ == path
    &&& fs.loc == s.loc
    &&& fs.cc_max == (if f.len() == 0 { max_u32(s.cc, 1) } else { seq_max(ccs(f)) })
    &&& fs.cc_sum == (if f.len() == 0 { max_u32(s.cc, 1) } else { max_u32(seq_sum(ccs(f)) as u32, 1) })
    &&& fs.cognitive_max == (if f.len() == 0 { s.cognitive } else { seq_max(cognitives(f)) })
    &&& fs.cognitive_sum == (if f.len() == 0 { s.cognitive } else { seq_sum(cognitives(f)) as u32 })
    &&& fs.depth_max == s.max_depth
    &&& fs.imports == s.imports
    &&& fs.exports == s.exports
    &&& fs.function_count == f.len()
    &&& fs.dup_count == (if f.len() < 2 { 0 } else { repeat_count(fingerprints(f)) })
    &&& fs.fn_loc_sum == seq_sum(locs(f))
    &&& fs.functions@ == f
}

fn sum_and_max(vals: &Vec<u32>) -> (r: Option<(u32, u32)>)
    ensures
        r is Some <==> seq_sum(vals@) <= u32::MAX,
        r matches Some((sum, max)) ==> sum == seq_sum(vals@) && max == seq_max(vals@),
{
    let mut sum: u32 = 0;
    let mut max: u32 = 0;
    let mut i: usize = 0;
    assert(vals@.take(0) =~= Seq::<u32>::empty());
    while i < vals.len()
        invariant
            0 <= i <= vals@.len(),
            sum == seq_sum(vals@.take(i as int)),
            max == seq_max(vals@.take(i as int)),
        decreases vals@.len() - i,
    {
        assert(vals@.take(i + 1).drop_last() =~= vals@.take(i as int));
        let x = vals[i];
        if sum as u64 + x as u64 > u32::MAX as u64 {
            proof {
                lemma_sum_prefix_le(vals@, i + 1);
            }
            return None;
        }
        sum = sum + x;
        if x > max {
            max = x;
        }
        i += 1;
    }
    assert(vals@.take(i as int) =~= vals@);
    Some((sum, max))
}

/// The sum of a prefix is at most the sum of the whole.
pub proof fn lemma_sum_prefix_le(s: Seq<u32>, k: int)
    requires
        0 <= k <= s.len(),
    ensures
        seq_sum(s.take(k)) <= seq_sum(s),
    decreases s.len() - k,
{
    if k < s.len() {
        assert(s.take(k + 1).drop_last() =~= s.take(k));
        lemma_sum_prefix_le(s, k + 1);
    } else {
        assert(s.take(k) =~= s);
    }
}

fn field_values(functions: &Vec<FunctionData>, which: u8) -> (r: Vec<u32>)
    ensures
        which == 0 ==> r@ == ccs(functions@),
        which == 1 ==> r@ == cognitives(functions@),
        which == 2 ==> r@ == locs(functions@),
{
    let mut out: Vec<u32> = Vec::new();
    let mut i: usize = 0;
    while i < functions.len()
        invariant
            0 <= i <= functions@.len(),
            out@.len() == i,
            forall|j: int| 0 <= j < i ==> out@[j] == (if which == 0 { functions@[j].cc } else if which == 1 { functions@[j].cognitive } else { functions@[j].loc }),
        decreases functions@.len() - i,
    {
        let f = &functions[i];
        out.push(if which == 0 { f.cc } else if which == 1 { f.cognitive } else { f.loc });
        i += 1;
    }
    proof {
        if which == 0 { assert(out@ =~= ccs(functions@)); }
        if which == 1 { assert(out@ =~= cognitives(functions@)); }
        if which == 2 { assert(out@ =~= locs(functions@)); }
    }
    out
}

/// Computes the file totals of a finished walk; `None` when a total would
/// leave its counter's range.
pub fn summarize(path: String, state: &WalkState, functions: Vec<FunctionData>) -> (r: Option<FileStructure>)
    ensures
        r is Some <==> summary_fits(functions@),
        r matches Some(fs) ==> summary_of(fs, path@, *state, functions@),
{
    if functions.len() > u32::MAX as usize {
        return None;
    }
    let cc_vals = field_values(&functions, 0);
    let cog_vals = field_values(&functions, 1);
    let loc_vals = field_values(&functions, 2);
    let (cc_sum_raw, cc_max_raw) = match sum_and_max(&cc_vals) {
        Some(p) => p,
        None => return None,
    };
    let (cog_sum, cog_max) = match sum_and_max(&cog_vals) {
        Some(p) => p,
        None => return None,
    };
    let (loc_sum, _loc_max) = match sum_and_max(&loc_vals) {
        Some(p) => p,
        None => return None,
    };
    let n = functions.len();
    let (cc_max, cc_sum, cognitive_max, cognitive_sum) = if n == 0 {
        let c = if state.cc >= 1 { state.cc } else { 1 };
        (c, c, state.cognitive, state.cognitive)
    } else {
        (cc_max_raw, if cc_sum_raw >= 1 { cc_sum_raw } else { 1 }, cog_max, cog_sum)
    };
    let dup_count = count_within_file_duplicates(functions.as_slice());
    Some(
        FileStructure {
            path,
            loc: state.loc,
            cc_max,
            cc_sum,
            cognitive_max,
            cognitive_sum,
            depth_max: state.max_depth,
            imports: state.imports,
            exports: state.exports,
            function_count: n as u32,
            dup_count,
            fn_loc_sum: loc_sum,
            functions,
        },
    )
}

/// Runs the metric accumulator over a recorded walk and totals the file.
pub fn analyze_visits(spec: &LanguageSpec, path: String, visits: &Vec<NodeVisit>, loc: u32) -> (r: Result<FileStructure, WalkError>)
    ensures
        r is Ok <==> (spec_walk(*spec, initial_run(loc), visits@) matches Some(run) && summary_fits(run.functions)),
        r matches Ok(fs) ==> summary_of(fs, path@, spec_walk(*spec, initial_run(loc), visits@)->0.state, spec_walk(*spec, initial_run(loc), visits@)->0.functions),
        r matches Err(e) ==> e is MetricOverflow,
{
    match walk_visits(spec, visits, loc) {
        None => Err(WalkError::MetricOverflow(crate::text::owned("counter out of range"))),
        Some((state, functions)) => match summarize(path, &state, functions) {
            None => Err(WalkError::MetricOverflow(crate::text::owned("total out of range"))),
            Some(fs) => Ok(fs),
        },
    }
}


// ---------------------------------------------------------------------------
// Walking a parsed tree.
// ---------------------------------------------------------------------------

/// Leaves, innermost first, every open node whose depth is at least `d`:
/// each left node is recorded as a step `(false, index)`.
pub open spec fn close_to(nodes: Seq<SyntaxNodeView>, steps: Seq<(bool, usize)>, stack: Seq<usize>, d: u32) -> (Seq<(bool, usize)>, Seq<usize>)
    decreases stack.len(),
{
    if stack.len() > 0 && nodes[stack.last() as int].depth >= d {
        close_to(nodes, steps.push((false, stack.last())), stack.drop_last(), d)
    } else {
        (steps, stack)
    }
}

/// The steps of a pre-order walk over the first `k` nodes, and the nodes
/// still open: before a node is entered, the open nodes at its depth or
/// deeper are left.
pub open spec fn steps_upto(nodes: Seq<SyntaxNodeView>, k: int) -> (Seq<(bool, usize)>, Seq<usize>)
    decreases k,
{
    if k <= 0 {
        (Seq::empty(), Seq::empty())
    } else {
        let p = steps_upto(nodes, k - 1);
        let c = close_to(nodes, p.0, p.1, nodes[k - 1].depth);
        (c.0.push((true, (k - 1) as usize)), c.1.push((k - 1) as usize))
    }
}

/// The steps of a walk of a tree given in pre-order with depths: each node
/// entered (`true`) and left (`false`), a node left after all its
/// descendants and before its next sibling is entered.
pub open spec fn walk_steps_of(nodes: Seq<SyntaxNodeView>) -> Seq<(bool, usize)> {
    let p = steps_upto(nodes, nodes.len() as int);
    close_to(nodes, p.0, p.1, 0).0
}

proof fn lemma_close_to_bounds(nodes: Seq<SyntaxNodeView>, steps: Seq<(bool, usize)>, stack: Seq<usize>, d: u32, n: int)
    requires
        forall|q: int| 0 <= q < steps.len() ==> (#[trigger] steps[q]).1 < n,
        forall|q: int| 0 <= q < stack.len() ==> (#[trigger] stack[q]) < n,
    ensures
        forall|q: int| 0 <= q < close_to(nodes, steps, stack, d).0.len() ==> (#[trigger] close_to(nodes, steps, stack, d).0[q]).1 < n,
        forall|q: int| 0 <= q < close_to(nodes, steps, stack, d).1.len() ==> (#[trigger] close_to(nodes, steps, stack, d).1[q]) < n,
        close_to(nodes, steps, stack, d).1.len() <= stack.len(),
    decreases stack.len(),
{
    if stack.len() > 0 && nodes[stack.last() as int].depth >= d {
        let s2 = steps.push((false, stack.last()));
        assert forall|q: int| 0 <= q < s2.len() implies (#[trigger] s2[q]).1 < n by {
            if q < steps.len() {
                assert(s2[q] == steps[q]);
            }
        }
        lemma_close_to_bounds(nodes, s2, stack.drop_last(), d, n);
    }
}

proof fn lemma_steps_bounds(nodes: Seq<SyntaxNodeView>, k: int)
    requires
        0 <= k <= nodes.len(),
    ensures
        forall|q: int| 0 <= q < steps_upto(nodes, k).0.len() ==> (#[trigger] steps_upto(nodes, k).0[q]).1 < k,
        forall|q: int| 0 <= q < steps_upto(nodes, k).1.len() ==> (#[trigger] steps_upto(nodes, k).1[q]) < k,
        steps_upto(nodes, k).1.len() <= k,
    decreases k,
{
    if k > 0 {
        lemma_steps_bounds(nodes, k - 1);
        let p = steps_upto(nodes, k - 1);
        lemma_close_to_bounds(nodes, p.0, p.1, nodes[k - 1].depth, k);
        let c = close_to(nodes, p.0, p.1, nodes[k - 1].depth);
        assert forall|q: int| 0 <= q < c.0.push((true, (k - 1) as usize)).len() implies (#[trigger] c.0.push((true, (k - 1) as usize))[q]).1 < k by {
            if q < c.0.len() {
                assert(c.0.push((true, (k - 1) as usize))[q] == c.0[q]);
            }
        }
        assert forall|q: int| 0 <= q < c.1.push((k - 1) as usize).len() implies (#[trigger] c.1.push((k - 1) as usize)[q]) < k by {
            if q < c.1.len() {
                assert(c.1.push((k - 1) as usize)[q] == c.1[q]);
            }
        }
    }
}

/// Leave the open nodes at depth `d` or deeper.
fn close_open(nodes: &Vec<SyntaxNode>, steps: &mut Vec<(bool, usize)>, stack: &mut Vec<usize>, d: u32)
    requires
        forall|q: int| 0 <= q < old(stack)@.len() ==> (#[trigger] old(stack)@[q]) < nodes@.len(),
    ensures
        (final(steps)@, final(stack)@) == close_to(node_views(nodes@), old(steps)@, old(stack)@, d),
{
    let ghost ns = node_views(nodes@);
    while stack.len() > 0 && nodes[stack[stack.len() - 1]].depth >= d
        invariant
            ns == node_views(nodes@),
            forall|q: int| 0 <= q < stack@.len() ==> (#[trigger] stack@[q]) < nodes@.len(),
            close_to(ns, steps@, stack@, d) == close_to(ns, old(steps)@, old(stack)@, d),
        decreases stack@.len(),
    {
        let top = stack[stack.len() - 1];
        proof {
            assert(ns[top as int] == nodes@[top as int]@);
        }
        stack.pop();
        steps.push((false, top));
    }
    proof {
        if stack@.len() > 0 {
            let top = stack@.last();
            assert(ns[top as int] == nodes@[top as int]@);
        }
    }
}

/// The steps of the pre-order walk of a tree given in pre-order with depths.
pub fn walk_steps(nodes: &Vec<SyntaxNode>) -> (r: Vec<(bool, usize)>)
    ensures
        r@ == walk_steps_of(node_views(nodes@)),
        forall|q: int| 0 <= q < r@.len() ==> (#[trigger] r@[q]).1 < nodes@.len(),
{
    let ghost ns = node_views(nodes@);
    let mut steps: Vec<(bool, usize)> = Vec::new();
    let mut stack: Vec<usize> = Vec::new();
    let mut k: usize = 0;
    while k < nodes.len()
        invariant
            ns == node_views(nodes@),
            0 <= k <= nodes@.len(),
            (steps@, stack@) == steps_upto(ns, k as int),
        decreases nodes@.len() - k,
    {
        proof {
            lemma_steps_bounds(ns, k as int);
            assert(forall|q: int| 0 <= q < stack@.len() ==> (#[trigger] stack@[q]) < nodes@.len());
            assert(ns[k as int] == nodes@[k as int]@);
        }
        close_open(nodes, &mut steps, &mut stack, nodes[k].depth);
        steps.push((true, k));
        stack.push(k);
        k += 1;
    }
    proof {
        lemma_steps_bounds(ns, k as int);
    }
    close_open(nodes, &mut steps, &mut stack, 0);
    proof {
        let p = steps_upto(ns, k as int);
        lemma_close_to_bounds(ns, p.0, p.1, 0, k as int);
    }
    steps
}

// ---------------------------------------------------------------------------
// Recording the walk for the metrics.
// ---------------------------------------------------------------------------

/// A visit as a specification value.
pub struct VisitView {
    pub entering: bool,
    pub kind: Seq<char>,
    pub start_byte: u32,
    pub start_line: u32,
    pub end_line: u32,
    pub text: Option<Seq<char>>,
    pub name: Option<Seq<char>>,
}

/// The view of an optional string.
pub open spec fn opt_view(s: Option<String>) -> Option<Seq<char>> {
    match s {
        Some(t) => Some(t@),
        None => None,
    }
}

/// The view of a visit.
pub open spec fn visit_view(v: NodeVisit) -> VisitView {
    VisitView {
        entering: v.entering,
        kind: v.kind@,
        start_byte: v.start_byte,
        start_line: v.start_line,
        end_line: v.end_line,
        text: opt_view(v.text),
        name: opt_view(v.name),
    }
}

/// The views of a sequence of visits.
pub open spec fn visit_views(visits: Seq<NodeVisit>) -> Seq<VisitView> {
    visits.map_values(|v: NodeVisit| visit_view(v))
}

/// A 1-based line number from a 0-based row; `None` past the counter's range.
pub open spec fn spec_line_of(row: usize) -> Option<u32> {
    if row >= u32::MAX { None } else { Some((row + 1) as u32) }
}

/// A 1-based line number from a 0-based row; `None` past the counter's range.
fn line_of(row: usize) -> (r: Option<u32>)
    ensures
        r == spec_line_of(row),
{
    if row >= u32::MAX as usize {
        None
    } else {
        Some(row as u32 + 1)
    }
}

/// The source text of a node: `None` when its byte range lies outside the
/// source, `Some(None)` when its bytes are not UTF-8.
pub open spec fn spec_node_text(n: SyntaxNodeView, source: Seq<u8>) -> Option<Option<Seq<char>>> {
    if n.start_byte > n.end_byte || n.end_byte > source.len() {
        None
    } else if vstd::utf8::valid_utf8(source.subrange(n.start_byte as int, n.end_byte as int)) {
        Some(Some(vstd::utf8::decode_utf8(source.subrange(n.start_byte as int, n.end_byte as int))))
    } else {
        Some(None)
    }
}

/// The source text of a node: `None` when its byte range lies outside the
/// source, `Some(None)` when the bytes are not UTF-8.
pub(crate) fn node_text(node: &SyntaxNode, source: &[u8]) -> (r: Option<Option<String>>)
    ensures
        match r {
            None => spec_node_text(node@, source@) is None,
            Some(None) => spec_node_text(node@, source@) == Some(None::<Seq<char>>),
            Some(Some(t)) => spec_node_text(node@, source@) == Some(Some(t@)),
        },
{
    let start = node.start_byte;
    let end = node.end_byte;
    if start > end || end > source.len() {
        return None;
    }
    let bytes = vstd::slice::slice_subrange(source, start, end);
    match utf8_decode(bytes) {
        Some(s) => Some(Some(crate::text::owned(s))),
        None => Some(None),
    }
}

/// The kinds of child that name a function.
pub open spec fn is_name_kind(kind: Seq<char>) -> bool {
    kind == "identifier"@ || kind == "name"@ || kind == "property_identifier"@
}

/// The function name found among the children of node `k`, scanning from
/// node `j` on: the text of the first child named like an identifier whose
/// text is UTF-8; `None` when such a child's byte range lies outside the
/// source, `Some(None)` when there is none.
pub open spec fn spec_fn_name_from(nodes: Seq<SyntaxNodeView>, k: int, j: int, source: Seq<u8>) -> Option<Option<Seq<char>>>
    decreases nodes.len() - j,
{
    if j < 0 || j >= nodes.len() || nodes[j].depth <= nodes[k].depth {
        Some(None)
    } else if nodes[j].depth == nodes[k].depth + 1 && is_name_kind(nodes[j].kind) {
        match spec_node_text(nodes[j], source) {
            None => None,
            Some(Some(t)) => Some(Some(t)),
            Some(None) => spec_fn_name_from(nodes, k, j + 1, source),
        }
    } else {
        spec_fn_name_from(nodes, k, j + 1, source)
    }
}

/// The text of the first child of node `k` named like an identifier, as a
/// function name: `None` when that child's byte range lies outside the
/// source, `Some(None)` when there is no such child with UTF-8 text.
fn extract_function_name(nodes: &Vec<SyntaxNode>, k: usize, source: &[u8]) -> (r: Option<Option<String>>)
    requires
        k < nodes@.len(),
    ensures
        opt_opt_view(r) == spec_fn_name_from(node_views(nodes@), k as int, k + 1, source@),
{
    let ghost ns = node_views(nodes@);
    let count = nodes.len();
    let mut j: usize = k + 1;
    while j < count && nodes[j].depth > nodes[k].depth
        invariant
            ns == node_views(nodes@),
            count == nodes@.len(),
            k < j <= nodes@.len(),
            spec_fn_name_from(ns, k as int, k + 1, source@) == spec_fn_name_from(ns, k as int, j as int, source@),
        decreases nodes@.len() - j,
    {
        proof {
            assert(ns[j as int] == nodes@[j as int]@ && ns[k as int] == nodes@[k as int]@);
        }
        let n = &nodes[j];
        if n.depth as u64 == nodes[k].depth as u64 + 1
            && (str_eq(n.kind.as_str(), "identifier") || str_eq(n.kind.as_str(), "name") || str_eq(n.kind.as_str(), "property_identifier"))
        {
            match node_text(n, source) {
                None => return None,
                Some(Some(t)) => return Some(Some(t)),
                Some(None) => {},
            }
        }
        j += 1;
    }
    proof {
        if j < nodes@.len() {
            assert(ns[j as int] == nodes@[j as int]@ && ns[k as int] == nodes@[k as int]@);
        }
    }
    Some(None)
}

/// The view of an optional optional string.
pub open spec fn opt_opt_view(r: Option<Option<String>>) -> Option<Option<Seq<char>>> {
    match r {
        None => None,
        Some(None) => Some(None),
        Some(Some(t)) => Some(Some(t@)),
    }
}

/// The visit recorded for one step of the walk: the node's kind, first byte,
/// lines, its text when entered and it is an identifier or literal, its
/// function name when left and it is a function; `None` when a line is out
/// of range or the text or name lies outside the source.
pub open spec fn spec_visit(spec: LanguageSpec, nodes: Seq<SyntaxNodeView>, source: Seq<u8>, step: (bool, usize)) -> Option<VisitView> {
    let n = nodes[step.1 as int];
    let entering = step.0;
    if spec_line_of(n.start_row) is None || spec_line_of(n.end_row) is None {
        None
    } else {
        let text: Option<Option<Seq<char>>> = if entering && spec_is_identifier_or_literal(n.kind) {
            spec_node_text(n, source)
        } else {
            Some(None)
        };
        let name: Option<Option<Seq<char>>> = if !entering && spec.spec_is_function(n.kind) {
            spec_fn_name_from(nodes, step.1 as int, step.1 + 1, source)
        } else {
            Some(None)
        };
        match (text, name) {
            (Some(t), Some(m)) => Some(VisitView {
                entering,
                kind: n.kind,
                start_byte: n.start_byte as u32,
                start_line: spec_line_of(n.start_row)->0,
                end_line: spec_line_of(n.end_row)->0,
                text: t,
                name: m,
            }),
            _ => None,
        }
    }
}

/// The visits of the first `k` steps, or `None` when one of them fails.
pub open spec fn spec_visits_upto(spec: LanguageSpec, nodes: Seq<SyntaxNodeView>, source: Seq<u8>, steps: Seq<(bool, usize)>, k: int) -> Option<Seq<VisitView>>
    decreases k,
{
    if k <= 0 {
        Some(Seq::empty())
    } else {
        match spec_visits_upto(spec, nodes, source, steps, k - 1) {
            Some(vs) => match spec_visit(spec, nodes, source, steps[k - 1]) {
                Some(v) => Some(vs.push(v)),
                None => None,
            },
            None => None,
        }
    }
}

/// The visits of the walk of a tree, or `None` when one of them fails.
pub open spec fn spec_visits(spec: LanguageSpec, nodes: Seq<SyntaxNodeView>, source: Seq<u8>) -> Option<Seq<VisitView>> {
    spec_visits_upto(spec, nodes, source, walk_steps_of(nodes), walk_steps_of(nodes).len() as int)
}

proof fn lemma_visits_none_extends(spec: LanguageSpec, nodes: Seq<SyntaxNodeView>, source: Seq<u8>, steps: Seq<(bool, usize)>, k: int)
    requires
        0 <= k <= steps.len(),
        spec_visits_upto(spec, nodes, source, steps, k) is None,
    ensures
        spec_visits_upto(spec, nodes, source, steps, steps.len() as int) is None,
    decreases steps.len() - k,
{
    if k < steps.len() {
        lemma_visits_none_extends(spec, nodes, source, steps, k + 1);
    }
}

/// Record one step of the walk.
fn visit(spec: &LanguageSpec, nodes: &Vec<SyntaxNode>, source: &[u8], step: (bool, usize)) -> (r: Option<NodeVisit>)
    requires
        step.1 < nodes@.len(),
    ensures
        match r {
            Some(v) => spec_visit(*spec, node_views(nodes@), source@, step) == Some(visit_view(v)),
            None => spec_visit(*spec, node_views(nodes@), source@, step) is None,
        },
{
    let ghost ns = node_views(nodes@);
    let n = &nodes[step.1];
    assert(ns[step.1 as int] == n@);
    let start_line = match line_of(n.start_row) {
        Some(l) => l,
        None => return None,
    };
    let end_line = match line_of(n.end_row) {
        Some(l) => l,
        None => return None,
    };
    let text = if step.0 && is_identifier_or_literal(n.kind.as_str()) {
        match node_text(n, source) {
            Some(t) => t,
            None => return None,
        }
    } else {
        None
    };
    let name = if !step.0 && spec.is_function(n.kind.as_str()) {
        match extract_function_name(nodes, step.1, source) {
            Some(m) => m,
            None => return None,
        }
    } else {
        None
    };
    let v = NodeVisit { entering: step.0, kind: n.kind.clone(), start_byte: n.start_byte as u32, start_line, end_line, text, name };
    proof {
        assert(v.kind@ == n.kind@);
    }
    Some(v)
}

/// Records, in pre-order, each node of a tree entered and left: `None` when
/// a node's line is out of range or its text or name lies outside the
/// source.
pub fn collect_visits(spec: &LanguageSpec, nodes: &Vec<SyntaxNode>, source: &[u8]) -> (r: Option<Vec<NodeVisit>>)
    ensures
        match r {
            Some(v) => spec_visits(*spec, node_views(nodes@), source@) == Some(visit_views(v@)),
            None => spec_visits(*spec, node_views(nodes@), source@) is None,
        },
{
    let ghost ns = node_views(nodes@);
    let steps = walk_steps(nodes);
    let mut visits: Vec<NodeVisit> = Vec::new();
    let mut i: usize = 0;
    while i < steps.len()
        invariant
            ns == node_views(nodes@),
            steps@ == walk_steps_of(ns),
            forall|q: int| 0 <= q < steps@.len() ==> (#[trigger] steps@[q]).1 < nodes@.len(),
            0 <= i <= steps@.len(),
            spec_visits_upto(*spec, ns, source@, steps@, i as int) == Some(visit_views(visits@)),
        decreases steps@.len() - i,
    {
        let step = steps[i];
        let ghost before = visits@;
        match visit(spec, nodes, source, step) {
            Some(v) => {
                visits.push(v);
                proof {
                    assert(visit_views(visits@) =~= visit_views(before).push(visit_view(v)));
                }
            },
            None => {
                proof {
                    lemma_visits_none_extends(*spec, ns, source@, steps@, i + 1);
                }
                return None;
            },
        }
        i += 1;
    }
    Some(visits)
}

/// Single-pass syntax walker for one language.
pub struct Walker {
    language: Language,
    spec: LanguageSpec,
}

impl Walker {
    pub closed spec fn spec_language(&self) -> Language {
        self.language
    }

    pub closed spec fn spec_language_spec(&self) -> LanguageSpec {
        self.spec
    }

    /// Create a new walker for the given language; every bundled grammar is
    /// accepted, so this always succeeds.
    pub fn new(language: Language) -> (r: Result<Self, WalkError>)
        ensures
            r matches Ok(w) && w.spec_language() == language && w.spec_language_spec() == crate::lang::spec_language_spec(language),
    {
        Ok(Walker { language, spec: language.spec() })
    }

    /// Analyze a file: parse it, record the walk of its tree, and run the
    /// metric accumulator over that walk ([`analyze_visits`]). The line count
    /// is the number of newline bytes. An error when a node's line is out of
    /// range or its text lies outside the source, or when a metric would
    /// leave its counter.
    pub fn analyze(&mut self, path: String, source: &[u8]) -> (r: Result<FileStructure, WalkError>)
        ensures
            *final(self) == *old(self),
            spec_visits(old(self).spec_language_spec(), spec_syntax_nodes(old(self).spec_language(), source@), source@) is None
                <==> r matches Err(WalkError::ParseFailed(_)),
            spec_visits(old(self).spec_language_spec(), spec_syntax_nodes(old(self).spec_language(), source@), source@) matches Some(vs)
                ==> exists|visits: Seq<NodeVisit>| #[trigger] visit_views(visits) == vs && analyzed(old(self).spec_language_spec(), path@, newline_count(source@) as u32, visits, r),
    {
        let nodes = syntax_nodes(self.language, source);
        let loc = count_lines(source);
        let visits = match collect_visits(&self.spec, &nodes, source) {
            Some(v) => v,
            None => return Err(WalkError::ParseFailed(crate::text::owned("Failed to walk the syntax tree"))),
        };
        let r = analyze_visits(&self.spec, path, &visits, loc);
        assert(visit_views(visits@) == visit_views(visits@));
        r
    }
}

/// `r` is the analysis of a walk's visits ([`analyze_visits`]).
pub open spec fn analyzed(spec: LanguageSpec, path: Seq<char>, loc: u32, visits: Seq<NodeVisit>, r: Result<FileStructure, WalkError>) -> bool {
    &&& r is Ok <==> (spec_walk(spec, initial_run(loc), visits) matches Some(run) && summary_fits(run.functions))
    &&& r matches Ok(fs) ==> summary_of(fs, path, spec_walk(spec, initial_run(loc), visits)->0.state, spec_walk(spec, initial_run(loc), visits)->0.functions)
    &&& r matches Err(e) ==> e is MetricOverflow
}

} // verus!