//! The `SourceCode` aggregate: the root entity of the structural analysis.
//! It holds the source text, its language, the stream of structural events
//! (always balanced), the per-function metrics extracted from them, and the
//! file metrics once computed.
use vstd::prelude::*;
use crate::data::utf8_bytes;
use crate::domain::events::{EventValidator, StructuralEvent, balanced_stream, depth_step, depths_fit, stream_depths};
use crate::domain::metrics::{DuplicateGroup, DuplicateInstance, FileMetrics, MaintainabilityIndex, NodeMetrics, StructuralFingerprint, spec_node_complex};
use crate::domain::primitives::{BytePos, DomainError, LanguageId, SourceText, Span, spec_language_id};
use crate::domain::rules::{
    AggregationRules, CognitiveComplexityRules, ComplexityRules, DuplicationRules, aggregation_fits, branch_count, lemma_branch_count_bounds,
    cognitive_scan, depth_scan, feed_events, lemma_cognitive_stretch, spec_file_metrics,
};
use crate::text::{clone_name, owned, spec_lower};
use std::collections::hash_map::DefaultHasher;
use vstd::std_specs::hash::DefaultHasherAdditionalSpecFns;

verus! {

broadcast use vstd::seq::Seq::lemma_filter_push;

/// The number of lines of a text, as `str::lines` counts them: the number
/// of characters that begin a line, that is the first one and every one
/// after a line feed.
pub open spec fn lines_in(s: Seq<char>) -> nat
    decreases s.len(),
{
    if s.len() == 0 {
        0
    } else {
        let rest = lines_in(s.drop_last());
        if s.len() == 1 || s[s.len() - 2] == '\n' {
            rest + 1
        } else {
            rest
        }
    }
}

/// Counts the lines of a text as `str::lines` does.
pub fn count_text_lines(s: &str) -> (r: usize)
    requires
        utf8_bytes(s@).len() <= usize::MAX,
    ensures
        r == lines_in(s@),
{
    proof {
        lemma_chars_le_bytes(s@);
    }
    let mut n: usize = 0;
    let mut prev_newline = true;
    let ghost chars = s@;
    for c in it: s.chars()
        invariant
            it.seq() == chars,
            chars == s@,
            n == lines_in(chars.take(it.index() as int)),
            n <= it.index(),
            prev_newline <==> (it.index() == 0 || chars[it.index() - 1] == '\n'),
            it.index() <= chars.len(),
            chars.len() <= usize::MAX,
    {
        let ghost i = it.index() as int;
        assert(chars.take(i + 1).drop_last() =~= chars.take(i));
        assert(chars.take(i + 1).last() == c);
        proof {
            if i > 0 {
                assert(chars.take(i + 1)[i - 1] == chars[i - 1]);
            }
        }
        if prev_newline {
            n += 1;
        }
        prev_newline = c == '\n';
    }
    proof {
        assert(chars.take(chars.len() as int) =~= chars);
    }
    n
}

/// A text has no more characters than bytes.
pub proof fn lemma_chars_le_bytes(s: Seq<char>)
    ensures
        s.len() <= utf8_bytes(s).len(),
    decreases s.len(),
{
    if s.len() > 0 {
        lemma_chars_le_bytes(s.drop_first());
        assert(vstd::utf8::encode_scalar(s[0] as u32).len() >= 1);
    }
}

/// The text of a span: its bytes decoded, or nothing when it ends past the text.
pub open spec fn span_text(text: Seq<char>, span: Span) -> Seq<char> {
    if span@.1 <= utf8_bytes(text).len() {
        vstd::utf8::decode_utf8(utf8_bytes(text).subrange(span@.0 as int, span@.1 as int))
    } else {
        Seq::empty()
    }
}

/// A function found in an event stream: its name and span from its start
/// event, and the indices of its start and end events.
pub type FunctionRange = (Option<String>, Span, usize, usize);

/// The functions of an event stream, in the order of their end events,
/// each end closing the innermost open start, together with the starts that
/// are still open.
pub open spec fn scan_functions(events: Seq<StructuralEvent>) -> (Seq<(Option<String>, Span, usize)>, Seq<FunctionRange>)
    decreases events.len(),
{
    if events.len() == 0 {
        (Seq::empty(), Seq::empty())
    } else {
        let (stack, done) = scan_functions(events.drop_last());
        let idx = (events.len() - 1) as usize;
        match events.last() {
            StructuralEvent::FunctionStart { name, span } => (stack.push((name, span, idx)), done),
            StructuralEvent::FunctionEnd { .. } => if stack.len() == 0 {
                (stack, done)
            } else {
                let top = stack.last();
                (stack.drop_last(), done.push((top.0, top.1, top.2, idx)))
            },
            _ => (stack, done),
        }
    }
}

/// The number as `u32`, at least 1.
pub open spec fn at_least_one(v: u32) -> u32 {
    if v == 0 { 1 } else { v }
}

/// The metrics of one function: lines of its span's text, complexity,
/// cognitive complexity and depth of the events from its start to its end,
/// and their fingerprint.
pub open spec fn node_matches(n: NodeMetrics, events: Seq<StructuralEvent>, text: Seq<char>, f: FunctionRange) -> bool {
    let slice = events.subrange(f.2 as int, f.3 + 1);
    &&& n.name == f.0
    &&& n.span == f.1
    &&& n.loc == at_least_one(lines_in(span_text(text, f.1)) as u32)
    &&& n.cc == 1 + branch_count(slice)
    &&& n.cognitive == at_least_one(cognitive_scan(slice).0 as u32)
    &&& n.depth == depth_scan(slice).0
    &&& n.fingerprint@ == DefaultHasher::spec_finish(feed_events(slice))
}

/// The nodes are the metrics of the functions of the stream, in order.
pub open spec fn nodes_of(nodes: Seq<NodeMetrics>, events: Seq<StructuralEvent>, text: Seq<char>) -> bool {
    let fs = scan_functions(events).1;
    &&& nodes.len() == fs.len()
    &&& forall|k: int| 0 <= k < nodes.len() ==> #[trigger] node_matches(nodes[k], events, text, fs[k])
}

/// The sizes within which extracting function metrics stays within `u32`,
/// and the spans of function starts that lie within the text start and end
/// on character boundaries.
pub open spec fn extraction_fits(events: Seq<StructuralEvent>, text: Seq<char>) -> bool {
    &&& events.len() < u32::MAX
    &&& forall|a: int, b: int| 0 <= a <= b <= events.len() ==> #[trigger] cognitive_scan(events.subrange(a, b)).0 <= u32::MAX
    &&& forall|k: int| 0 <= k < events.len() ==> match #[trigger] events[k] {
        StructuralEvent::FunctionStart { span, .. } => span@.1 <= utf8_bytes(text).len() ==> vstd::utf8::is_char_boundary(utf8_bytes(text), span@.0 as int)
            && vstd::utf8::is_char_boundary(utf8_bytes(text), span@.1 as int),
        _ => true,
    }
}


/// Whether function metrics can be extracted from a stream of events over a
/// text within the sizes that extraction counts in.
pub fn extraction_fits_check(events: &[StructuralEvent], text: &str) -> (r: bool)
    requires
        utf8_bytes(text@).len() <= usize::MAX,
    ensures
        r == extraction_fits(events@, text@),
{
    if events.len() >= u32::MAX as usize {
        return false;
    }
    if !CognitiveComplexityRules::fits_u32(events) {
        proof {
            assert(events@.subrange(0, events@.len() as int) =~= events@);
        }
        return false;
    }
    proof {
        assert forall|a: int, b: int| 0 <= a <= b <= events@.len() implies #[trigger] cognitive_scan(events@.subrange(a, b)).0 <= u32::MAX by {
            lemma_cognitive_stretch(events@, a, b);
        }
    }
    let n = text.len();
    let mut k: usize = 0;
    while k < events.len()
        invariant
            0 <= k <= events@.len(),
            n == utf8_bytes(text@).len(),
            forall|j: int| 0 <= j < k ==> match #[trigger] events@[j] {
                StructuralEvent::FunctionStart { span, .. } => span@.1 <= utf8_bytes(text@).len() ==> vstd::utf8::is_char_boundary(utf8_bytes(text@), span@.0 as int)
                    && vstd::utf8::is_char_boundary(utf8_bytes(text@), span@.1 as int),
                _ => true,
            },
        decreases events@.len() - k,
    {
        match &events[k] {
            StructuralEvent::FunctionStart { span, .. } => {
                let start = span.start().as_usize();
                let end = span.end().as_usize();
                if end <= n && !(text.is_char_boundary(start) && text.is_char_boundary(end)) {
                    assert(events@[k as int] matches StructuralEvent::FunctionStart { span: sp, .. } && sp == *span);
                    return false;
                }
            },
            _ => {},
        }
        k += 1;
    }
    true
}

/// `SourceCode` aggregate root: the primary domain entity.
#[derive(Debug, Clone)]
pub struct SourceCode {
    text: SourceText,
    language: LanguageId,
    events: Vec<StructuralEvent>,
    metrics: Option<FileMetrics>,
    node_metrics: Vec<NodeMetrics>,
}

impl SourceCode {
    pub closed spec fn spec_text(&self) -> Seq<char> {
        self.text@
    }

    pub closed spec fn spec_language(&self) -> LanguageId {
        self.language
    }

    pub closed spec fn spec_events(&self) -> Seq<StructuralEvent> {
        self.events@
    }

    pub closed spec fn spec_metrics(&self) -> Option<FileMetrics> {
        self.metrics
    }

    pub closed spec fn spec_nodes(&self) -> Seq<NodeMetrics> {
        self.node_metrics@
    }

    /// The aggregate's invariant: its event stream is balanced, and its
    /// function metrics are none or those of its events.
    pub open spec fn wf(&self) -> bool {
        &&& balanced_stream(self.spec_events())
        &&& self.spec_nodes().len() == 0 || nodes_of(self.spec_nodes(), self.spec_events(), self.spec_text())
    }

    /// The stored file metrics are those of the current events, functions
    /// and text, with the stored maintainability index.
    pub open spec fn consistent(&self) -> bool {
        match self.spec_metrics() {
            Some(m) => m == spec_file_metrics(self.spec_events(), self.spec_nodes(), lines_in(self.spec_text()) as u32, m.mi),
            None => true,
        }
    }

    /// A source file in a named language, with no events yet; an error when
    /// the language is not supported.
    pub fn new(text: String, language: &str) -> (r: Result<Self, DomainError>)
        ensures
            spec_language_id(spec_lower(language@)) matches Some(l) ==> (r matches Ok(s)
                && s.spec_text() == text@ && s.spec_language() == l && s.spec_events().len() == 0
                && s.spec_metrics() is None && s.spec_nodes().len() == 0 && s.wf()),
            spec_language_id(spec_lower(language@)) is None ==> (r matches Err(DomainError::UnsupportedLanguage(m)) && m@ == language@),
    {
        let source_text = match SourceText::new(text) {
            Ok(t) => t,
            Err(e) => return Err(e),
        };
        let lang_id = match LanguageId::from_str(language) {
            Ok(l) => l,
            Err(e) => return Err(e),
        };
        let r = SourceCode {
            text: source_text,
            language: lang_id,
            events: Vec::new(),
            metrics: None,
            node_metrics: Vec::new(),
        };
        proof {
            assert(r.spec_events() =~= Seq::<StructuralEvent>::empty());
        }
        Ok(r)
    }

    pub fn text(&self) -> (r: &SourceText)
        ensures
            r@ == self.spec_text(),
    {
        &self.text
    }

    pub fn language(&self) -> (r: LanguageId)
        ensures
            r == self.spec_language(),
    {
        self.language
    }

    pub fn events(&self) -> (r: &[StructuralEvent])
        ensures
            r@ == self.spec_events(),
    {
        self.events.as_slice()
    }

    pub fn metrics(&self) -> (r: Option<&FileMetrics>)
        ensures
            match r {
                Some(m) => self.spec_metrics() == Some(*m),
                None => self.spec_metrics() is None,
            },
    {
        match &self.metrics {
            Some(m) => Some(m),
            None => None,
        }
    }

    pub fn node_metrics(&self) -> (r: &[NodeMetrics])
        ensures
            r@ == self.spec_nodes(),
    {
        self.node_metrics.as_slice()
    }

    /// Append a stream of events, which must be balanced on its own; on
    /// success the computed metrics are dropped. On an error nothing changes.
    pub fn add_events(&mut self, events: Vec<StructuralEvent>) -> (r: Result<(), DomainError>)
        requires
            old(self).wf(),
            depths_fit(events@),
        ensures
            final(self).wf(),
            balanced_stream(events@) ==> r is Ok && final(self).spec_events() == old(self).spec_events() + events@
                && final(self).spec_metrics() is None && final(self).spec_nodes().len() == 0
                && final(self).spec_text() == old(self).spec_text() && final(self).spec_language() == old(self).spec_language(),
            !balanced_stream(events@) ==> *final(self) == *old(self),
            stream_depths(events@) is None ==> (r matches Err(DomainError::InvalidSpan(m))
                && (m@ == "unbalanced block exit"@ || m@ == "unbalanced function exit"@)),
            stream_depths(events@) matches Some(d) && d != (0int, 0int) ==> (r matches Err(DomainError::InvalidSpan(m)) && m@ == "unbalanced event stream"@),
    {
        let mut validator = EventValidator::new();
        let mut i: usize = 0;
        while i < events.len()
            invariant
                0 <= i <= events@.len(),
                depths_fit(events@),
                stream_depths(events@.take(i as int)) == Some(validator@),
                *self == *old(self),
                old(self).wf(),
            decreases events@.len() - i,
        {
            assert(events@.take(i + 1).drop_last() =~= events@.take(i as int));
            assert(events@.take(i + 1).last() == events@[i as int]);
            assert(match stream_depths(events@.take(i + 1)) {
                Some(d) => d.0 <= u32::MAX && d.1 <= u32::MAX,
                None => true,
            });
            match validator.validate(&events[i]) {
                Ok(()) => {},
                Err(e) => {
                    proof {
                        lemma_none_extends(events@, i + 1);
                    }
                    return Err(e);
                },
            }
            i += 1;
        }
        assert(events@.take(i as int) =~= events@);
        if !validator.is_balanced() {
            return Err(DomainError::InvalidSpan(owned("unbalanced event stream")));
        }
        let ghost before = self.events@;
        let ghost added = events@;
        let mut events = events;
        self.events.append(&mut events);
        self.invalidate_metrics();
        proof {
            assert(self.events@ =~= before + added);
            lemma_balanced_concat(before, added);
        }
        Ok(())
    }

    /// The file metrics, computed on first use with the given
    /// maintainability index and kept until the events change.
    pub fn compute_metrics(&mut self, mi: MaintainabilityIndex) -> (r: Result<FileMetrics, DomainError>)
        requires
            old(self).wf(),
            aggregation_fits(old(self).spec_events(), old(self).spec_nodes()),
            utf8_bytes(old(self).spec_text()).len() <= usize::MAX,
        ensures
            final(self).wf(),
            final(self).spec_events() == old(self).spec_events(),
            final(self).spec_nodes() == old(self).spec_nodes(),
            final(self).spec_text() == old(self).spec_text(),
            final(self).spec_language() == old(self).spec_language(),
            r == Ok::<FileMetrics, DomainError>(metrics_after(*old(self), mi)),
            final(self).spec_metrics() == Some(metrics_after(*old(self), mi)),
            old(self).spec_metrics() is None ==> final(self).consistent(),
    {
        match self.metrics {
            Some(m) => Ok(m),
            None => {
                let actual_loc = count_text_lines(self.text.as_str()) as u32;
                let file_metrics = match AggregationRules::compute_file_metrics(self.events.as_slice(), self.node_metrics.as_slice(), actual_loc, mi) {
                    Ok(m) => m,
                    Err(e) => return Err(e),
                };
                self.metrics = Some(file_metrics);
                Ok(file_metrics)
            },
        }
    }

    /// Extract the function metrics when there are none yet and there are
    /// events; they stay until the events change.
    pub fn compute_node_metrics(&mut self) -> (r: Result<&[NodeMetrics], DomainError>)
        requires
            old(self).wf(),
            extraction_fits(old(self).spec_events(), old(self).spec_text()),
            utf8_bytes(old(self).spec_text()).len() <= usize::MAX,
        ensures
            final(self).wf(),
            final(self).spec_events() == old(self).spec_events(),
            final(self).spec_text() == old(self).spec_text(),
            final(self).spec_language() == old(self).spec_language(),
            final(self).spec_metrics() == old(self).spec_metrics(),
            old(self).spec_nodes().len() == 0 && old(self).spec_events().len() > 0 ==> nodes_of(final(self).spec_nodes(), old(self).spec_events(), old(self).spec_text()),
            !(old(self).spec_nodes().len() == 0 && old(self).spec_events().len() > 0) ==> final(self).spec_nodes() == old(self).spec_nodes(),
            r matches Ok(ns) && ns@ == final(self).spec_nodes(),
    {
        if self.node_metrics.len() == 0 && self.events.len() > 0 {
            let nodes = self.extract_node_metrics();
            self.node_metrics = nodes;
        }
        Ok(self.node_metrics.as_slice())
    }

    /// The first function whose span holds a position.
    pub fn analyze_cursor(&self, cursor_pos: BytePos) -> (r: Option<&NodeMetrics>)
        ensures
            match r {
                Some(n) => exists|k: int| 0 <= k < self.spec_nodes().len() && self.spec_nodes()[k] == *n
                    && n.span@.0 <= cursor_pos@ < n.span@.1
                    && forall|j: int| 0 <= j < k ==> !(#[trigger] self.spec_nodes()[j].span@.0 <= cursor_pos@ < self.spec_nodes()[j].span@.1),
                None => forall|j: int| 0 <= j < self.spec_nodes().len() ==> !(#[trigger] self.spec_nodes()[j].span@.0 <= cursor_pos@ < self.spec_nodes()[j].span@.1),
            },
    {
        let mut i: usize = 0;
        while i < self.node_metrics.len()
            invariant
                0 <= i <= self.spec_nodes().len(),
                forall|j: int| 0 <= j < i ==> !(#[trigger] self.spec_nodes()[j].span@.0 <= cursor_pos@ < self.spec_nodes()[j].span@.1),
            decreases self.spec_nodes().len() - i,
        {
            if self.node_metrics[i].contains_position(cursor_pos) {
                return Some(&self.node_metrics[i]);
            }
            i += 1;
        }
        None
    }

    /// Recompute the file metrics, with the stored maintainability index, and
    /// compare them with the stored ones: an error when they differ.
    pub fn validate_consistency(&self) -> (r: Result<(), DomainError>)
        requires
            self.spec_metrics() is Some ==> aggregation_fits(self.spec_events(), self.spec_nodes()),
            utf8_bytes(self.spec_text()).len() <= usize::MAX,
        ensures
            self.consistent() ==> r is Ok,
            !self.consistent() ==> (r matches Err(DomainError::InternalError(m)) && m@ == "metrics inconsistency detected"@),
    {
        match &self.metrics {
            Some(metrics) => {
                let actual_loc = count_text_lines(self.text.as_str()) as u32;
                let computed = match AggregationRules::compute_file_metrics(self.events.as_slice(), self.node_metrics.as_slice(), actual_loc, metrics.mi) {
                    Ok(m) => m,
                    Err(e) => return Err(e),
                };
                if *metrics != computed {
                    return Err(DomainError::InternalError(owned("metrics inconsistency detected")));
                }
                Ok(())
            },
            None => Ok(()),
        }
    }

    /// The functions that are complex.
    pub fn get_complexity_functions(&self) -> (r: Vec<&NodeMetrics>)
        ensures
            r@.unref() == self.spec_nodes().filter(|n: NodeMetrics| spec_node_complex(n)),
    {
        let mut out: Vec<&NodeMetrics> = Vec::new();
        let mut i: usize = 0;
        while i < self.node_metrics.len()
            invariant
                0 <= i <= self.spec_nodes().len(),
                out@.unref() == self.spec_nodes().take(i as int).filter(|n: NodeMetrics| spec_node_complex(n)),
            decreases self.spec_nodes().len() - i,
        {
            assert(self.spec_nodes().take(i + 1) =~= self.spec_nodes().take(i as int).push(self.spec_nodes()[i as int]));
            if self.node_metrics[i].is_complex() {
                out.push(&self.node_metrics[i]);
            }
            assert(out@.unref() =~= self.spec_nodes().take(i + 1).filter(|n: NodeMetrics| spec_node_complex(n)));
            i += 1;
        }
        assert(self.spec_nodes().take(i as int) =~= self.spec_nodes());
        out
    }

    /// The functions of more than 50 lines.
    pub fn get_large_functions(&self) -> (r: Vec<&NodeMetrics>)
        ensures
            r@.unref() == self.spec_nodes().filter(|n: NodeMetrics| n.loc > 50),
    {
        let mut out: Vec<&NodeMetrics> = Vec::new();
        let mut i: usize = 0;
        while i < self.node_metrics.len()
            invariant
                0 <= i <= self.spec_nodes().len(),
                out@.unref() == self.spec_nodes().take(i as int).filter(|n: NodeMetrics| n.loc > 50),
            decreases self.spec_nodes().len() - i,
        {
            assert(self.spec_nodes().take(i + 1) =~= self.spec_nodes().take(i as int).push(self.spec_nodes()[i as int]));
            if self.node_metrics[i].is_large() {
                out.push(&self.node_metrics[i]);
            }
            assert(out@.unref() =~= self.spec_nodes().take(i + 1).filter(|n: NodeMetrics| n.loc > 50));
            i += 1;
        }
        assert(self.spec_nodes().take(i as int) =~= self.spec_nodes());
        out
    }

    /// The functions nested more than three blocks deep.
    pub fn get_deeply_nested_functions(&self) -> (r: Vec<&NodeMetrics>)
        ensures
            r@.unref() == self.spec_nodes().filter(|n: NodeMetrics| n.depth > 3),
    {
        let mut out: Vec<&NodeMetrics> = Vec::new();
        let mut i: usize = 0;
        while i < self.node_metrics.len()
            invariant
                0 <= i <= self.spec_nodes().len(),
                out@.unref() == self.spec_nodes().take(i as int).filter(|n: NodeMetrics| n.depth > 3),
            decreases self.spec_nodes().len() - i,
        {
            assert(self.spec_nodes().take(i + 1) =~= self.spec_nodes().take(i as int).push(self.spec_nodes()[i as int]));
            if self.node_metrics[i].is_deeply_nested() {
                out.push(&self.node_metrics[i]);
            }
            assert(out@.unref() =~= self.spec_nodes().take(i + 1).filter(|n: NodeMetrics| n.depth > 3));
            i += 1;
        }
        assert(self.spec_nodes().take(i as int) =~= self.spec_nodes());
        out
    }

    fn invalidate_metrics(&mut self)
        ensures
            final(self).spec_metrics() is None,
            final(self).spec_nodes().len() == 0,
            final(self).spec_events() == old(self).spec_events(),
            final(self).spec_text() == old(self).spec_text(),
            final(self).spec_language() == old(self).spec_language(),
    {
        self.metrics = None;
        self.node_metrics.clear();
    }

    fn extract_node_metrics(&self) -> (r: Vec<NodeMetrics>)
        requires
            extraction_fits(self.spec_events(), self.spec_text()),
            utf8_bytes(self.spec_text()).len() <= usize::MAX,
        ensures
            nodes_of(r@, self.spec_events(), self.spec_text()),
    {
        let ghost events = self.events@;
        let ghost text = self.text@;
        let mut nodes: Vec<NodeMetrics> = Vec::new();
        let mut stack: Vec<(Option<String>, Span, usize)> = Vec::new();
        let mut idx: usize = 0;
        while idx < self.events.len()
            invariant
                events == self.events@,
                text == self.text@,
                extraction_fits(events, text),
                utf8_bytes(text).len() <= usize::MAX,
                0 <= idx <= events.len(),
                stack@ == scan_functions(events.take(idx as int)).0,
                nodes@.len() == scan_functions(events.take(idx as int)).1.len(),
                forall|k: int| 0 <= k < nodes@.len() ==> #[trigger] node_matches(nodes@[k], events, text, scan_functions(events.take(idx as int)).1[k]),
                forall|k: int| 0 <= k < stack@.len() ==> #[trigger] stack@[k].2 < idx
                    && (events[stack@[k].2 as int] matches StructuralEvent::FunctionStart { span: s, .. } && s == stack@[k].1),
            decreases events.len() - idx,
        {
            let ghost prev = events.take(idx as int);
            let ghost cur = events.take(idx + 1);
            assert(cur.drop_last() =~= prev);
            assert(cur.last() == events[idx as int]);
            match &self.events[idx] {
                StructuralEvent::FunctionStart { name, span } => {
                    stack.push((clone_name(name), *span, idx));
                },
                StructuralEvent::FunctionEnd { .. } => {
                    match stack.pop() {
                        Some((name, span, start_idx)) => {
                            let node = self.function_node(name, span, start_idx, idx);
                            nodes.push(node);
                        },
                        None => {},
                    }
                },
                _ => {},
            }
            idx += 1;
        }
        assert(events.take(idx as int) =~= events);
        nodes
    }

    /// The metrics of the function from event `start_idx` to event `end_idx`.
    fn function_node(&self, name: Option<String>, span: Span, start_idx: usize, end_idx: usize) -> (n: NodeMetrics)
        requires
            extraction_fits(self.spec_events(), self.spec_text()),
            utf8_bytes(self.spec_text()).len() <= usize::MAX,
            start_idx <= end_idx < self.spec_events().len(),
            self.spec_events()[start_idx as int] matches StructuralEvent::FunctionStart { span: s, .. } && s == span,
        ensures
            node_matches(n, self.spec_events(), self.spec_text(), (name, span, start_idx, end_idx)),
    {
        let function_events = vstd::slice::slice_subrange(self.events.as_slice(), start_idx, end_idx + 1);
        let fingerprint = DuplicationRules::compute_fingerprint_from_events(function_events);
        let lines = self.estimate_loc_for_span(span, Ghost(start_idx as int));
        let loc: u32 = if lines == 0 { 1 } else { lines };
        proof {
            lemma_branch_count_bounds(function_events@, 0);
        }
        let cc = ComplexityRules::compute_from_events(function_events);
        let cog = CognitiveComplexityRules::compute_from_events(function_events);
        let cognitive: u32 = if cog == 0 { 1 } else { cog };
        let depth = Self::estimate_depth_for_events(function_events);
        NodeMetrics { name, span, loc, cc, cognitive, depth, fingerprint }
    }

    fn estimate_loc_for_span(&self, span: Span, Ghost(k): Ghost<int>) -> (r: u32)
        requires
            extraction_fits(self.spec_events(), self.spec_text()),
            utf8_bytes(self.spec_text()).len() <= usize::MAX,
            0 <= k < self.spec_events().len(),
            self.spec_events()[k] matches StructuralEvent::FunctionStart { span: s, .. } && s == span,
        ensures
            r == lines_in(span_text(self.spec_text(), span)) as u32,
    {
        assert(match self.spec_events()[k] {
            StructuralEvent::FunctionStart { span, .. } => span@.1 <= utf8_bytes(self.spec_text()).len() ==> vstd::utf8::is_char_boundary(utf8_bytes(self.spec_text()), span@.0 as int)
                && vstd::utf8::is_char_boundary(utf8_bytes(self.spec_text()), span@.1 as int),
            _ => true,
        });
        let piece: &str = match self.text.substring(span) {
            Ok(s) => s,
            Err(_) => "",
        };
        proof {
            if span@.1 <= utf8_bytes(self.spec_text()).len() {
                vstd::utf8::encode_utf8_decode_utf8(piece@);
                use_type_invariant(&span);
                assert(utf8_bytes(piece@).len() <= utf8_bytes(self.spec_text()).len());
            } else {
                reveal_strlit("");
                assert(piece@ =~= Seq::<char>::empty());
                assert(utf8_bytes(piece@) =~= Seq::<u8>::empty());
            }
        }
        count_text_lines(piece) as u32
    }

    fn estimate_depth_for_events(events: &[StructuralEvent]) -> (r: u32)
        requires
            events@.len() <= u32::MAX,
        ensures
            r == depth_scan(events@).0,
    {
        let mut depth: u32 = 0;
        let mut max_depth: u32 = 0;
        let mut i: usize = 0;
        while i < events.len()
            invariant
                0 <= i <= events@.len(),
                events@.len() <= u32::MAX,
                (max_depth as nat, depth as nat) == depth_scan(events@.take(i as int)),
                depth <= i,
                max_depth <= i,
            decreases events@.len() - i,
        {
            assert(events@.take(i + 1).drop_last() =~= events@.take(i as int));
            assert(events@.take(i + 1).last() == events@[i as int]);
            match &events[i] {
                StructuralEvent::BlockEntry { .. } => {
                    depth += 1;
                    if depth > max_depth {
                        max_depth = depth;
                    }
                },
                StructuralEvent::BlockExit { .. } => {
                    if depth > 0 {
                        depth -= 1;
                    }
                },
                _ => {},
            }
            i += 1;
        }
        assert(events@.take(i as int) =~= events@);
        max_depth
    }
}

/// Once a stream closes what is not open, every longer stream does.
proof fn lemma_none_extends(events: Seq<StructuralEvent>, i: int)
    requires
        0 <= i <= events.len(),
        stream_depths(events.take(i)) is None,
    ensures
        stream_depths(events) is None,
    decreases events.len() - i,
{
    if i < events.len() {
        assert(events.take(i + 1).drop_last() =~= events.take(i));
        lemma_none_extends(events, i + 1);
    } else {
        assert(events.take(i) =~= events);
    }
}

/// The depths after a stream that starts from given depths.
pub open spec fn depths_from(events: Seq<StructuralEvent>, b: int, f: int) -> Option<(int, int)>
    decreases events.len(),
{
    if events.len() == 0 {
        Some((b, f))
    } else {
        match depths_from(events.drop_last(), b, f) {
            None => None,
            Some(d) => depth_step(events.last(), d.0, d.1),
        }
    }
}

proof fn lemma_depths_from_zero(events: Seq<StructuralEvent>)
    ensures
        depths_from(events, 0, 0) == stream_depths(events),
    decreases events.len(),
{
    if events.len() > 0 {
        lemma_depths_from_zero(events.drop_last());
    }
}

proof fn lemma_depths_concat(a: Seq<StructuralEvent>, b: Seq<StructuralEvent>)
    requires
        stream_depths(a) == Some((0int, 0int)),
    ensures
        stream_depths(a + b) == depths_from(b, 0, 0),
    decreases b.len(),
{
    if b.len() == 0 {
        assert(a + b =~= a);
    } else {
        lemma_depths_concat(a, b.drop_last());
        assert((a + b).drop_last() =~= a + b.drop_last());
        assert((a + b).last() == b.last());
    }
}

/// Two balanced streams in a row are balanced.
pub proof fn lemma_balanced_concat(a: Seq<StructuralEvent>, b: Seq<StructuralEvent>)
    requires
        balanced_stream(a),
        balanced_stream(b),
    ensures
        balanced_stream(a + b),
{
    lemma_depths_concat(a, b);
    lemma_depths_from_zero(b);
}

/// The file metrics that `compute_metrics` gives and keeps: the stored ones,
/// or else those of the events, functions and text with the index `mi`.
pub open spec fn metrics_after(s: SourceCode, mi: MaintainabilityIndex) -> FileMetrics {
    match s.spec_metrics() {
        Some(m) => m,
        None => spec_file_metrics(s.spec_events(), s.spec_nodes(), lines_in(s.spec_text()) as u32, mi),
    }
}

/// Computing the file metrics twice gives the same metrics: `s2` is `s1`
/// after a first call (same events, functions and text, and the metrics that
/// call gave stored), and a second call on it, with any index, gives and
/// keeps those metrics again.
pub proof fn law_compute_metrics_idempotent(s1: SourceCode, s2: SourceCode, mi1: MaintainabilityIndex, mi2: MaintainabilityIndex)
    requires
        s2.spec_events() == s1.spec_events(),
        s2.spec_nodes() == s1.spec_nodes(),
        s2.spec_text() == s1.spec_text(),
        s2.spec_metrics() == Some(metrics_after(s1, mi1)),
    ensures
        metrics_after(s2, mi2) == metrics_after(s1, mi1),
        s2.spec_metrics() == Some(metrics_after(s2, mi2)),
{
}

/// Metrics computed from an aggregate's events, functions and text are
/// consistent with them: what `compute_metrics` stores, `validate_consistency`
/// accepts.
pub proof fn law_computed_metrics_consistent(s: SourceCode, mi: MaintainabilityIndex)
    requires
        s.spec_metrics() == Some(spec_file_metrics(s.spec_events(), s.spec_nodes(), lines_in(s.spec_text()) as u32, mi)),
    ensures
        s.consistent(),
{
}

/// The number of line feeds among the first `n` bytes.
pub open spec fn newlines_before(bytes: Seq<u8>, n: int) -> nat
    decreases n,
{
    if n <= 0 {
        0
    } else {
        newlines_before(bytes, n - 1) + if bytes[n - 1] == 10u8 { 1nat } else { 0nat }
    }
}

/// The 1-based line of a byte offset: one more than the line feeds before
/// it, the offset taken no further than the end of the text.
pub open spec fn line_of_offset(text: Seq<char>, offset: u32) -> int {
    let bytes = utf8_bytes(text);
    let m = if offset <= bytes.len() { offset as int } else { bytes.len() as int };
    (newlines_before(bytes, m) + 1) as int
}

/// The duplicate instance of a node.
pub open spec fn instance_of(text: Seq<char>, n: NodeMetrics) -> DuplicateInstance {
    DuplicateInstance {
        name: n.name,
        start_line: line_of_offset(text, n.span@.0) as u32,
        end_line: line_of_offset(text, n.span@.1) as u32,
        span: n.span,
    }
}

/// The fingerprints of the nodes, each once, in order of first occurrence.
pub open spec fn first_fingerprints(nodes: Seq<NodeMetrics>) -> Seq<u64>
    decreases nodes.len(),
{
    if nodes.len() == 0 {
        Seq::empty()
    } else {
        let f = first_fingerprints(nodes.drop_last());
        if f.contains(nodes.last().fingerprint@) { f } else { f.push(nodes.last().fingerprint@) }
    }
}

/// The nodes with a fingerprint, in order.
pub open spec fn with_fingerprint(nodes: Seq<NodeMetrics>, f: u64) -> Seq<NodeMetrics> {
    nodes.filter(|n: NodeMetrics| n.fingerprint@ == f)
}

/// The fingerprints shared by at least two nodes, in order of first occurrence.
pub open spec fn duplicate_fingerprints(nodes: Seq<NodeMetrics>) -> Seq<u64> {
    first_fingerprints(nodes).filter(|f: u64| with_fingerprint(nodes, f).len() >= 2)
}

proof fn lemma_first_fingerprints(nodes: Seq<NodeMetrics>, f: u64)
    ensures
        first_fingerprints(nodes).contains(f) <==> exists|j: int| 0 <= j < nodes.len() && nodes[j].fingerprint@ == f,
        first_fingerprints(nodes).no_duplicates(),
    decreases nodes.len(),
{
    if nodes.len() > 0 {
        let prev = nodes.drop_last();
        let last = nodes.last().fingerprint@;
        lemma_first_fingerprints(prev, f);
        lemma_first_fingerprints(prev, last);
        let fp = first_fingerprints(prev);
        assert(fp.push(last).contains(last)) by {
            assert(fp.push(last)[fp.len() as int] == last);
        }
        assert(fp.contains(f) ==> fp.push(last).contains(f)) by {
            if fp.contains(f) {
                let k = choose|k: int| 0 <= k < fp.len() && fp[k] == f;
                assert(fp.push(last)[k] == f);
            }
        }
        assert(fp.push(last).contains(f) && f != last ==> fp.contains(f)) by {
            if fp.push(last).contains(f) && f != last {
                let k = choose|k: int| 0 <= k < fp.len() + 1 && fp.push(last)[k] == f;
                assert(fp[k] == f);
            }
        }
        if f == last {
            assert(nodes[nodes.len() - 1].fingerprint@ == f);
        }
        if exists|j: int| 0 <= j < nodes.len() && nodes[j].fingerprint@ == f {
            let j = choose|j: int| 0 <= j < nodes.len() && nodes[j].fingerprint@ == f;
            if j < prev.len() {
                assert(prev[j] == nodes[j]);
            }
        }
        if exists|j: int| 0 <= j < prev.len() && prev[j].fingerprint@ == f {
            let j = choose|j: int| 0 <= j < prev.len() && prev[j].fingerprint@ == f;
            assert(nodes[j] == prev[j]);
        }
    }
}

impl SourceCode {
    /// The 1-based line of a byte offset of the text.
    fn byte_to_line(&self, byte_offset: u32) -> (r: u32)
        requires
            utf8_bytes(self.spec_text()).len() < u32::MAX,
        ensures
            r == line_of_offset(self.spec_text(), byte_offset),
    {
        let bytes = self.text.as_str().as_bytes();
        let m: usize = if (byte_offset as usize) < bytes.len() { byte_offset as usize } else { bytes.len() };
        let mut count: u32 = 0;
        let mut i: usize = 0;
        while i < m
            invariant
                bytes@ == utf8_bytes(self.spec_text()),
                bytes@.len() < u32::MAX,
                m <= bytes@.len(),
                0 <= i <= m,
                count == newlines_before(bytes@, i as int),
                count <= i,
            decreases m - i,
        {
            if bytes[i] == 10u8 {
                count += 1;
            }
            i += 1;
        }
        count + 1
    }

    /// The groups of functions that share a fingerprint, for each fingerprint
    /// that at least two functions share, in order of first occurrence; each
    /// lists those functions in order, with their lines.
    pub fn get_duplicate_groups(&self) -> (r: Vec<DuplicateGroup>)
        requires
            utf8_bytes(self.spec_text()).len() < u32::MAX,
        ensures
            r@.len() == duplicate_fingerprints(self.spec_nodes()).len(),
            forall|k: int| 0 <= k < r@.len() ==> (#[trigger] r@[k]).fingerprint == duplicate_fingerprints(self.spec_nodes())[k]
                && r@[k].instances@ == with_fingerprint(self.spec_nodes(), r@[k].fingerprint).map_values(|n: NodeMetrics| instance_of(self.spec_text(), n)),
    {
        let ghost nodes = self.node_metrics@;
        let ghost text = self.text@;
        let mut groups: Vec<DuplicateGroup> = Vec::new();
        let mut i: usize = 0;
        while i < self.node_metrics.len()
            invariant
                nodes == self.node_metrics@,
                text == self.text@,
                utf8_bytes(text).len() < u32::MAX,
                0 <= i <= nodes.len(),
                groups@.len() == first_fingerprints(nodes.take(i as int)).filter(|f: u64| with_fingerprint(nodes, f).len() >= 2).len(),
                forall|k: int| 0 <= k < groups@.len() ==> (#[trigger] groups@[k]).fingerprint == first_fingerprints(nodes.take(i as int)).filter(|f: u64| with_fingerprint(nodes, f).len() >= 2)[k]
                    && groups@[k].instances@ == with_fingerprint(nodes, groups@[k].fingerprint).map_values(|n: NodeMetrics| instance_of(text, n)),
            decreases nodes.len() - i,
        {
            let fp = self.node_metrics[i].fingerprint.as_u64();
            let ghost prev = nodes.take(i as int);
            let ghost cur = nodes.take(i + 1);
            assert(cur.drop_last() =~= prev);
            assert(cur.last() == nodes[i as int]);
            let mut seen = false;
            let mut j: usize = 0;
            while j < i
                invariant
                    nodes == self.node_metrics@,
                    0 <= j <= i < nodes.len(),
                    fp == nodes[i as int].fingerprint@,
                    seen <==> exists|q: int| 0 <= q < j && nodes[q].fingerprint@ == fp,
                decreases i - j,
            {
                if self.node_metrics[j].fingerprint.as_u64() == fp {
                    seen = true;
                }
                j += 1;
            }
            proof {
                lemma_first_fingerprints(prev, fp);
                if exists|q: int| 0 <= q < i && nodes[q].fingerprint@ == fp {
                    let q = choose|q: int| 0 <= q < i && nodes[q].fingerprint@ == fp;
                    assert(prev[q] == nodes[q]);
                }
                if exists|q: int| 0 <= q < prev.len() && prev[q].fingerprint@ == fp {
                    let q = choose|q: int| 0 <= q < prev.len() && prev[q].fingerprint@ == fp;
                    assert(prev[q] == nodes[q]);
                }
                assert(seen == first_fingerprints(prev).contains(fp));
            }
            if !seen {
                let mut instances: Vec<DuplicateInstance> = Vec::new();
                let mut q: usize = 0;
                while q < self.node_metrics.len()
                    invariant
                        nodes == self.node_metrics@,
                        text == self.text@,
                        utf8_bytes(text).len() < u32::MAX,
                        0 <= q <= nodes.len(),
                        instances@ == with_fingerprint(nodes.take(q as int), fp).map_values(|n: NodeMetrics| instance_of(text, n)),
                    decreases nodes.len() - q,
                {
                    let ghost before = nodes.take(q as int);
                    assert(nodes.take(q + 1) =~= before.push(nodes[q as int]));
                    let node = &self.node_metrics[q];
                    if node.fingerprint.as_u64() == fp {
                        let start_line = self.byte_to_line(node.span.start().as_u32());
                        let end_line = self.byte_to_line(node.span.end().as_u32());
                        instances.push(DuplicateInstance { name: clone_name(&node.name), start_line, end_line, span: node.span });
                    }
                    proof {
                        assert(instances@ =~= with_fingerprint(nodes.take(q + 1), fp).map_values(|n: NodeMetrics| instance_of(text, n)));
                    }
                    q += 1;
                }
                proof {
                    assert(nodes.take(q as int) =~= nodes);
                }
                let ghost filtered = first_fingerprints(prev).filter(|f: u64| with_fingerprint(nodes, f).len() >= 2);
                assert(first_fingerprints(cur) == first_fingerprints(prev).push(fp));
                if instances.len() >= 2 {
                    groups.push(DuplicateGroup { fingerprint: fp, instances });
                    proof {
                        assert(first_fingerprints(cur).filter(|f: u64| with_fingerprint(nodes, f).len() >= 2) =~= filtered.push(fp));
                    }
                } else {
                    proof {
                        assert(first_fingerprints(cur).filter(|f: u64| with_fingerprint(nodes, f).len() >= 2) =~= filtered);
                    }
                }
            } else {
                assert(first_fingerprints(cur) == first_fingerprints(prev));
            }
            i += 1;
        }
        proof {
            assert(nodes.take(i as int) =~= nodes);
        }
        groups
    }
}

} // verus!
