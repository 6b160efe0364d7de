//! The application layer: the analysis use case, with its request and
//! response data, the step that parses a request's text and extracts its
//! functions, and the step that answers with the parts the request wants.
use vstd::prelude::*;
use vstd::std_specs::convert::FromSpecImpl;
use crate::data::utf8_bytes;
use crate::domain::events::{StructuralEvent, depth_step, lemma_short_depths_fit, stream_depths};
use crate::domain::metrics::{DuplicateGroup, DuplicateInstance, FileMetrics, MaintainabilityIndex, NodeMetrics};
use crate::domain::primitives::{BytePos, DomainError, LanguageId, Span, spec_language_id};
use crate::domain::rules::{AggregationRules, aggregation_fits, cognitive_scan, spec_file_metrics};
use crate::domain::source_code::{
    SourceCode, duplicate_fingerprints, extraction_fits, extraction_fits_check, instance_of, lines_in, nodes_of,
    with_fingerprint,
};
use crate::infrastructure::{EventView, LanguageSpec, TreeSitterAdapter, event_view, event_views, grammar_language, spec_tree_events};
use crate::syntax::spec_syntax_nodes;
use crate::text::{clone_name, concat_str, decimal, owned, push_decimal, spec_lower};

verus! {

/// Flags for the requested metrics.
#[derive(Debug, Clone, PartialEq, Eq, Structural)]
pub struct WantFlags {
    pub file: bool,
    pub cursor: bool,
    pub functions: bool,
}

impl WantFlags {
    pub fn all() -> (r: Self)
        ensures
            r == (WantFlags { file: true, cursor: true, functions: true }),
    {
        WantFlags { file: true, cursor: true, functions: true }
    }

    pub fn file_only() -> (r: Self)
        ensures
            r == (WantFlags { file: true, cursor: false, functions: false }),
    {
        WantFlags { file: true, cursor: false, functions: false }
    }

    pub fn with_functions(self) -> (r: Self)
        ensures
            r == (WantFlags { functions: true, ..self }),
    {
        let mut w = self;
        w.functions = true;
        w
    }

    pub fn with_cursor(self) -> (r: Self)
        ensures
            r == (WantFlags { cursor: true, ..self }),
    {
        let mut w = self;
        w.cursor = true;
        w
    }
}

/// Analysis request.
#[derive(Debug, Clone)]
pub struct AnalyzeRequest {
    pub version: u32,
    pub language: String,
    pub text: String,
    pub cursor_byte: Option<u32>,
    pub want: WantFlags,
}

impl AnalyzeRequest {
    /// A request for all metrics, with no cursor.
    pub fn new(text: String, language: String) -> (r: Result<Self, DomainError>)
        ensures
            text@.len() == 0 ==> (r matches Err(DomainError::InvalidUtf8(m)) && m@ == "empty source text"@),
            text@.len() > 0 ==> (r matches Ok(q) && q.version == 1 && q.language@ == language@ && q.text@ == text@
                && q.cursor_byte is None && q.want == (WantFlags { file: true, cursor: true, functions: true })),
    {
        Self::with_options(text, language, None, WantFlags::all())
    }

    /// A request with a cursor and a choice of metrics; an error for empty text.
    pub fn with_options(text: String, language: String, cursor_byte: Option<u32>, want: WantFlags) -> (r: Result<Self, DomainError>)
        ensures
            text@.len() == 0 ==> (r matches Err(DomainError::InvalidUtf8(m)) && m@ == "empty source text"@),
            text@.len() > 0 ==> (r matches Ok(q) && q.version == 1 && q.language@ == language@ && q.text@ == text@
                && q.cursor_byte == cursor_byte && q.want == want),
    {
        if text.as_str().is_empty() {
            return Err(DomainError::InvalidUtf8(owned("empty source text")));
        }
        Ok(AnalyzeRequest { version: 1, language, text, cursor_byte, want })
    }

    /// Check the version, and that a cursor lies within the text (its byte
    /// length taken as `u32`).
    pub fn validate(&self) -> (r: Result<(), DomainError>)
        ensures
            self.version != 1 ==> (r matches Err(DomainError::UnsupportedLanguage(m))
                && m@ == "version "@ + decimal(self.version as nat) + " not supported"@),
            self.version == 1 && (self.cursor_byte matches Some(c) && c >= (utf8_bytes(self.text@).len() as usize) as u32) ==> (r matches Err(DomainError::InvalidBytePosition(m)) && m@ == "cursor out of bounds"@),
            self.version == 1 && !(self.cursor_byte matches Some(c) && c >= (utf8_bytes(self.text@).len() as usize) as u32) ==> r is Ok,
    {
        if self.version != 1 {
            let mut msg = owned("version ");
            push_decimal(&mut msg, self.version);
            let msg = concat_str(msg.as_str(), " not supported");
            return Err(DomainError::UnsupportedLanguage(msg));
        }
        match self.cursor_byte {
            Some(cursor) => {
                if cursor >= self.text.as_str().len() as u32 {
                    return Err(DomainError::InvalidBytePosition(owned("cursor out of bounds")));
                }
            },
            None => {},
        }
        Ok(())
    }
}

/// A byte range `[start, end)`.
#[derive(Debug, Clone, PartialEq, Eq, Structural)]
pub struct SpanDto {
    pub start: u32,
    pub end: u32,
}

impl SpanDto {
    /// A range; an error when it ends before it starts.
    pub fn new(start: u32, end: u32) -> (r: Result<Self, DomainError>)
        ensures
            start <= end ==> r == Ok::<SpanDto, DomainError>(SpanDto { start, end }),
            end < start ==> (r matches Err(DomainError::InvalidSpan(m)) && m@ == "end before start"@),
    {
        if end < start {
            return Err(DomainError::InvalidSpan(owned("end before start")));
        }
        Ok(SpanDto { start, end })
    }
}

impl From<Span> for SpanDto {
    fn from(span: Span) -> (r: Self) {
        SpanDto { start: span.start().as_u32(), end: span.end().as_u32() }
    }
}

impl FromSpecImpl<Span> for SpanDto {
    open spec fn obeys_from_spec() -> bool {
        true
    }

    open spec fn from_spec(span: Span) -> SpanDto {
        SpanDto { start: span@.0, end: span@.1 }
    }
}

/// The metrics of one function.
#[derive(Debug, Clone, PartialEq)]
pub struct NodeMetricsDto {
    pub name: Option<String>,
    pub span: SpanDto,
    pub loc: u32,
    pub cc: u32,
    pub cognitive: u32,
    pub depth: u32,
    pub fingerprint: u64,
}

impl NodeMetricsDto {
    /// The data of a function's metrics.
    pub fn from_metrics(metrics: NodeMetrics) -> (r: Self)
        ensures
            r.name == metrics.name,
            r.span == (SpanDto { start: metrics.span@.0, end: metrics.span@.1 }),
            r.loc == metrics.loc,
            r.cc == metrics.cc,
            r.cognitive == metrics.cognitive,
            r.depth == metrics.depth,
            r.fingerprint == metrics.fingerprint@,
    {
        NodeMetricsDto {
            span: SpanDto::from(metrics.span),
            loc: metrics.loc,
            cc: metrics.cc,
            cognitive: metrics.cognitive,
            depth: metrics.depth,
            fingerprint: metrics.fingerprint.as_u64(),
            name: metrics.name,
        }
    }
}

/// One instance of a duplicated function.
#[derive(Debug, Clone, PartialEq)]
pub struct DuplicateInstanceDto {
    pub name: Option<String>,
    pub start_line: u32,
    pub end_line: u32,
    pub span: SpanDto,
}

/// The data of a duplicate instance.
pub open spec fn instance_data(i: DuplicateInstance) -> DuplicateInstanceDto {
    DuplicateInstanceDto {
        name: i.name,
        start_line: i.start_line,
        end_line: i.end_line,
        span: SpanDto { start: i.span@.0, end: i.span@.1 },
    }
}

/// Functions that share a fingerprint.
#[derive(Debug, Clone, PartialEq)]
pub struct DuplicateGroupDto {
    pub fingerprint: u64,
    pub instances: Vec<DuplicateInstanceDto>,
}

impl DuplicateGroupDto {
    /// The data of a duplicate group: its fingerprint, and its instances in
    /// order.
    pub fn from_group(g: DuplicateGroup) -> (r: Self)
        ensures
            r.fingerprint == g.fingerprint,
            r.instances@ == g.instances@.map_values(|i: DuplicateInstance| instance_data(i)),
    {
        let ghost source = g.instances@;
        let mut instances: Vec<DuplicateInstanceDto> = Vec::new();
        let mut i: usize = 0;
        while i < g.instances.len()
            invariant
                source == g.instances@,
                0 <= i <= source.len(),
                instances@ == source.take(i as int).map_values(|x: DuplicateInstance| instance_data(x)),
            decreases source.len() - i,
        {
            let inst = &g.instances[i];
            let d = DuplicateInstanceDto {
                name: clone_name(&inst.name),
                start_line: inst.start_line,
                end_line: inst.end_line,
                span: SpanDto::from(inst.span),
            };
            instances.push(d);
            proof {
                assert(source.take(i + 1) =~= source.take(i as int).push(source[i as int]));
            }
            i += 1;
        }
        assert(source.take(i as int) =~= source);
        DuplicateGroupDto { fingerprint: g.fingerprint, instances }
    }
}

/// The structural events of a text in a language, as the adapter turns the
/// language's parse of the text into events; `None` when an event cannot be
/// built.
pub open spec fn tree_events_of(language: LanguageId, text: Seq<char>) -> Option<Seq<EventView>> {
    spec_tree_events(
        LanguageSpec::spec_for(language),
        spec_syntax_nodes(grammar_language(language), utf8_bytes(text)),
        utf8_bytes(text),
    )
}

/// The open blocks and functions after an event, as `depth_step` counts them.
pub open spec fn view_step(e: EventView, blocks: int, functions: int) -> Option<(int, int)> {
    match e {
        EventView::BlockEntry { .. } => Some((blocks + 1, functions)),
        EventView::BlockExit { .. } => if blocks == 0 { None } else { Some((blocks - 1, functions)) },
        EventView::FunctionStart { .. } => Some((blocks, functions + 1)),
        EventView::FunctionEnd { .. } => if functions == 0 { None } else { Some((blocks, functions - 1)) },
        _ => Some((blocks, functions)),
    }
}

/// The open blocks and functions after a stream of events, as
/// `stream_depths` counts them.
pub open spec fn view_depths(events: Seq<EventView>) -> Option<(int, int)>
    decreases events.len(),
{
    if events.len() == 0 {
        Some((0, 0))
    } else {
        match view_depths(events.drop_last()) {
            None => None,
            Some(d) => view_step(events.last(), d.0, d.1),
        }
    }
}

/// The cognitive complexity and open blocks after a stream of events, as
/// `cognitive_scan` counts them.
pub open spec fn view_cognitive(events: Seq<EventView>) -> (nat, nat)
    decreases events.len(),
{
    if events.len() == 0 {
        (0, 0)
    } else {
        let (total, depth) = view_cognitive(events.drop_last());
        match events.last() {
            EventView::BlockEntry { .. } => (total, depth + 1),
            EventView::BlockExit { .. } => (total, if depth == 0 { 0 } else { (depth - 1) as nat }),
            EventView::Branch { branch_type, .. } => (
                total + if branch_type is Logical { 1nat } else { 1 + depth },
                depth,
            ),
            _ => (total, depth),
        }
    }
}

/// `extraction_fits`, over the views of the events.
pub open spec fn view_extraction_fits(events: Seq<EventView>, text: Seq<char>) -> bool {
    &&& events.len() < u32::MAX
    &&& forall|a: int, b: int| 0 <= a <= b <= events.len() ==> #[trigger] view_cognitive(events.subrange(a, b)).0 <= u32::MAX
    &&& forall|k: int| 0 <= k < events.len() ==> match #[trigger] events[k] {
        EventView::FunctionStart { start, end, .. } => end <= utf8_bytes(text).len() ==> vstd::utf8::is_char_boundary(utf8_bytes(text), start as int)
            && vstd::utf8::is_char_boundary(utf8_bytes(text), end as int),
        _ => true,
    }
}

proof fn lemma_views_count_alike(events: Seq<StructuralEvent>)
    ensures
        stream_depths(events) == view_depths(event_views(events)),
        cognitive_scan(events) == view_cognitive(event_views(events)),
    decreases events.len(),
{
    if events.len() > 0 {
        lemma_views_count_alike(events.drop_last());
        assert(event_views(events).drop_last() =~= event_views(events.drop_last()));
        assert(event_views(events).last() == event_view(events.last()));
    }
}

proof fn lemma_views_extraction(events: Seq<StructuralEvent>, text: Seq<char>)
    ensures
        extraction_fits(events, text) == view_extraction_fits(event_views(events), text),
{
    let vs = event_views(events);
    assert forall|a: int, b: int| 0 <= a <= b <= events.len() implies
        #[trigger] cognitive_scan(events.subrange(a, b)).0 == view_cognitive(vs.subrange(a, b)).0 by {
        lemma_views_count_alike(events.subrange(a, b));
        assert(event_views(events.subrange(a, b)) =~= vs.subrange(a, b));
    }
    assert forall|k: int| 0 <= k < events.len() implies #[trigger] vs[k] == event_view(events[k]) by {}
    if extraction_fits(events, text) {
        assert forall|a: int, b: int| 0 <= a <= b <= vs.len() implies #[trigger] view_cognitive(vs.subrange(a, b)).0 <= u32::MAX by {
            assert(cognitive_scan(events.subrange(a, b)).0 == view_cognitive(vs.subrange(a, b)).0);
        }
        assert forall|k: int| 0 <= k < vs.len() implies match #[trigger] vs[k] {
            EventView::FunctionStart { start, end, .. } => end <= utf8_bytes(text).len() ==> vstd::utf8::is_char_boundary(utf8_bytes(text), start as int)
                && vstd::utf8::is_char_boundary(utf8_bytes(text), end as int),
            _ => true,
        } by {
            assert(vs[k] == event_view(events[k]));
            assert(match events[k] {
                StructuralEvent::FunctionStart { span, .. } => span@.1 <= utf8_bytes(text).len() ==> vstd::utf8::is_char_boundary(utf8_bytes(text), span@.0 as int)
                    && vstd::utf8::is_char_boundary(utf8_bytes(text), span@.1 as int),
                _ => true,
            });
        }
    }
    if view_extraction_fits(vs, text) {
        assert forall|a: int, b: int| 0 <= a <= b <= events.len() implies #[trigger] cognitive_scan(events.subrange(a, b)).0 <= u32::MAX by {
            assert(view_cognitive(vs.subrange(a, b)).0 <= u32::MAX);
        }
        assert forall|k: int| 0 <= k < events.len() implies match #[trigger] events[k] {
            StructuralEvent::FunctionStart { span, .. } => span@.1 <= utf8_bytes(text).len() ==> vstd::utf8::is_char_boundary(utf8_bytes(text), span@.0 as int)
                && vstd::utf8::is_char_boundary(utf8_bytes(text), span@.1 as int),
            _ => true,
        } by {
            assert(vs[k] == event_view(events[k]));
            assert(match vs[k] {
                EventView::FunctionStart { start, end, .. } => end <= utf8_bytes(text).len() ==> vstd::utf8::is_char_boundary(utf8_bytes(text), start as int)
                    && vstd::utf8::is_char_boundary(utf8_bytes(text), end as int),
                _ => true,
            });
        }
    }
}

/// The message of the error for sizes beyond what the metrics count in.
pub open spec fn overflow_error(r: DomainError) -> bool {
    r matches DomainError::InternalError(m) && m@ == "metric overflow"@
}

/// The parts of the answer to an analysis request: the file metrics, the
/// function under the cursor, the functions, and the duplicate groups.
#[derive(Debug)]
pub struct AnalysisParts {
    pub file: Option<FileMetrics>,
    pub cursor: Option<NodeMetricsDto>,
    pub functions: Option<Vec<NodeMetricsDto>>,
    pub duplicates: Option<Vec<DuplicateGroupDto>>,
}

/// The data of a function's metrics.
pub open spec fn node_data(n: NodeMetrics) -> NodeMetricsDto {
    NodeMetricsDto {
        name: n.name,
        span: SpanDto { start: n.span@.0, end: n.span@.1 },
        loc: n.loc,
        cc: n.cc,
        cognitive: n.cognitive,
        depth: n.depth,
        fingerprint: n.fingerprint@,
    }
}

/// The first function whose span holds a position, if any.
pub open spec fn first_at(nodes: Seq<NodeMetrics>, pos: int) -> Option<NodeMetrics>
    decreases nodes.len(),
{
    if nodes.len() == 0 {
        None
    } else if nodes[0].span@.0 <= pos < nodes[0].span@.1 {
        Some(nodes[0])
    } else {
        first_at(nodes.drop_first(), pos)
    }
}

/// The analysis use case. Its two verified steps surround the estimate of the
/// maintainability index, which is computed in floating point by the caller.
#[derive(Debug)]
pub struct AnalysisService;

/// The cursor of a request lies past its text.
pub open spec fn cursor_out(request: AnalyzeRequest) -> bool {
    request.cursor_byte matches Some(c) && c >= (utf8_bytes(request.text@).len() as usize) as u32
}

/// The request passes `validate`.
pub open spec fn request_ok(request: AnalyzeRequest) -> bool {
    request.version == 1 && !cursor_out(request)
}

/// What `prepare` gives for a valid request in a supported language, from
/// the events of its text.
pub open spec fn prepared(request: AnalyzeRequest, language: LanguageId, events: Seq<EventView>, r: Result<SourceCode, DomainError>) -> bool {
    if events.len() >= u32::MAX {
        r matches Err(e) && overflow_error(e)
    } else if view_depths(events) is None {
        r matches Err(DomainError::InvalidSpan(m)) && (m@ == "unbalanced block exit"@ || m@ == "unbalanced function exit"@)
    } else if view_depths(events) != Some((0int, 0int)) {
        r matches Err(DomainError::InvalidSpan(m)) && m@ == "unbalanced event stream"@
    } else if !view_extraction_fits(events, request.text@) {
        r matches Err(e) && overflow_error(e)
    } else {
        &&& r matches Ok(s)
        &&& s.spec_text() == request.text@
        &&& s.spec_language() == language
        &&& event_views(s.spec_events()) == events
        &&& s.spec_metrics() is None
        &&& s.wf()
        &&& events.len() > 0 ==> nodes_of(s.spec_nodes(), s.spec_events(), s.spec_text())
        &&& events.len() == 0 ==> s.spec_nodes().len() == 0
    }
}

impl AnalysisService {
    /// The first step of an analysis: validate the request, parse its text
    /// into structural events and extract the metrics of its functions.
    pub fn prepare(request: &AnalyzeRequest) -> (r: Result<SourceCode, DomainError>)
        requires
            utf8_bytes(request.text@).len() <= usize::MAX,
        ensures
            request.version != 1 ==> (r matches Err(DomainError::UnsupportedLanguage(m))
                && m@ == "version "@ + decimal(request.version as nat) + " not supported"@),
            request.version == 1 && cursor_out(*request) ==> (r matches Err(DomainError::InvalidBytePosition(m)) && m@ == "cursor out of bounds"@),
            request_ok(*request) ==> match spec_language_id(spec_lower(request.language@)) {
                None => r matches Err(DomainError::UnsupportedLanguage(m)) && m@ == request.language@,
                Some(l) => match tree_events_of(l, request.text@) {
                    None => r matches Err(e) && ((e matches DomainError::InvalidSpan(m) && m@ == "end before start"@) || e is EmptySymbol),
                    Some(events) => prepared(*request, l, events, r),
                },
            },
    {
        match request.validate() {
            Ok(()) => {},
            Err(e) => return Err(e),
        }
        let mut source = match SourceCode::new(request.text.clone(), request.language.as_str()) {
            Ok(s) => s,
            Err(e) => return Err(e),
        };
        let mut adapter = match TreeSitterAdapter::new(source.language()) {
            Ok(a) => a,
            Err(e) => return Err(e),
        };
        let events = match adapter.parse_to_events(source.text()) {
            Ok(es) => es,
            Err(e) => return Err(e),
        };
        let ghost views = event_views(events@);
        if events.len() >= u32::MAX as usize {
            return Err(DomainError::InternalError(owned("metric overflow")));
        }
        proof {
            lemma_views_count_alike(events@);
            lemma_short_depths_fit(events@);
        }
        let ghost added = events@;
        match source.add_events(events) {
            Ok(()) => {},
            Err(e) => return Err(e),
        }
        assert(source.spec_events() =~= added);
        proof {
            lemma_views_extraction(added, source.spec_text());
        }
        if !extraction_fits_check(source.events(), source.text().as_str()) {
            return Err(DomainError::InternalError(owned("metric overflow")));
        }
        match source.compute_node_metrics() {
            Ok(_) => {},
            Err(e) => return Err(e),
        }
        Ok(source)
    }
}

/// When some function holds a position and none before it does, it is the
/// first that holds it; when none does, there is none.
proof fn lemma_first_at(nodes: Seq<NodeMetrics>, pos: int, k: int)
    requires
        k == nodes.len() || (0 <= k < nodes.len() && nodes[k].span@.0 <= pos < nodes[k].span@.1),
        forall|j: int| 0 <= j < k ==> !(#[trigger] nodes[j].span@.0 <= pos < nodes[j].span@.1),
    ensures
        k == nodes.len() ==> first_at(nodes, pos) is None,
        k < nodes.len() ==> first_at(nodes, pos) == Some(nodes[k]),
    decreases nodes.len(),
{
    if nodes.len() > 0 && k > 0 {
        let rest = nodes.drop_first();
        assert forall|j: int| 0 <= j < k - 1 implies !(#[trigger] rest[j].span@.0 <= pos < rest[j].span@.1) by {
            assert(rest[j] == nodes[j + 1]);
        }
        assert(!(nodes[0].span@.0 <= pos < nodes[0].span@.1));
        lemma_first_at(rest, pos, k - 1);
    }
}

fn clone_node(n: &NodeMetrics) -> (r: NodeMetrics)
    ensures
        r == *n,
{
    NodeMetrics {
        name: clone_name(&n.name),
        span: n.span,
        loc: n.loc,
        cc: n.cc,
        cognitive: n.cognitive,
        depth: n.depth,
        fingerprint: n.fingerprint,
    }
}

/// The data of each function, in order.
fn node_list(nodes: &[NodeMetrics]) -> (r: Vec<NodeMetricsDto>)
    ensures
        r@ == nodes@.map_values(|n: NodeMetrics| node_data(n)),
{
    let mut out: Vec<NodeMetricsDto> = Vec::new();
    let mut i: usize = 0;
    while i < nodes.len()
        invariant
            0 <= i <= nodes@.len(),
            out@ == nodes@.take(i as int).map_values(|n: NodeMetrics| node_data(n)),
        decreases nodes@.len() - i,
    {
        let d = NodeMetricsDto::from_metrics(clone_node(&nodes[i]));
        out.push(d);
        assert(nodes@.take(i + 1) =~= nodes@.take(i as int).push(nodes@[i as int]));
        assert(out@ =~= nodes@.take(i + 1).map_values(|n: NodeMetrics| node_data(n)));
        i += 1;
    }
    assert(nodes@.take(i as int) =~= nodes@);
    out
}

/// The data of each duplicate group, in order.
fn group_list(groups: Vec<DuplicateGroup>) -> (r: Vec<DuplicateGroupDto>)
    ensures
        r@.len() == groups@.len(),
        forall|k: int| 0 <= k < r@.len() ==> (#[trigger] r@[k]).fingerprint == groups@[k].fingerprint
            && r@[k].instances@ == groups@[k].instances@.map_values(|i: DuplicateInstance| instance_data(i)),
{
    let ghost orig = groups@;
    let mut rest = groups;
    let n = rest.len();
    let mut out: Vec<DuplicateGroupDto> = Vec::new();
    let mut i: usize = 0;
    while rest.len() > 0
        invariant
            n == orig.len(),
            i + rest@.len() == orig.len(),
            rest@ == orig.skip(i as int),
            out@.len() == i,
            forall|k: int| 0 <= k < i ==> (#[trigger] out@[k]).fingerprint == orig[k].fingerprint
                && out@[k].instances@ == orig[k].instances@.map_values(|x: DuplicateInstance| instance_data(x)),
        decreases rest@.len(),
    {
        let g = rest.remove(0);
        assert(g == orig[i as int]);
        assert(rest@ =~= orig.skip(i + 1));
        out.push(DuplicateGroupDto::from_group(g));
        i += 1;
    }
    out
}

impl AnalysisService {
    /// The second step of an analysis, once the maintainability index is
    /// known: the parts of the answer that the request wants. The file
    /// metrics are computed (with `mi`) unless already known; the duplicate
    /// groups are given when there are any.
    pub fn respond(request: &AnalyzeRequest, source: &mut SourceCode, mi: MaintainabilityIndex) -> (r: Result<AnalysisParts, DomainError>)
        requires
            old(source).wf(),
            utf8_bytes(old(source).spec_text()).len() <= usize::MAX,
        ensures
            final(source).wf(),
            final(source).spec_events() == old(source).spec_events(),
            final(source).spec_nodes() == old(source).spec_nodes(),
            final(source).spec_text() == old(source).spec_text(),
            final(source).spec_language() == old(source).spec_language(),
            r is Err ==> *final(source) == *old(source),
            utf8_bytes(old(source).spec_text()).len() >= u32::MAX ==> (r matches Err(e) && overflow_error(e)),
            utf8_bytes(old(source).spec_text()).len() < u32::MAX && request.want.file
                && !aggregation_fits(old(source).spec_events(), old(source).spec_nodes()) ==> (r matches Err(e) && overflow_error(e)),
            utf8_bytes(old(source).spec_text()).len() < u32::MAX
                && (request.want.file ==> aggregation_fits(old(source).spec_events(), old(source).spec_nodes())) ==> r is Ok,
            r matches Ok(parts) ==> {
                &&& parts.file == if request.want.file {
                    Some(match old(source).spec_metrics() {
                        Some(m) => m,
                        None => spec_file_metrics(old(source).spec_events(), old(source).spec_nodes(), lines_in(old(source).spec_text()) as u32, mi),
                    })
                } else {
                    None::<FileMetrics>
                }
                &&& final(source).spec_metrics() == if request.want.file { parts.file } else { old(source).spec_metrics() }
                &&& request.want.functions ==> (parts.functions matches Some(v) && v@ == old(source).spec_nodes().map_values(|n: NodeMetrics| node_data(n)))
                &&& !request.want.functions ==> parts.functions is None
                &&& parts.cursor == match request.cursor_byte {
                    Some(c) if request.want.cursor => match first_at(old(source).spec_nodes(), c as int) {
                        Some(n) => Some(node_data(n)),
                        None => None,
                    },
                    _ => None,
                }
                &&& duplicate_fingerprints(old(source).spec_nodes()).len() == 0 ==> parts.duplicates is None
                &&& duplicate_fingerprints(old(source).spec_nodes()).len() > 0 ==> (parts.duplicates matches Some(v)
                    && v@.len() == duplicate_fingerprints(old(source).spec_nodes()).len()
                    && forall|k: int| 0 <= k < v@.len() ==> (#[trigger] v@[k]).fingerprint == duplicate_fingerprints(old(source).spec_nodes())[k]
                        && v@[k].instances@ == with_fingerprint(old(source).spec_nodes(), v@[k].fingerprint).map_values(
                            |n: NodeMetrics| instance_data(instance_of(old(source).spec_text(), n)),
                        ))
            },
    {
        if source.text().as_str().len() >= u32::MAX as usize {
            return Err(DomainError::InternalError(owned("metric overflow")));
        }
        let file = if request.want.file {
            if !AggregationRules::fits(source.events(), source.node_metrics()) {
                return Err(DomainError::InternalError(owned("metric overflow")));
            }
            match source.compute_metrics(mi) {
                Ok(m) => Some(m),
                Err(e) => return Err(e),
            }
        } else {
            None
        };
        let functions = if request.want.functions {
            Some(node_list(source.node_metrics()))
        } else {
            None
        };
        let cursor = match request.cursor_byte {
            Some(c) if request.want.cursor => {
                let pos = match BytePos::new(c) {
                    Ok(p) => p,
                    Err(e) => return Err(e),
                };
                match source.analyze_cursor(pos) {
                    Some(n) => {
                        proof {
                            let k = choose|k: int| 0 <= k < source.spec_nodes().len() && source.spec_nodes()[k] == *n
                                && n.span@.0 <= pos@ < n.span@.1
                                && forall|j: int| 0 <= j < k ==> !(#[trigger] source.spec_nodes()[j].span@.0 <= pos@ < source.spec_nodes()[j].span@.1);
                            lemma_first_at(source.spec_nodes(), pos@ as int, k);
                        }
                        Some(NodeMetricsDto::from_metrics(clone_node(n)))
                    },
                    None => {
                        proof {
                            lemma_first_at(source.spec_nodes(), pos@ as int, source.spec_nodes().len() as int);
                        }
                        None
                    },
                }
            },
            _ => None,
        };
        let groups = source.get_duplicate_groups();
        let duplicates = if groups.len() == 0 {
            None
        } else {
            let ghost gs = groups@;
            let v = group_list(groups);
            proof {
                assert forall|k: int| 0 <= k < v@.len() implies v@[k].instances@ == with_fingerprint(source.spec_nodes(), v@[k].fingerprint).map_values(
                    |n: NodeMetrics| instance_data(instance_of(source.spec_text(), n)),
                ) by {
                    assert(v@[k].instances@ =~= with_fingerprint(source.spec_nodes(), v@[k].fingerprint).map_values(
                        |n: NodeMetrics| instance_data(instance_of(source.spec_text(), n)),
                    ));
                }
            }
            Some(v)
        };
        Ok(AnalysisParts { file, cursor, functions, duplicates })
    }
}

} // verus!
