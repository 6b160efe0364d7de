//! Structural events: value objects for what a syntax tree holds, in the
//! order of a walk over it. Block entries and exits, and function starts and
//! ends, are balanced in a well-formed stream.
use vstd::prelude::*;
use crate::domain::primitives::{BytePos, DomainError, Span, Symbol, pos_ok, symbol_chars_ok};
use crate::text::owned;

verus! {

/// Structural events from syntax-tree analysis.
#[derive(Debug, Clone, PartialEq)]
pub enum StructuralEvent {
    BlockEntry { span: Span },
    BlockExit { span: Span },
    Branch { span: Span, branch_type: BranchType },
    Import { symbol: Symbol, span: Span },
    Export { symbol: Symbol, span: Span },
    FunctionStart { name: Option<String>, span: Span },
    FunctionEnd { span: Span },
    CursorPosition { position: BytePos },
}

/// Types of branching constructs.
#[derive(Debug, Clone, Copy, PartialEq, Eq, Structural, Hash)]
pub enum BranchType {
    Conditional,
    Loop,
    Switch,
    Exception,
    Logical,
}

/// The span that an event carries, if any.
pub open spec fn event_span(e: StructuralEvent) -> Option<Span> {
    match e {
        StructuralEvent::BlockEntry { span } => Some(span),
        StructuralEvent::BlockExit { span } => Some(span),
        StructuralEvent::Branch { span, .. } => Some(span),
        StructuralEvent::Import { span, .. } => Some(span),
        StructuralEvent::Export { span, .. } => Some(span),
        StructuralEvent::FunctionStart { span, .. } => Some(span),
        StructuralEvent::FunctionEnd { span } => Some(span),
        StructuralEvent::CursorPosition { .. } => None,
    }
}

/// The error of a span whose end comes before its start.
pub open spec fn span_error(r: Result<StructuralEvent, DomainError>) -> bool {
    r matches Err(DomainError::InvalidSpan(m)) && m@ == "end before start"@
}

/// An event built from a symbol name that the symbol rules reject.
pub open spec fn symbol_error(r: Result<StructuralEvent, DomainError>, name: Seq<char>) -> bool {
    &&& name.len() == 0 ==> (r matches Err(DomainError::EmptySymbol(m)) && m@ == "symbol name cannot be empty"@)
    &&& name.len() > 0 ==> (r matches Err(DomainError::EmptySymbol(m)) && m@ == "symbol contains invalid characters: "@ + name)
}

/// A symbol name that the symbol rules accept.
pub open spec fn symbol_ok(name: Seq<char>) -> bool {
    name.len() > 0 && symbol_chars_ok(name)
}

fn make_span(start: BytePos, end: BytePos) -> (r: Result<Span, DomainError>)
    ensures
        start@ <= end@ ==> (r matches Ok(s) && s@ == (start@, end@)),
        end@ < start@ ==> (r matches Err(DomainError::InvalidSpan(m)) && m@ == "end before start"@),
{
    Span::new(start, end)
}

impl StructuralEvent {
    pub fn block_entry(start: BytePos, end: BytePos) -> (r: Result<Self, DomainError>)
        ensures
            start@ <= end@ ==> (r matches Ok(StructuralEvent::BlockEntry { span }) && span@ == (start@, end@)),
            end@ < start@ ==> span_error(r),
    {
        match make_span(start, end) {
            Ok(span) => Ok(StructuralEvent::BlockEntry { span }),
            Err(e) => Err(e),
        }
    }

    pub fn block_exit(start: BytePos, end: BytePos) -> (r: Result<Self, DomainError>)
        ensures
            start@ <= end@ ==> (r matches Ok(StructuralEvent::BlockExit { span }) && span@ == (start@, end@)),
            end@ < start@ ==> span_error(r),
    {
        match make_span(start, end) {
            Ok(span) => Ok(StructuralEvent::BlockExit { span }),
            Err(e) => Err(e),
        }
    }

    pub fn branch(start: BytePos, end: BytePos, branch_type: BranchType) -> (r: Result<Self, DomainError>)
        ensures
            start@ <= end@ ==> (r matches Ok(StructuralEvent::Branch { span, branch_type: t }) && span@ == (start@, end@) && t == branch_type),
            end@ < start@ ==> span_error(r),
    {
        match make_span(start, end) {
            Ok(span) => Ok(StructuralEvent::Branch { span, branch_type }),
            Err(e) => Err(e),
        }
    }

    /// An import of a symbol; the symbol is checked before the span.
    pub fn import(symbol: String, start: BytePos, end: BytePos) -> (r: Result<Self, DomainError>)
        ensures
            !symbol_ok(symbol@) ==> symbol_error(r, symbol@),
            symbol_ok(symbol@) && start@ <= end@ ==> (r matches Ok(StructuralEvent::Import { symbol: s, span }) && s@ == symbol@ && span@ == (start@, end@)),
            symbol_ok(symbol@) && end@ < start@ ==> span_error(r),
    {
        let ghost name = symbol@;
        let symbol = match Symbol::new(symbol) {
            Ok(s) => s,
            Err(e) => return Err(e),
        };
        match make_span(start, end) {
            Ok(span) => Ok(StructuralEvent::Import { symbol, span }),
            Err(e) => Err(e),
        }
    }

    /// An export of a symbol; the symbol is checked before the span.
    pub fn export(symbol: String, start: BytePos, end: BytePos) -> (r: Result<Self, DomainError>)
        ensures
            !symbol_ok(symbol@) ==> symbol_error(r, symbol@),
            symbol_ok(symbol@) && start@ <= end@ ==> (r matches Ok(StructuralEvent::Export { symbol: s, span }) && s@ == symbol@ && span@ == (start@, end@)),
            symbol_ok(symbol@) && end@ < start@ ==> span_error(r),
    {
        let symbol = match Symbol::new(symbol) {
            Ok(s) => s,
            Err(e) => return Err(e),
        };
        match make_span(start, end) {
            Ok(span) => Ok(StructuralEvent::Export { symbol, span }),
            Err(e) => Err(e),
        }
    }

    pub fn function_start(name: Option<String>, start: BytePos, end: BytePos) -> (r: Result<Self, DomainError>)
        ensures
            start@ <= end@ ==> (r matches Ok(StructuralEvent::FunctionStart { name: n, span }) && n == name && span@ == (start@, end@)),
            end@ < start@ ==> span_error(r),
    {
        match make_span(start, end) {
            Ok(span) => Ok(StructuralEvent::FunctionStart { name, span }),
            Err(e) => Err(e),
        }
    }

    pub fn function_end(start: BytePos, end: BytePos) -> (r: Result<Self, DomainError>)
        ensures
            start@ <= end@ ==> (r matches Ok(StructuralEvent::FunctionEnd { span }) && span@ == (start@, end@)),
            end@ < start@ ==> span_error(r),
    {
        match make_span(start, end) {
            Ok(span) => Ok(StructuralEvent::FunctionEnd { span }),
            Err(e) => Err(e),
        }
    }

    /// A cursor at a byte position; every position is accepted.
    pub fn cursor_position(position: u32) -> (r: Result<Self, DomainError>)
        ensures
            r matches Ok(StructuralEvent::CursorPosition { position: p }) && p@ == position,
    {
        match BytePos::new(position) {
            Ok(pos) => Ok(StructuralEvent::CursorPosition { position: pos }),
            Err(e) => Err(e),
        }
    }

    pub fn span(&self) -> (r: Option<Span>)
        ensures
            r == event_span(*self),
    {
        match self {
            StructuralEvent::BlockEntry { span } => Some(*span),
            StructuralEvent::BlockExit { span } => Some(*span),
            StructuralEvent::Branch { span, .. } => Some(*span),
            StructuralEvent::Import { span, .. } => Some(*span),
            StructuralEvent::Export { span, .. } => Some(*span),
            StructuralEvent::FunctionStart { span, .. } => Some(*span),
            StructuralEvent::FunctionEnd { span } => Some(*span),
            StructuralEvent::CursorPosition { .. } => None,
        }
    }

    pub fn is_block_entry(&self) -> (r: bool)
        ensures
            r == (*self is BlockEntry),
    {
        matches!(self, StructuralEvent::BlockEntry { .. })
    }

    pub fn is_block_exit(&self) -> (r: bool)
        ensures
            r == (*self is BlockExit),
    {
        matches!(self, StructuralEvent::BlockExit { .. })
    }

    pub fn is_branch(&self) -> (r: bool)
        ensures
            r == (*self is Branch),
    {
        matches!(self, StructuralEvent::Branch { .. })
    }

    pub fn is_function_start(&self) -> (r: bool)
        ensures
            r == (*self is FunctionStart),
    {
        matches!(self, StructuralEvent::FunctionStart { .. })
    }

    pub fn is_function_end(&self) -> (r: bool)
        ensures
            r == (*self is FunctionEnd),
    {
        matches!(self, StructuralEvent::FunctionEnd { .. })
    }

    pub fn is_import(&self) -> (r: bool)
        ensures
            r == (*self is Import),
    {
        matches!(self, StructuralEvent::Import { .. })
    }

    pub fn is_export(&self) -> (r: bool)
        ensures
            r == (*self is Export),
    {
        matches!(self, StructuralEvent::Export { .. })
    }

    pub fn is_cursor(&self) -> (r: bool)
        ensures
            r == (*self is CursorPosition),
    {
        matches!(self, StructuralEvent::CursorPosition { .. })
    }
}

/// The block and function depths after one more event, or `None` when the
/// event closes a block or a function that is not open.
pub open spec fn depth_step(e: StructuralEvent, blocks: int, functions: int) -> Option<(int, int)> {
    match e {
        StructuralEvent::BlockEntry { .. } => Some((blocks + 1, functions)),
        StructuralEvent::BlockExit { .. } => if blocks == 0 { None } else { Some((blocks - 1, functions)) },
        StructuralEvent::FunctionStart { .. } => Some((blocks, functions + 1)),
        StructuralEvent::FunctionEnd { .. } => if functions == 0 { None } else { Some((blocks, functions - 1)) },
        _ => Some((blocks, functions)),
    }
}

/// The block and function depths after a stream of events from depth zero,
/// or `None` when some event closes what is not open.
pub open spec fn stream_depths(events: Seq<StructuralEvent>) -> Option<(int, int)>
    decreases events.len(),
{
    if events.len() == 0 {
        Some((0, 0))
    } else {
        match stream_depths(events.drop_last()) {
            None => None,
            Some(d) => depth_step(events.last(), d.0, d.1),
        }
    }
}

/// The block entries less the block exits, and the function starts less the
/// function ends, of a stream.
pub open spec fn count_diff(events: Seq<StructuralEvent>) -> (int, int)
    decreases events.len(),
{
    if events.len() == 0 {
        (0, 0)
    } else {
        let d = count_diff(events.drop_last());
        match events.last() {
            StructuralEvent::BlockEntry { .. } => (d.0 + 1, d.1),
            StructuralEvent::BlockExit { .. } => (d.0 - 1, d.1),
            StructuralEvent::FunctionStart { .. } => (d.0, d.1 + 1),
            StructuralEvent::FunctionEnd { .. } => (d.0, d.1 - 1),
            _ => d,
        }
    }
}

/// The validator accepts a stream exactly when no prefix closes more blocks
/// or functions than it opened, and then its depths are the stream's entry
/// and exit count differences; so it is balanced after the stream exactly
/// when entries and exits, and starts and ends, are equal in number.
/// Branches, imports, exports and cursor positions change nothing.
pub proof fn law_validator_depths(events: Seq<StructuralEvent>)
    ensures
        stream_depths(events) is Some <==> forall|k: int| 0 <= k <= events.len() ==> (#[trigger] count_diff(events.take(k))).0 >= 0 && count_diff(events.take(k)).1 >= 0,
        stream_depths(events) matches Some(d) ==> d == count_diff(events),
        balanced_stream(events) <==> (stream_depths(events) is Some && count_diff(events) == (0int, 0int)),
    decreases events.len(),
{
    if events.len() > 0 {
        let prev = events.drop_last();
        law_validator_depths(prev);
        assert forall|k: int| 0 <= k <= prev.len() implies #[trigger] events.take(k) == prev.take(k) by {
            assert(events.take(k) =~= prev.take(k));
        }
        assert(events.take(events.len() as int) =~= events);
        assert(events.take(events.len() as int).drop_last() =~= prev);
        if stream_depths(events) is Some {
            assert forall|k: int| 0 <= k <= events.len() implies (#[trigger] count_diff(events.take(k))).0 >= 0 && count_diff(events.take(k)).1 >= 0 by {
                if k <= prev.len() {
                    assert(events.take(k) == prev.take(k));
                }
            }
        }
        if forall|k: int| 0 <= k <= events.len() ==> (#[trigger] count_diff(events.take(k))).0 >= 0 && count_diff(events.take(k)).1 >= 0 {
            assert forall|k: int| 0 <= k <= prev.len() implies (#[trigger] count_diff(prev.take(k))).0 >= 0 && count_diff(prev.take(k)).1 >= 0 by {
                assert(events.take(k) == prev.take(k));
                assert(count_diff(events.take(k)).0 >= 0);
            }
            assert(count_diff(events.take(events.len() as int)).0 >= 0);
        }
    } else {
        assert(events.take(0) =~= events);
    }
}

/// How many block entries, block exits, function starts and function ends a
/// stream holds.
pub open spec fn tally(events: Seq<StructuralEvent>) -> (nat, nat, nat, nat)
    decreases events.len(),
{
    if events.len() == 0 {
        (0, 0, 0, 0)
    } else {
        let t = tally(events.drop_last());
        match events.last() {
            StructuralEvent::BlockEntry { .. } => (t.0 + 1, t.1, t.2, t.3),
            StructuralEvent::BlockExit { .. } => (t.0, t.1 + 1, t.2, t.3),
            StructuralEvent::FunctionStart { .. } => (t.0, t.1, t.2 + 1, t.3),
            StructuralEvent::FunctionEnd { .. } => (t.0, t.1, t.2, t.3 + 1),
            _ => t,
        }
    }
}

proof fn lemma_count_diff_tally(events: Seq<StructuralEvent>)
    ensures
        count_diff(events) == (tally(events).0 - tally(events).1, tally(events).2 - tally(events).3),
    decreases events.len(),
{
    if events.len() > 0 {
        lemma_count_diff_tally(events.drop_last());
    }
}

/// A validator that has accepted every event of a stream `p` (a fresh one
/// has accepted the empty stream, whose depths are zero): its depths are the
/// entries less the exits and the starts less the ends of `p`, so it is
/// balanced exactly when those numbers match; the next event is refused
/// exactly when it exits a block or ends a function with none open, and
/// otherwise the validator has then accepted `p` and that event; branches,
/// imports, exports and cursor positions change nothing.
pub proof fn law_validator_after_stream(p: Seq<StructuralEvent>, e: StructuralEvent, v: EventValidator)
    requires
        stream_depths(p) == Some(v@),
    ensures
        stream_depths(Seq::<StructuralEvent>::empty()) == Some((0int, 0int)),
        v@ == (tally(p).0 - tally(p).1, tally(p).2 - tally(p).3),
        (v@ == (0int, 0int)) <==> (tally(p).0 == tally(p).1 && tally(p).2 == tally(p).3),
        depth_step(e, v@.0, v@.1) is None <==> ((e is BlockExit && v@.0 == 0) || (e is FunctionEnd && v@.1 == 0)),
        depth_step(e, v@.0, v@.1) matches Some(d) ==> stream_depths(p.push(e)) == Some(d),
        !(e is BlockEntry || e is BlockExit || e is FunctionStart || e is FunctionEnd) ==> depth_step(e, v@.0, v@.1) == Some(v@),
{
    law_validator_depths(p);
    lemma_count_diff_tally(p);
    assert(p.push(e).drop_last() =~= p);
}

/// Every prefix of a stream that the validator accepts keeps both of its
/// depths within `u32`.
pub open spec fn depths_fit(events: Seq<StructuralEvent>) -> bool {
    forall|k: int| 0 <= k <= events.len() ==> match #[trigger] stream_depths(events.take(k)) {
        Some(d) => d.0 <= u32::MAX && d.1 <= u32::MAX,
        None => true,
    }
}

/// A stream of fewer than `u32::MAX` events keeps its depths within `u32`.
pub proof fn lemma_short_depths_fit(events: Seq<StructuralEvent>)
    requires
        events.len() < u32::MAX,
    ensures
        depths_fit(events),
{
    assert forall|k: int| 0 <= k <= events.len() implies match #[trigger] stream_depths(events.take(k)) {
        Some(d) => d.0 <= u32::MAX && d.1 <= u32::MAX,
        None => true,
    } by {
        lemma_depths_bounded(events.take(k));
    }
}

/// A stream never closes what is not open and ends with nothing open.
pub open spec fn balanced_stream(events: Seq<StructuralEvent>) -> bool {
    stream_depths(events) == Some((0int, 0int))
}

/// Event stream validator for well-formed sequences.
#[derive(Debug)]
pub struct EventValidator {
    block_depth: u32,
    function_depth: u32,
}

impl View for EventValidator {
    /// The open blocks and the open functions.
    type V = (int, int);

    closed spec fn view(&self) -> (int, int) {
        (self.block_depth as int, self.function_depth as int)
    }
}

impl EventValidator {
    /// Whether one more event keeps both depths within `u32`.
    pub open spec fn can_take(&self, event: StructuralEvent) -> bool {
        match depth_step(event, self@.0, self@.1) {
            Some(d) => d.0 <= u32::MAX && d.1 <= u32::MAX,
            None => true,
        }
    }

    pub fn new() -> (r: Self)
        ensures
            r@ == (0int, 0int),
    {
        EventValidator { block_depth: 0, function_depth: 0 }
    }

    /// Take one event: an error, with the depths unchanged, when it closes
    /// a block or a function that is not open.
    pub fn validate(&mut self, event: &StructuralEvent) -> (r: Result<(), DomainError>)
        requires
            old(self).can_take(*event),
        ensures
            depth_step(*event, old(self)@.0, old(self)@.1) matches Some(d) ==> r is Ok && final(self)@ == d,
            depth_step(*event, old(self)@.0, old(self)@.1) is None ==> final(self)@ == old(self)@ && (event is BlockExit ==> (r matches Err(DomainError::InvalidSpan(m)) && m@ == "unbalanced block exit"@)) && (event is FunctionEnd ==> (r matches Err(DomainError::InvalidSpan(m)) && m@ == "unbalanced function exit"@)),
    {
        match event {
            StructuralEvent::BlockEntry { .. } => {
                self.block_depth += 1;
            },
            StructuralEvent::BlockExit { .. } => {
                if self.block_depth == 0 {
                    return Err(DomainError::InvalidSpan(owned("unbalanced block exit")));
                }
                self.block_depth -= 1;
            },
            StructuralEvent::FunctionStart { .. } => {
                self.function_depth += 1;
            },
            StructuralEvent::FunctionEnd { .. } => {
                if self.function_depth == 0 {
                    return Err(DomainError::InvalidSpan(owned("unbalanced function exit")));
                }
                self.function_depth -= 1;
            },
            _ => {},
        }
        Ok(())
    }

    pub fn is_balanced(&self) -> (r: bool)
        ensures
            r == (self@ == (0int, 0int)),
    {
        self.block_depth == 0 && self.function_depth == 0
    }
}

impl Default for EventValidator {
    fn default() -> (r: Self)
        ensures
            r@ == (0int, 0int),
    {
        EventValidator::new()
    }
}

/// Depths never exceed the number of events taken.
pub proof fn lemma_depths_bounded(events: Seq<StructuralEvent>)
    ensures
        stream_depths(events) matches Some(d) ==> 0 <= d.0 <= events.len() && 0 <= d.1 <= events.len(),
    decreases events.len(),
{
    if events.len() > 0 {
        lemma_depths_bounded(events.drop_last());
    }
}

} // verus!
