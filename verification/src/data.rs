//! Data-oriented structures: flat parallel arrays for results, a string
//! interner for function names, and the accumulator of the single-pass walk.
use vstd::prelude::*;
use vstd::string::StringExecFns;

verus! {

/// The prime of the rolling fingerprint hash.
pub const FINGERPRINT_PRIME: u64 = 0x100000001b3u64;

/// Accumulator updated during the single-pass syntax walk.
#[derive(Debug, Clone)]
pub struct WalkState {
    // File-level counters
    pub cc: u32,
    pub cognitive: u32,
    pub depth: u32,
    pub max_depth: u32,
    pub imports: u32,
    pub exports: u32,
    pub loc: u32,
    // Function tracking
    pub fn_start_byte: u32,
    pub fn_start_line: u32,
    pub fn_depth_at_start: u32,
    pub fn_cc: u32,
    pub fn_cognitive: u32,
    pub fn_max_depth: u32,
    pub in_function: bool,
    // Cognitive complexity tracking
    pub cognitive_nesting: u32,
    /// `Some(true)` after an AND, `Some(false)` after an OR.
    pub last_bool_op: Option<bool>,
    // Fingerprint accumulator (rolling hash)
    pub fingerprint_hash: u64,
}

pub open spec fn max_u32(a: u32, b: u32) -> u32 {
    if a >= b { a } else { b }
}

/// Leaving a block undoes entering it: the depth is back where it was, and
/// only the maxima may have grown.
pub proof fn law_exit_block_undoes_enter(s: WalkState)
    requires
        s.can_enter_block(),
    ensures
        s.spec_enter_block().spec_exit_block() == (WalkState {
            max_depth: s.spec_enter_block().max_depth,
            fn_max_depth: s.spec_enter_block().fn_max_depth,
            ..s
        }),
        s.spec_enter_block().max_depth >= s.depth + 1,
{
}

/// Leaving a cognitive nesting level undoes entering it.
pub proof fn law_exit_nesting_undoes_enter(s: WalkState)
    requires
        s.cognitive_nesting < u32::MAX,
    ensures
        s.spec_enter_cognitive_nesting().spec_exit_cognitive_nesting() == s,
{
}

/// The deepest depth reached is never below the current depth: entering
/// and leaving blocks, and every other step of the walk, keep it so.
pub proof fn law_max_depth_bounds_depth(s: WalkState, nesting_penalty: bool, start_byte: u32, start_line: u32, kind_hash: u64)
    requires
        s.depth <= s.max_depth,
    ensures
        s.can_enter_block() ==> s.spec_enter_block().depth <= s.spec_enter_block().max_depth,
        s.spec_exit_block().depth <= s.spec_exit_block().max_depth,
        s.spec_record_branch().depth <= s.spec_record_branch().max_depth,
        s.spec_record_cognitive(nesting_penalty).depth <= s.spec_record_cognitive(nesting_penalty).max_depth,
        s.spec_enter_cognitive_nesting().depth <= s.spec_enter_cognitive_nesting().max_depth,
        s.spec_exit_cognitive_nesting().depth <= s.spec_exit_cognitive_nesting().max_depth,
        s.spec_start_function(start_byte, start_line).depth <= s.spec_start_function(start_byte, start_line).max_depth,
        s.spec_end_function().depth <= s.spec_end_function().max_depth,
        s.spec_update_fingerprint(kind_hash).depth <= s.spec_update_fingerprint(kind_hash).max_depth,
{
}

impl WalkState {
    /// The state of a fresh walk: every counter zero, no function, no chain.
    pub open spec fn spec_default() -> WalkState {
        WalkState {
            cc: 0,
            cognitive: 0,
            depth: 0,
            max_depth: 0,
            imports: 0,
            exports: 0,
            loc: 0,
            fn_start_byte: 0,
            fn_start_line: 0,
            fn_depth_at_start: 0,
            fn_cc: 0,
            fn_cognitive: 0,
            fn_max_depth: 0,
            in_function: false,
            cognitive_nesting: 0,
            last_bool_op: None,
            fingerprint_hash: 0,
        }
    }

    /// Whether entering a block keeps every counter in range.
    pub open spec fn can_enter_block(self) -> bool {
        &&& self.depth < u32::MAX
        &&& self.in_function ==> self.depth + 1 >= self.fn_depth_at_start
    }

    pub open spec fn spec_enter_block(self) -> WalkState {
        let depth = (self.depth + 1) as u32;
        WalkState {
            depth,
            max_depth: max_u32(self.max_depth, depth),
            fn_max_depth: if self.in_function {
                max_u32(self.fn_max_depth, (depth - self.fn_depth_at_start) as u32)
            } else {
                self.fn_max_depth
            },
            ..self
        }
    }

    pub open spec fn spec_exit_block(self) -> WalkState {
        WalkState { depth: if self.depth == 0 { 0 } else { (self.depth - 1) as u32 }, ..self }
    }

    pub open spec fn can_record_branch(self) -> bool {
        &&& self.cc < u32::MAX
        &&& self.in_function ==> self.fn_cc < u32::MAX
    }

    pub open spec fn spec_record_branch(self) -> WalkState {
        WalkState {
            cc: (self.cc + 1) as u32,
            fn_cc: if self.in_function { (self.fn_cc + 1) as u32 } else { self.fn_cc },
            ..self
        }
    }

    /// The cognitive increment of one branch.
    pub open spec fn cognitive_increment(self, nesting_penalty: bool) -> int {
        if nesting_penalty { 1 + self.cognitive_nesting } else { 1 }
    }

    pub open spec fn can_record_cognitive(self, nesting_penalty: bool) -> bool {
        let inc = self.cognitive_increment(nesting_penalty);
        &&& self.cognitive + inc <= u32::MAX
        &&& self.in_function ==> self.fn_cognitive + inc <= u32::MAX
    }

    pub open spec fn spec_record_cognitive(self, nesting_penalty: bool) -> WalkState {
        let inc = self.cognitive_increment(nesting_penalty);
        WalkState {
            cognitive: (self.cognitive + inc) as u32,
            fn_cognitive: if self.in_function {
                (self.fn_cognitive + inc) as u32
            } else {
                self.fn_cognitive
            },
            ..self
        }
    }

    pub open spec fn spec_enter_cognitive_nesting(self) -> WalkState {
        WalkState { cognitive_nesting: (self.cognitive_nesting + 1) as u32, ..self }
    }

    pub open spec fn spec_exit_cognitive_nesting(self) -> WalkState {
        WalkState {
            cognitive_nesting: if self.cognitive_nesting == 0 {
                0
            } else {
                (self.cognitive_nesting - 1) as u32
            },
            ..self
        }
    }

    pub open spec fn spec_start_function(self, start_byte: u32, start_line: u32) -> WalkState {
        WalkState {
            in_function: true,
            fn_start_byte: start_byte,
            fn_start_line: start_line,
            fn_depth_at_start: self.depth,
            fn_cc: 1,
            fn_cognitive: 0,
            fn_max_depth: 0,
            fingerprint_hash: 0,
            cognitive_nesting: 0,
            last_bool_op: None,
            ..self
        }
    }

    pub open spec fn spec_end_function(self) -> WalkState {
        WalkState { in_function: false, cognitive_nesting: 0, last_bool_op: None, ..self }
    }

    /// One step of the rolling fingerprint hash.
    pub open spec fn spec_mix(hash: u64, kind_hash: u64) -> u64 {
        hash.wrapping_mul(FINGERPRINT_PRIME) ^ kind_hash
    }

    pub open spec fn spec_update_fingerprint(self, kind_hash: u64) -> WalkState {
        WalkState { fingerprint_hash: Self::spec_mix(self.fingerprint_hash, kind_hash), ..self }
    }

    /// Reset for a new file.
    pub fn reset(&mut self)
        ensures
            *final(self) == WalkState::spec_default(),
    {
        *self = Self::default();
    }

    /// Enter a block scope.
    pub fn enter_block(&mut self)
        requires
            old(self).can_enter_block(),
        ensures
            *final(self) == old(self).spec_enter_block(),
    {
        self.depth += 1;
        if self.depth > self.max_depth {
            self.max_depth = self.depth;
        }
        if self.in_function {
            let d = self.depth - self.fn_depth_at_start;
            if d > self.fn_max_depth {
                self.fn_max_depth = d;
            }
        }
    }

    /// Exit a block scope.
    pub fn exit_block(&mut self)
        ensures
            *final(self) == old(self).spec_exit_block(),
    {
        self.depth = self.depth.saturating_sub(1);
    }

    /// Record a branch (adds to CC).
    pub fn record_branch(&mut self)
        requires
            old(self).can_record_branch(),
        ensures
            *final(self) == old(self).spec_record_branch(),
    {
        self.cc += 1;
        if self.in_function {
            self.fn_cc += 1;
        }
    }

    /// Record cognitive complexity increment.
    pub fn record_cognitive(&mut self, nesting_penalty: bool)
        requires
            old(self).can_record_cognitive(nesting_penalty),
        ensures
            *final(self) == old(self).spec_record_cognitive(nesting_penalty),
    {
        let inc = if nesting_penalty {
            1 + self.cognitive_nesting
        } else {
            1
        };
        self.cognitive += inc;
        if self.in_function {
            self.fn_cognitive += inc;
        }
    }

    /// Enter cognitive nesting level.
    pub fn enter_cognitive_nesting(&mut self)
        requires
            old(self).cognitive_nesting < u32::MAX,
        ensures
            *final(self) == old(self).spec_enter_cognitive_nesting(),
    {
        self.cognitive_nesting += 1;
    }

    /// Exit cognitive nesting level.
    pub fn exit_cognitive_nesting(&mut self)
        ensures
            *final(self) == old(self).spec_exit_cognitive_nesting(),
    {
        self.cognitive_nesting = self.cognitive_nesting.saturating_sub(1);
    }

    /// Record a boolean operator (for cognitive complexity chains).
    /// Returns true if this is a new sequence (adds complexity).
    pub fn record_bool_op(&mut self, is_and: bool) -> (is_new: bool)
        ensures
            is_new == (old(self).last_bool_op != Some(is_and)),
            *final(self) == (WalkState { last_bool_op: Some(is_and), ..*old(self) }),
    {
        let is_new = match self.last_bool_op {
            Some(b) => b != is_and,
            None => true,
        };
        self.last_bool_op = Some(is_and);
        is_new
    }

    /// Reset boolean operator chain.
    pub fn reset_bool_chain(&mut self)
        ensures
            *final(self) == (WalkState { last_bool_op: None, ..*old(self) }),
    {
        self.last_bool_op = None;
    }

    /// Start tracking a function.
    pub fn start_function(&mut self, start_byte: u32, start_line: u32)
        ensures
            *final(self) == old(self).spec_start_function(start_byte, start_line),
    {
        self.in_function = true;
        self.fn_start_byte = start_byte;
        self.fn_start_line = start_line;
        self.fn_depth_at_start = self.depth;
        self.fn_cc = 1;
        self.fn_cognitive = 0;
        self.fn_max_depth = 0;
        self.fingerprint_hash = 0;
        self.cognitive_nesting = 0;
        self.last_bool_op = None;
    }

    /// End function tracking, returns (cc, cognitive, max_depth, fingerprint).
    pub fn end_function(&mut self) -> (r: (u32, u32, u32, u64))
        ensures
            r == (old(self).fn_cc, old(self).fn_cognitive, old(self).fn_max_depth, old(
                self,
            ).fingerprint_hash),
            *final(self) == old(self).spec_end_function(),
    {
        self.in_function = false;
        let result = (self.fn_cc, self.fn_cognitive, self.fn_max_depth, self.fingerprint_hash);
        self.cognitive_nesting = 0;
        self.last_bool_op = None;
        result
    }

    /// Update rolling fingerprint hash.
    pub fn update_fingerprint(&mut self, kind_hash: u64)
        ensures
            *final(self) == old(self).spec_update_fingerprint(kind_hash),
    {
        self.fingerprint_hash = self.fingerprint_hash.wrapping_mul(FINGERPRINT_PRIME);
        self.fingerprint_hash ^= kind_hash;
    }
}

impl Default for WalkState {
    fn default() -> (r: Self)
        ensures
            r == WalkState::spec_default(),
    {
        WalkState {
            cc: 0,
            cognitive: 0,
            depth: 0,
            max_depth: 0,
            imports: 0,
            exports: 0,
            loc: 0,
            fn_start_byte: 0,
            fn_start_line: 0,
            fn_depth_at_start: 0,
            fn_cc: 0,
            fn_cognitive: 0,
            fn_max_depth: 0,
            in_function: false,
            cognitive_nesting: 0,
            last_bool_op: None,
            fingerprint_hash: 0,
        }
    }
}

/// Function data collected during analysis.
#[derive(Debug, Clone)]
pub struct FunctionData {
    pub name: Option<String>,
    pub start_line: u32,
    pub end_line: u32,
    pub loc: u32,
    pub cc: u32,
    pub cognitive: u32,
    pub depth: u32,
    pub fingerprint: u64,
}


/// The sum of a sequence of counters.
pub open spec fn seq_sum(s: Seq<u32>) -> int
    decreases s.len(),
{
    if s.len() == 0 {
        0
    } else {
        seq_sum(s.drop_last()) + s.last()
    }
}

/// The largest of a sequence of counters, 0 for an empty one.
pub open spec fn seq_max(s: Seq<u32>) -> u32
    decreases s.len(),
{
    if s.len() == 0 {
        0
    } else {
        max_u32(seq_max(s.drop_last()), s.last())
    }
}

/// The structural results of one file: everything of a [`SingleFileResult`]
/// but the maintainability index, together with the sum of the functions'
/// line counts from which that index is estimated.
#[derive(Debug, Clone)]
pub struct FileStructure {
    pub path: String,
    pub loc: u32,
    pub cc_max: u32,
    pub cc_sum: u32,
    pub cognitive_max: u32,
    pub cognitive_sum: u32,
    pub depth_max: u32,
    pub imports: u32,
    pub exports: u32,
    pub function_count: u32,
    pub dup_count: u32,
    pub fn_loc_sum: u32,
    pub functions: Vec<FunctionData>,
}

/// Single file analysis result (used during parallel collection).
#[derive(Debug, Clone)]
pub struct SingleFileResult {
    pub path: String,
    pub loc: u32,
    pub cc_max: u32,
    pub cc_sum: u32,
    pub cognitive_max: u32,
    pub cognitive_sum: u32,
    pub depth_max: u32,
    pub imports: u32,
    pub exports: u32,
    pub mi: u8,
    pub function_count: u32,
    pub dup_count: u32,
    pub functions: Vec<FunctionData>,
}

impl SingleFileResult {
    /// Completes a file's structural results with its maintainability index.
    pub fn new(s: FileStructure, mi: u8) -> (r: SingleFileResult)
        ensures
            r.path@ == s.path@,
            r.loc == s.loc,
            r.cc_max == s.cc_max,
            r.cc_sum == s.cc_sum,
            r.cognitive_max == s.cognitive_max,
            r.cognitive_sum == s.cognitive_sum,
            r.depth_max == s.depth_max,
            r.imports == s.imports,
            r.exports == s.exports,
            r.mi == mi,
            r.function_count == s.function_count,
            r.dup_count == s.dup_count,
            r.functions@ == s.functions@,
    {
        SingleFileResult {
            path: s.path,
            loc: s.loc,
            cc_max: s.cc_max,
            cc_sum: s.cc_sum,
            cognitive_max: s.cognitive_max,
            cognitive_sum: s.cognitive_sum,
            depth_max: s.depth_max,
            imports: s.imports,
            exports: s.exports,
            mi,
            function_count: s.function_count,
            dup_count: s.dup_count,
            functions: s.functions,
        }
    }
}

/// Per-file results stored in parallel arrays, one entry per file.
#[derive(Debug)]
pub struct FileResults {
    pub paths: Vec<String>,
    pub loc: Vec<u32>,
    pub cc_max: Vec<u32>,
    pub cc_sum: Vec<u32>,
    pub cognitive_max: Vec<u32>,
    pub cognitive_sum: Vec<u32>,
    pub depth_max: Vec<u32>,
    pub imports: Vec<u32>,
    pub exports: Vec<u32>,
    /// Maintainability index, 0 to 100.
    pub mi: Vec<u8>,
    pub function_count: Vec<u32>,
    pub dup_count: Vec<u32>,
}

impl FileResults {
    /// Every array holds one entry per file.
    pub open spec fn wf(&self) -> bool {
        let n = self.paths@.len();
        &&& self.loc@.len() == n
        &&& self.cc_max@.len() == n
        &&& self.cc_sum@.len() == n
        &&& self.cognitive_max@.len() == n
        &&& self.cognitive_sum@.len() == n
        &&& self.depth_max@.len() == n
        &&& self.imports@.len() == n
        &&& self.exports@.len() == n
        &&& self.mi@.len() == n
        &&& self.function_count@.len() == n
        &&& self.dup_count@.len() == n
    }

    /// No files.
    pub open spec fn is_empty_spec(&self) -> bool {
        &&& self.paths@.len() == 0
        &&& self.wf()
    }

    pub fn with_capacity(cap: usize) -> (r: Self)
        ensures
            r.is_empty_spec(),
    {
        FileResults {
            paths: Vec::with_capacity(cap),
            loc: Vec::with_capacity(cap),
            cc_max: Vec::with_capacity(cap),
            cc_sum: Vec::with_capacity(cap),
            cognitive_max: Vec::with_capacity(cap),
            cognitive_sum: Vec::with_capacity(cap),
            depth_max: Vec::with_capacity(cap),
            imports: Vec::with_capacity(cap),
            exports: Vec::with_capacity(cap),
            mi: Vec::with_capacity(cap),
            function_count: Vec::with_capacity(cap),
            dup_count: Vec::with_capacity(cap),
        }
    }

    /// The number of files.
    pub fn len(&self) -> (r: usize)
        ensures
            r == self.paths@.len(),
    {
        self.paths.len()
    }

    pub fn is_empty(&self) -> (r: bool)
        ensures
            r == (self.paths@.len() == 0),
    {
        self.paths.len() == 0
    }

    /// Push a complete file result. All arrays grow together.
    pub fn push(
        &mut self,
        path: String,
        loc: u32,
        cc_max: u32,
        cc_sum: u32,
        cognitive_max: u32,
        cognitive_sum: u32,
        depth_max: u32,
        imports: u32,
        exports: u32,
        mi: u8,
        function_count: u32,
        dup_count: u32,
    )
        ensures
            old(self).wf() ==> final(self).wf(),
            final(self).paths@ == old(self).paths@.push(path),
            final(self).loc@ == old(self).loc@.push(loc),
            final(self).cc_max@ == old(self).cc_max@.push(cc_max),
            final(self).cc_sum@ == old(self).cc_sum@.push(cc_sum),
            final(self).cognitive_max@ == old(self).cognitive_max@.push(cognitive_max),
            final(self).cognitive_sum@ == old(self).cognitive_sum@.push(cognitive_sum),
            final(self).depth_max@ == old(self).depth_max@.push(depth_max),
            final(self).imports@ == old(self).imports@.push(imports),
            final(self).exports@ == old(self).exports@.push(exports),
            final(self).mi@ == old(self).mi@.push(mi),
            final(self).function_count@ == old(self).function_count@.push(function_count),
            final(self).dup_count@ == old(self).dup_count@.push(dup_count),
    {
        self.paths.push(path);
        self.loc.push(loc);
        self.cc_max.push(cc_max);
        self.cc_sum.push(cc_sum);
        self.cognitive_max.push(cognitive_max);
        self.cognitive_sum.push(cognitive_sum);
        self.depth_max.push(depth_max);
        self.imports.push(imports);
        self.exports.push(exports);
        self.mi.push(mi);
        self.function_count.push(function_count);
        self.dup_count.push(dup_count);
    }

    /// Merge another `FileResults` after this one.
    pub fn extend(&mut self, other: Self)
        ensures
            old(self).wf() && other.wf() ==> final(self).wf(),
            final(self).paths@ == old(self).paths@ + other.paths@,
            final(self).loc@ == old(self).loc@ + other.loc@,
            final(self).cc_max@ == old(self).cc_max@ + other.cc_max@,
            final(self).cc_sum@ == old(self).cc_sum@ + other.cc_sum@,
            final(self).cognitive_max@ == old(self).cognitive_max@ + other.cognitive_max@,
            final(self).cognitive_sum@ == old(self).cognitive_sum@ + other.cognitive_sum@,
            final(self).depth_max@ == old(self).depth_max@ + other.depth_max@,
            final(self).imports@ == old(self).imports@ + other.imports@,
            final(self).exports@ == old(self).exports@ + other.exports@,
            final(self).mi@ == old(self).mi@ + other.mi@,
            final(self).function_count@ == old(self).function_count@ + other.function_count@,
            final(self).dup_count@ == old(self).dup_count@ + other.dup_count@,
    {
        let mut other = other;
        self.paths.append(&mut other.paths);
        self.loc.append(&mut other.loc);
        self.cc_max.append(&mut other.cc_max);
        self.cc_sum.append(&mut other.cc_sum);
        self.cognitive_max.append(&mut other.cognitive_max);
        self.cognitive_sum.append(&mut other.cognitive_sum);
        self.depth_max.append(&mut other.depth_max);
        self.imports.append(&mut other.imports);
        self.exports.append(&mut other.exports);
        self.mi.append(&mut other.mi);
        self.function_count.append(&mut other.function_count);
        self.dup_count.append(&mut other.dup_count);
    }

    /// The range of file indices.
    pub fn indices(&self) -> (r: std::ops::Range<usize>)
        ensures
            r.start == 0,
            r.end == self.paths@.len(),
    {
        0..self.paths.len()
    }
}

impl Default for FileResults {
    fn default() -> (r: Self)
        ensures
            r.is_empty_spec(),
    {
        FileResults::with_capacity(0)
    }
}

/// Per-function results for function-level commands, in parallel arrays;
/// each function refers to its file by index and to its name by a place in
/// the string interner.
#[derive(Debug)]
pub struct FunctionResults {
    pub file_idx: Vec<u32>,
    pub name_offset: Vec<u32>,
    pub name_len: Vec<u16>,
    pub start_line: Vec<u32>,
    pub end_line: Vec<u32>,
    pub loc: Vec<u32>,
    pub cc: Vec<u32>,
    pub cognitive: Vec<u32>,
    pub depth: Vec<u32>,
    /// For cross-file duplicate detection.
    pub fingerprint: Vec<u64>,
}

impl FunctionResults {
    /// Every array holds one entry per function.
    pub open spec fn wf(&self) -> bool {
        let n = self.file_idx@.len();
        &&& self.name_offset@.len() == n
        &&& self.name_len@.len() == n
        &&& self.start_line@.len() == n
        &&& self.end_line@.len() == n
        &&& self.loc@.len() == n
        &&& self.cc@.len() == n
        &&& self.cognitive@.len() == n
        &&& self.depth@.len() == n
        &&& self.fingerprint@.len() == n
    }

    /// No functions.
    pub open spec fn is_empty_spec(&self) -> bool {
        &&& self.file_idx@.len() == 0
        &&& self.wf()
    }

    pub fn with_capacity(cap: usize) -> (r: Self)
        ensures
            r.is_empty_spec(),
    {
        FunctionResults {
            file_idx: Vec::with_capacity(cap),
            name_offset: Vec::with_capacity(cap),
            name_len: Vec::with_capacity(cap),
            start_line: Vec::with_capacity(cap),
            end_line: Vec::with_capacity(cap),
            loc: Vec::with_capacity(cap),
            cc: Vec::with_capacity(cap),
            cognitive: Vec::with_capacity(cap),
            depth: Vec::with_capacity(cap),
            fingerprint: Vec::with_capacity(cap),
        }
    }

    /// The number of functions.
    pub fn len(&self) -> (r: usize)
        ensures
            r == self.file_idx@.len(),
    {
        self.file_idx.len()
    }

    pub fn is_empty(&self) -> (r: bool)
        ensures
            r == (self.file_idx@.len() == 0),
    {
        self.file_idx.len() == 0
    }

    /// Push a complete function result.
    pub fn push(
        &mut self,
        file_idx: u32,
        name_offset: u32,
        name_len: u16,
        start_line: u32,
        end_line: u32,
        loc: u32,
        cc: u32,
        cognitive: u32,
        depth: u32,
        fingerprint: u64,
    )
        ensures
            old(self).wf() ==> final(self).wf(),
            final(self).file_idx@ == old(self).file_idx@.push(file_idx),
            final(self).name_offset@ == old(self).name_offset@.push(name_offset),
            final(self).name_len@ == old(self).name_len@.push(name_len),
            final(self).start_line@ == old(self).start_line@.push(start_line),
            final(self).end_line@ == old(self).end_line@.push(end_line),
            final(self).loc@ == old(self).loc@.push(loc),
            final(self).cc@ == old(self).cc@.push(cc),
            final(self).cognitive@ == old(self).cognitive@.push(cognitive),
            final(self).depth@ == old(self).depth@.push(depth),
            final(self).fingerprint@ == old(self).fingerprint@.push(fingerprint),
    {
        self.file_idx.push(file_idx);
        self.name_offset.push(name_offset);
        self.name_len.push(name_len);
        self.start_line.push(start_line);
        self.end_line.push(end_line);
        self.loc.push(loc);
        self.cc.push(cc);
        self.cognitive.push(cognitive);
        self.depth.push(depth);
        self.fingerprint.push(fingerprint);
    }

    /// Merge another `FunctionResults` after this one.
    pub fn extend(&mut self, other: Self)
        ensures
            old(self).wf() && other.wf() ==> final(self).wf(),
            final(self).file_idx@ == old(self).file_idx@ + other.file_idx@,
            final(self).name_offset@ == old(self).name_offset@ + other.name_offset@,
            final(self).name_len@ == old(self).name_len@ + other.name_len@,
            final(self).start_line@ == old(self).start_line@ + other.start_line@,
            final(self).end_line@ == old(self).end_line@ + other.end_line@,
            final(self).loc@ == old(self).loc@ + other.loc@,
            final(self).cc@ == old(self).cc@ + other.cc@,
            final(self).cognitive@ == old(self).cognitive@ + other.cognitive@,
            final(self).depth@ == old(self).depth@ + other.depth@,
            final(self).fingerprint@ == old(self).fingerprint@ + other.fingerprint@,
    {
        let mut other = other;
        self.file_idx.append(&mut other.file_idx);
        self.name_offset.append(&mut other.name_offset);
        self.name_len.append(&mut other.name_len);
        self.start_line.append(&mut other.start_line);
        self.end_line.append(&mut other.end_line);
        self.loc.append(&mut other.loc);
        self.cc.append(&mut other.cc);
        self.cognitive.append(&mut other.cognitive);
        self.depth.append(&mut other.depth);
        self.fingerprint.append(&mut other.fingerprint);
    }

    /// The range of function indices.
    pub fn indices(&self) -> (r: std::ops::Range<usize>)
        ensures
            r.start == 0,
            r.end == self.file_idx@.len(),
    {
        0..self.file_idx.len()
    }
}

impl Default for FunctionResults {
    fn default() -> (r: Self)
        ensures
            r.is_empty_spec(),
    {
        FunctionResults::with_capacity(0)
    }
}

/// The UTF-8 encoding of a character sequence.
pub open spec fn utf8_bytes(s: Seq<char>) -> Seq<u8> {
    vstd::utf8::encode_utf8(s)
}

/// `piece` stands in `data` at byte `offset` and spans `len` bytes.
pub open spec fn delimits(data: Seq<char>, offset: int, len: int, piece: Seq<char>) -> bool {
    exists|before: Seq<char>, after: Seq<char>|
        #![trigger before + piece + after]
        data == before + piece + after && utf8_bytes(before).len() == offset && utf8_bytes(piece).len() == len
}

/// Encoding distributes over concatenation.
pub proof fn lemma_utf8_concat(a: Seq<char>, b: Seq<char>)
    ensures
        utf8_bytes(a + b) == utf8_bytes(a) + utf8_bytes(b),
    decreases a.len(),
{
    if a.len() == 0 {
        assert(a + b =~= b);
        assert(utf8_bytes(a) =~= Seq::<u8>::empty());
        assert(utf8_bytes(a) + utf8_bytes(b) =~= utf8_bytes(b));
    } else {
        lemma_utf8_concat(a.drop_first(), b);
        assert((a + b).drop_first() =~= a.drop_first() + b);
        assert((a + b)[0] == a[0]);
        assert(vstd::utf8::encode_scalar(a[0] as u32) + (utf8_bytes(a.drop_first()) + utf8_bytes(b)) =~= (vstd::utf8::encode_scalar(a[0] as u32) + utf8_bytes(a.drop_first())) + utf8_bytes(b));
    }
}

/// The end of the encoding of a prefix is a character boundary.
proof fn lemma_boundary_after(a: Seq<char>, b: Seq<char>)
    ensures
        vstd::utf8::valid_utf8(utf8_bytes(a + b)),
        vstd::utf8::is_char_boundary(utf8_bytes(a + b), utf8_bytes(a).len() as int),
    decreases a.len(),
{
    vstd::utf8::encode_utf8_valid_utf8(a + b);
    if a.len() == 0 {
        assert(utf8_bytes(a) =~= Seq::<u8>::empty());
    } else {
        let ab = a + b;
        assert(ab.drop_first() =~= a.drop_first() + b);
        assert(ab[0] == a[0]);
        lemma_boundary_after(a.drop_first(), b);
        vstd::utf8::encode_utf8_first_scalar(ab);
        let bytes = utf8_bytes(ab);
        let first = vstd::utf8::encode_scalar(ab[0] as u32);
        assert(bytes == first + utf8_bytes(ab.drop_first()));
        assert(vstd::utf8::pop_first_scalar(bytes) =~= utf8_bytes(ab.drop_first()));
        assert(utf8_bytes(a) == first + utf8_bytes(a.drop_first()));
        lemma_utf8_concat(a, b);
        assert(utf8_bytes(a).len() > 0) by {
            assert(first.len() > 0);
        }
    }
}

/// Encoding is one to one.
pub proof fn lemma_utf8_injective(a: Seq<char>, b: Seq<char>)
    requires
        utf8_bytes(a) == utf8_bytes(b),
    ensures
        a == b,
{
    vstd::utf8::encode_utf8_decode_utf8(a);
    vstd::utf8::encode_utf8_decode_utf8(b);
}

/// Interning more text keeps every stored piece where it stands, so names
/// interned earlier stay readable.
pub proof fn lemma_delimits_append(data: Seq<char>, offset: int, len: int, piece: Seq<char>, more: Seq<char>)
    requires
        delimits(data, offset, len, piece),
    ensures
        delimits(data + more, offset, len, piece),
{
    let (before, after) = choose|before: Seq<char>, after: Seq<char>|
        #![trigger before + piece + after]
        data == before + piece + after && utf8_bytes(before).len() == offset && utf8_bytes(piece).len() == len;
    assert(data + more =~= before + piece + (after + more));
}

/// Text appended at the end stands at the old end.
pub proof fn lemma_delimits_appended(data: Seq<char>, piece: Seq<char>)
    ensures
        delimits(data + piece, utf8_bytes(data).len() as int, utf8_bytes(piece).len() as int, piece),
{
    let after = Seq::<char>::empty();
    assert(data + piece =~= data + piece + after);
}

/// The bytes of a delimited piece, and the boundaries around it.
proof fn lemma_delimited_bytes(data: Seq<char>, offset: int, len: int, piece: Seq<char>)
    requires
        delimits(data, offset, len, piece),
    ensures
        vstd::utf8::valid_utf8(utf8_bytes(data)),
        offset + len <= utf8_bytes(data).len(),
        utf8_bytes(piece) == utf8_bytes(data).subrange(offset, offset + len),
{
    let (before, after) = choose|before: Seq<char>, after: Seq<char>|
        #![trigger before + piece + after]
        data == before + piece + after && utf8_bytes(before).len() == offset && utf8_bytes(piece).len() == len;
    vstd::utf8::encode_utf8_valid_utf8(data);
    lemma_utf8_concat(before, piece + after);
    lemma_utf8_concat(piece, after);
    assert(before + piece + after =~= before + (piece + after));
    assert(utf8_bytes(data) =~= utf8_bytes(before) + (utf8_bytes(piece) + utf8_bytes(after)));
    assert(utf8_bytes(piece) =~= utf8_bytes(data).subrange(offset, offset + len));
}

/// A stored name reads back as it was stored: two pieces that the same
/// offset and length delimit in the same buffer are equal, so `get` on what
/// `intern` returned gives back the interned name.
pub proof fn law_interned_name_reads_back(data: Seq<char>, offset: int, len: int, stored: Seq<char>, read: Seq<char>)
    requires
        delimits(data, offset, len, stored),
        delimits(data, offset, len, read),
    ensures
        read == stored,
{
    lemma_delimited_bytes(data, offset, len, stored);
    lemma_delimited_bytes(data, offset, len, read);
    lemma_utf8_injective(read, stored);
}

/// The part of a name that the interner keeps: all of it, or its first
/// 65535 bytes when it is longer.
pub open spec fn name_prefix(s: Seq<char>) -> Seq<char> {
    if utf8_bytes(s).len() <= 65535 {
        s
    } else {
        vstd::utf8::decode_utf8(utf8_bytes(s).take(65535))
    }
}

/// String interning for function names: all names in one buffer.
#[derive(Debug)]
pub struct StringInterner {
    data: String,
}

impl View for StringInterner {
    type V = Seq<char>;

    /// The characters stored so far.
    closed spec fn view(&self) -> Seq<char> {
        self.data@
    }
}

impl StringInterner {
    pub fn with_capacity(cap: usize) -> (r: Self)
        ensures
            r@ == Seq::<char>::empty(),
    {
        StringInterner { data: String::with_capacity(cap) }
    }

    /// Intern a string, returning the byte offset and byte length at which
    /// it is stored. Names longer than 65535 bytes are cut to their first
    /// 65535 bytes, which must end on a character boundary.
    pub fn intern(&mut self, s: &str) -> (r: (u32, u16))
        requires
            utf8_bytes(s@).len() <= usize::MAX,
            utf8_bytes(s@).len() <= 65535 || vstd::utf8::is_char_boundary(utf8_bytes(s@), 65535),
        ensures
            final(self)@ == old(self)@ + name_prefix(s@),
            r.0 == (utf8_bytes(old(self)@).len() as usize) as u32,
            r.1 == (if utf8_bytes(s@).len() <= 65535 { utf8_bytes(s@).len() } else { 65535 }),
            utf8_bytes(name_prefix(s@)).len() == r.1,
            utf8_bytes(old(self)@).len() <= u32::MAX ==> delimits(final(self)@, r.0 as int, r.1 as int, name_prefix(s@)),
    {
        let offset = self.data.as_str().len() as u32;
        let n = s.len();
        let len: u16 = if n < 65535 { n as u16 } else { 65535 };
        proof {
            vstd::utf8::encode_utf8_valid_utf8(s@);
            vstd::utf8::is_char_boundary_start_end_of_seq(utf8_bytes(s@));
        }
        let (prefix, _) = s.split_at(len as usize);
        proof {
            let bytes = utf8_bytes(s@);
            vstd::utf8::encode_utf8_decode_utf8(prefix@);
            if bytes.len() <= 65535 {
                assert(bytes.subrange(0, len as int) =~= bytes);
                vstd::utf8::encode_utf8_decode_utf8(s@);
                lemma_utf8_injective(prefix@, s@);
            } else {
                assert(bytes.subrange(0, len as int) =~= bytes.take(65535));
            }
            assert(prefix@ == name_prefix(s@));
            lemma_delimits_appended(self.data@, prefix@);
        }
        self.data.append(prefix);
        (offset, len)
    }

    /// Retrieve a string by byte offset and byte length: the piece of the
    /// buffer that they delimit.
    pub fn get(&self, offset: u32, len: u16) -> (r: &str)
        requires
            exists|piece: Seq<char>| delimits(self@, offset as int, len as int, piece),
        ensures
            delimits(self@, offset as int, len as int, r@),
            utf8_bytes(r@) == utf8_bytes(self@).subrange(offset as int, offset + len),
    {
        let start = offset as usize;
        let l = len as usize;
        let whole = self.data.as_str();
        let ghost piece = choose|piece: Seq<char>| delimits(self@, offset as int, len as int, piece);
        let ghost (before, after) = choose|before: Seq<char>, after: Seq<char>|
            #![trigger before + piece + after]
            self@ == before + piece + after && utf8_bytes(before).len() == offset && utf8_bytes(piece).len() == len;
        proof {
            assert(before + piece + after =~= before + (piece + after));
            lemma_boundary_after(before, piece + after);
            lemma_utf8_concat(before, piece + after);
            lemma_delimited_bytes(self@, offset as int, len as int, piece);
        }
        let (_, tail) = whole.split_at(start);
        proof {
            assert(utf8_bytes(tail@) =~= utf8_bytes(piece + after));
            lemma_utf8_injective(tail@, piece + after);
            lemma_boundary_after(piece, after);
        }
        let (r, _) = tail.split_at(l);
        proof {
            lemma_utf8_concat(piece, after);
            assert(utf8_bytes(r@) =~= utf8_bytes(piece));
            lemma_utf8_injective(r@, piece);
        }
        r
    }

    /// Total bytes stored.
    pub fn len(&self) -> (r: usize)
        ensures
            r == utf8_bytes(self@).len() as usize,
    {
        self.data.as_str().len()
    }

    pub fn is_empty(&self) -> (r: bool)
        ensures
            r == (self@.len() == 0),
    {
        self.data.as_str().is_empty()
    }
}

impl Default for StringInterner {
    fn default() -> (r: Self)
        ensures
            r@ == Seq::<char>::empty(),
    {
        StringInterner { data: String::new() }
    }
}

} // verus!
