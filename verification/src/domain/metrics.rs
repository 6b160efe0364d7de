//! Quality metrics: value objects for computed code-quality measures, the
//! deterministic outputs of the structural analysis.
//!
//! Ratios that the metrics compare with a threshold are compared exactly, in
//! integers: a density above 0.2 is `5 * cc_sum > loc`, a stability below 0.5
//! is `2 * fan_out < fan_in + fan_out`, a complexity per line above 0.3 is
//! `10 * cc > 3 * loc`.
use vstd::prelude::*;
use crate::domain::primitives::{BytePos, DomainError, Span};
use crate::text::owned;

verus! {

/// Maintainability index, a whole number from 0 to 100.
#[derive(Debug, Clone, Copy, PartialEq, Eq, Structural, PartialOrd, Ord)]
pub struct MaintainabilityIndex(u8);

impl View for MaintainabilityIndex {
    type V = u8;

    closed spec fn view(&self) -> u8 {
        self.0
    }
}

/// The index that a whole value clamps to.
pub open spec fn clamp_index(v: int) -> u8 {
    if v < 0 {
        0
    } else if v > 100 {
        100
    } else {
        v as u8
    }
}

impl MaintainabilityIndex {
    /// The index always lies in `0..=100`.
    #[verifier::type_invariant]
    spec fn in_range(self) -> bool {
        self.0 <= 100
    }

    /// The index of a value given by its whole part: `None` stands for a
    /// value that is not a finite number and is an error; otherwise the
    /// value is clamped to `0..=100`.
    pub fn from_whole(whole: Option<i64>) -> (r: Result<Self, DomainError>)
        ensures
            whole matches Some(v) ==> (r matches Ok(mi) && mi@ == clamp_index(v as int)),
            whole is None ==> (r matches Err(DomainError::InvalidSpan(m)) && m@ == "invalid maintainability index"@),
    {
        match whole {
            None => Err(DomainError::InvalidSpan(owned("invalid maintainability index"))),
            Some(v) => {
                let c: u8 = if v < 0 {
                    0
                } else if v > 100 {
                    100
                } else {
                    v as u8
                };
                Ok(MaintainabilityIndex(c))
            },
        }
    }

    pub fn as_u8(self) -> (r: u8)
        ensures
            r == self@,
            r <= 100,
    {
        proof {
            use_type_invariant(&self);
        }
        self.0
    }

    pub fn is_excellent(self) -> (r: bool)
        ensures
            r == (self@ >= 85),
    {
        self.0 >= 85
    }

    pub fn is_good(self) -> (r: bool)
        ensures
            r == (self@ >= 70),
    {
        self.0 >= 70
    }

    pub fn is_moderate(self) -> (r: bool)
        ensures
            r == (self@ >= 50),
    {
        self.0 >= 50
    }

    pub fn is_poor(self) -> (r: bool)
        ensures
            r == (self@ < 50),
    {
        self.0 < 50
    }
}

/// Structural hash for duplication detection.
#[derive(Debug, Clone, Copy, PartialEq, Eq, Structural, Hash)]
pub struct StructuralFingerprint(u64);

impl View for StructuralFingerprint {
    type V = u64;

    closed spec fn view(&self) -> u64 {
        self.0
    }
}

impl StructuralFingerprint {
    pub fn new(hash: u64) -> (r: Self)
        ensures
            r@ == hash,
    {
        StructuralFingerprint(hash)
    }

    pub fn as_u64(self) -> (r: u64)
        ensures
            r == self@,
    {
        self.0
    }

    pub fn from_structure(structure_hash: u64) -> (r: Self)
        ensures
            r@ == structure_hash,
    {
        Self::new(structure_hash)
    }
}

/// Aggregate measures of a whole source file.
#[derive(Debug, Clone, Copy, PartialEq, Eq, Structural)]
pub struct FileMetrics {
    pub loc: u32,
    pub cc_max: u32,
    pub cc_sum: u32,
    pub cognitive_max: u32,
    pub cognitive_sum: u32,
    pub depth_max: u32,
    pub fan_in: u32,
    pub fan_out: u32,
    pub exports: u32,
    pub mi: MaintainabilityIndex,
    pub dup_blocks: u32,
    pub functions_count: u32,
}

/// The file metrics with the given fields.
pub open spec fn file_metrics_of(
    loc: u32,
    cc_max: u32,
    cc_sum: u32,
    cognitive_max: u32,
    cognitive_sum: u32,
    depth_max: u32,
    fan_in: u32,
    fan_out: u32,
    exports: u32,
    mi: MaintainabilityIndex,
    dup_blocks: u32,
    functions_count: u32,
) -> FileMetrics {
    FileMetrics { loc, cc_max, cc_sum, cognitive_max, cognitive_sum, depth_max, fan_in, fan_out, exports, mi, dup_blocks, functions_count }
}

impl FileMetrics {
    /// File metrics from their fields: an error when a maximum exceeds the
    /// matching sum (cyclomatic first, then cognitive).
    pub fn new(
        loc: u32,
        cc_max: u32,
        cc_sum: u32,
        cognitive_max: u32,
        cognitive_sum: u32,
        depth_max: u32,
        fan_in: u32,
        fan_out: u32,
        exports: u32,
        mi: MaintainabilityIndex,
        dup_blocks: u32,
        functions_count: u32,
    ) -> (r: Result<Self, DomainError>)
        ensures
            cc_max > cc_sum ==> (r matches Err(DomainError::InvalidSpan(m)) && m@ == "max complexity exceeds sum"@),
            cc_max <= cc_sum && cognitive_max > cognitive_sum ==> (r matches Err(DomainError::InvalidSpan(m)) && m@ == "max cognitive complexity exceeds sum"@),
            cc_max <= cc_sum && cognitive_max <= cognitive_sum ==> r == Ok::<FileMetrics, DomainError>(file_metrics_of(loc, cc_max, cc_sum, cognitive_max, cognitive_sum, depth_max, fan_in, fan_out, exports, mi, dup_blocks, functions_count)),
    {
        if cc_max > cc_sum {
            return Err(DomainError::InvalidSpan(owned("max complexity exceeds sum")));
        }
        if cognitive_max > cognitive_sum {
            return Err(DomainError::InvalidSpan(owned("max cognitive complexity exceeds sum")));
        }
        Ok(FileMetrics { loc, cc_max, cc_sum, cognitive_max, cognitive_sum, depth_max, fan_in, fan_out, exports, mi, dup_blocks, functions_count })
    }

    /// The same metrics with another fan-in.
    pub fn with_fan_in(self, fan_in: u32) -> (r: Self)
        ensures
            r == (FileMetrics { fan_in, ..self }),
    {
        let mut m = self;
        m.fan_in = fan_in;
        m
    }

    /// A maximum above 10, or more than one branch per five lines.
    pub fn is_high_complexity(&self) -> (r: bool)
        ensures
            r == (self.cc_max > 10 || (self.loc > 0 && 5 * self.cc_sum > self.loc)),
    {
        self.cc_max > 10 || (self.loc > 0 && 5 * (self.cc_sum as u64) > self.loc as u64)
    }

    pub fn is_deeply_nested(&self) -> (r: bool)
        ensures
            r == (self.depth_max > 5),
    {
        self.depth_max > 5
    }

    pub fn has_high_fan_out(&self) -> (r: bool)
        ensures
            r == (self.fan_out > 20),
    {
        self.fan_out > 20
    }

    /// Fewer outgoing than half of all dependencies; a file with none is stable.
    pub fn is_stable(&self) -> (r: bool)
        requires
            self.fan_in + self.fan_out <= u32::MAX,
        ensures
            r == (self.fan_in + self.fan_out == 0 || 2 * self.fan_out < self.fan_in + self.fan_out),
    {
        let total = self.fan_in + self.fan_out;
        total == 0 || 2 * (self.fan_out as u64) < total as u64
    }
}

/// Measures of one function or block.
#[derive(Debug, Clone, PartialEq)]
pub struct NodeMetrics {
    pub name: Option<String>,
    pub span: Span,
    pub loc: u32,
    pub cc: u32,
    pub cognitive: u32,
    pub depth: u32,
    pub fingerprint: StructuralFingerprint,
}

impl NodeMetrics {
    /// Node metrics from their fields: an error when the line count, the
    /// complexity or the cognitive complexity is zero (checked in that order).
    pub fn new(
        name: Option<String>,
        span: Span,
        loc: u32,
        cc: u32,
        cognitive: u32,
        depth: u32,
        fingerprint: StructuralFingerprint,
    ) -> (r: Result<Self, DomainError>)
        ensures
            loc == 0 ==> (r matches Err(DomainError::InvalidSpan(m)) && m@ == "node LOC cannot be zero"@),
            loc != 0 && cc == 0 ==> (r matches Err(DomainError::InvalidSpan(m)) && m@ == "node complexity cannot be zero"@),
            loc != 0 && cc != 0 && cognitive == 0 ==> (r matches Err(DomainError::InvalidSpan(m)) && m@ == "node cognitive complexity cannot be zero"@),
            loc != 0 && cc != 0 && cognitive != 0 ==> (r matches Ok(n) && n.name == name && n.span == span && n.loc == loc && n.cc == cc && n.cognitive == cognitive && n.depth == depth && n.fingerprint == fingerprint),
    {
        if loc == 0 {
            return Err(DomainError::InvalidSpan(owned("node LOC cannot be zero")));
        }
        if cc == 0 {
            return Err(DomainError::InvalidSpan(owned("node complexity cannot be zero")));
        }
        if cognitive == 0 {
            return Err(DomainError::InvalidSpan(owned("node cognitive complexity cannot be zero")));
        }
        Ok(NodeMetrics { name, span, loc, cc, cognitive, depth, fingerprint })
    }

    /// More than ten branches, or more than three per ten lines.
    pub fn is_complex(&self) -> (r: bool)
        ensures
            r == spec_node_complex(*self),
    {
        self.cc > 10 || 10 * (self.cc as u64) > 3 * (self.loc as u64)
    }

    pub fn is_deeply_nested(&self) -> (r: bool)
        ensures
            r == (self.depth > 3),
    {
        self.depth > 3
    }

    pub fn is_large(&self) -> (r: bool)
        ensures
            r == (self.loc > 50),
    {
        self.loc > 50
    }

    pub fn contains_position(&self, position: BytePos) -> (r: bool)
        ensures
            r == (self.span@.0 <= position@ && position@ < self.span@.1),
    {
        self.span.contains(position)
    }
}

/// A node is complex with more than ten branches or more than three per ten lines.
pub open spec fn spec_node_complex(n: NodeMetrics) -> bool {
    n.cc > 10 || 10 * n.cc > 3 * n.loc
}

/// One instance of a duplicated function.
#[derive(Debug, Clone)]
pub struct DuplicateInstance {
    pub name: Option<String>,
    pub start_line: u32,
    pub end_line: u32,
    pub span: Span,
}

/// The functions of a file that share a fingerprint.
#[derive(Debug, Clone)]
pub struct DuplicateGroup {
    pub fingerprint: u64,
    pub instances: Vec<DuplicateInstance>,
}

} // verus!
