//! Pure metric computation: line counts, thresholds, and the level bands
//! used to grade maintainability, complexity and nesting.
use vstd::prelude::*;

verus! {

/// The number of newline bytes in a byte sequence.
pub open spec fn newline_count(bytes: Seq<u8>) -> nat
    decreases bytes.len(),
{
    if bytes.len() == 0 {
        0
    } else {
        newline_count(bytes.drop_last()) + if bytes.last() == 10u8 { 1nat } else { 0nat }
    }
}

/// Compute base cyclomatic complexity.
pub fn base_complexity() -> (r: u32)
    ensures
        r == 1,
{
    1
}

/// Count lines in source bytes: the number of newline bytes.
pub fn count_lines(bytes: &[u8]) -> (r: u32)
    ensures
        r == newline_count(bytes@) as u32,
{
    let mut count: usize = 0;
    let mut i: usize = 0;
    while i < bytes.len()
        invariant
            0 <= i <= bytes@.len(),
            count == newline_count(bytes@.take(i as int)),
            count <= i,
        decreases bytes@.len() - i,
    {
        assert(bytes@.take(i + 1).drop_last() =~= bytes@.take(i as int));
        if bytes[i] == 10u8 {
            count += 1;
        }
        i += 1;
    }
    assert(bytes@.take(i as int) =~= bytes@);
    count as u32
}

/// Whether a function is considered complex: more than 10 branches, or more
/// than 0.3 branches per line. The density test is done in integers:
/// `cc / loc > 0.3` exactly when `10 * cc > 3 * loc`.
pub open spec fn spec_is_complex(cc: u32, loc: u32) -> bool {
    cc > 10 || (loc > 0 && 10 * cc > 3 * loc)
}

/// Check if function is considered complex.
pub fn is_complex(cc: u32, loc: u32) -> (r: bool)
    ensures
        r == spec_is_complex(cc, loc),
{
    cc > 10 || (loc > 0 && 10 * (cc as u64) > 3 * (loc as u64))
}

/// Check if function is considered large.
pub fn is_large(loc: u32) -> (r: bool)
    ensures
        r == (loc > 50),
{
    loc > 50
}

/// Check if function is deeply nested.
pub fn is_deeply_nested(depth: u32) -> (r: bool)
    ensures
        r == (depth > 3),
{
    depth > 3
}

/// Maintainability index bands.
#[derive(Debug, Clone, Copy, PartialEq, Eq, Structural)]
pub enum MiLevel {
    Excellent,
    Good,
    Moderate,
    Poor,
}

impl MiLevel {
    pub open spec fn spec_from_value(val: u8) -> MiLevel {
        if 85 <= val <= 100 {
            MiLevel::Excellent
        } else if 65 <= val <= 84 {
            MiLevel::Good
        } else if 50 <= val <= 64 {
            MiLevel::Moderate
        } else {
            MiLevel::Poor
        }
    }

    pub fn from_value(val: u8) -> (r: Self)
        ensures
            r == Self::spec_from_value(val),
    {
        match val {
            85..=100 => MiLevel::Excellent,
            65..=84 => MiLevel::Good,
            50..=64 => MiLevel::Moderate,
            _ => MiLevel::Poor,
        }
    }

    pub fn color(&self) -> (r: &'static str)
        ensures
            r@ == (match *self {
                MiLevel::Excellent | MiLevel::Good => "green"@,
                MiLevel::Moderate => "yellow"@,
                MiLevel::Poor => "red"@,
            }),
    {
        match self {
            MiLevel::Excellent => "green",
            MiLevel::Good => "green",
            MiLevel::Moderate => "yellow",
            MiLevel::Poor => "red",
        }
    }
}

/// Cyclomatic complexity bands.
#[derive(Debug, Clone, Copy, PartialEq, Eq, Structural)]
pub enum CcLevel {
    Simple,
    Moderate,
    Complex,
    VeryComplex,
}

impl CcLevel {
    pub open spec fn spec_from_value(val: u32) -> CcLevel {
        if val <= 5 {
            CcLevel::Simple
        } else if val <= 10 {
            CcLevel::Moderate
        } else if val <= 20 {
            CcLevel::Complex
        } else {
            CcLevel::VeryComplex
        }
    }

    pub fn from_value(val: u32) -> (r: Self)
        ensures
            r == Self::spec_from_value(val),
    {
        match val {
            0..=5 => CcLevel::Simple,
            6..=10 => CcLevel::Moderate,
            11..=20 => CcLevel::Complex,
            _ => CcLevel::VeryComplex,
        }
    }

    pub fn color(&self) -> (r: &'static str)
        ensures
            r@ == (match *self {
                CcLevel::Simple => "green"@,
                CcLevel::Moderate => "yellow"@,
                CcLevel::Complex | CcLevel::VeryComplex => "red"@,
            }),
    {
        match self {
            CcLevel::Simple => "green",
            CcLevel::Moderate => "yellow",
            CcLevel::Complex => "red",
            CcLevel::VeryComplex => "red",
        }
    }
}

/// Cognitive complexity bands.
#[derive(Debug, Clone, Copy, PartialEq, Eq, Structural)]
pub enum CognitiveLevel {
    Simple,
    Moderate,
    Complex,
}

impl CognitiveLevel {
    pub open spec fn spec_from_value(val: u32) -> CognitiveLevel {
        if val <= 8 {
            CognitiveLevel::Simple
        } else if val <= 15 {
            CognitiveLevel::Moderate
        } else {
            CognitiveLevel::Complex
        }
    }

    pub fn from_value(val: u32) -> (r: Self)
        ensures
            r == Self::spec_from_value(val),
    {
        match val {
            0..=8 => CognitiveLevel::Simple,
            9..=15 => CognitiveLevel::Moderate,
            _ => CognitiveLevel::Complex,
        }
    }

    pub fn color(&self) -> (r: &'static str)
        ensures
            r@ == (match *self {
                CognitiveLevel::Simple => "green"@,
                CognitiveLevel::Moderate => "yellow"@,
                CognitiveLevel::Complex => "red"@,
            }),
    {
        match self {
            CognitiveLevel::Simple => "green",
            CognitiveLevel::Moderate => "yellow",
            CognitiveLevel::Complex => "red",
        }
    }
}

/// Nesting depth bands.
#[derive(Debug, Clone, Copy, PartialEq, Eq, Structural)]
pub enum DepthLevel {
    Flat,
    Moderate,
    Deep,
    VeryDeep,
}

impl DepthLevel {
    pub open spec fn spec_from_value(val: u32) -> DepthLevel {
        if val <= 2 {
            DepthLevel::Flat
        } else if val <= 4 {
            DepthLevel::Moderate
        } else if val <= 6 {
            DepthLevel::Deep
        } else {
            DepthLevel::VeryDeep
        }
    }

    pub fn from_value(val: u32) -> (r: Self)
        ensures
            r == Self::spec_from_value(val),
    {
        match val {
            0..=2 => DepthLevel::Flat,
            3..=4 => DepthLevel::Moderate,
            5..=6 => DepthLevel::Deep,
            _ => DepthLevel::VeryDeep,
        }
    }

    pub fn color(&self) -> (r: &'static str)
        ensures
            r@ == (match *self {
                DepthLevel::Flat => "green"@,
                DepthLevel::Moderate => "yellow"@,
                DepthLevel::Deep | DepthLevel::VeryDeep => "red"@,
            }),
    {
        match self {
            DepthLevel::Flat => "green",
            DepthLevel::Moderate => "yellow",
            DepthLevel::Deep => "red",
            DepthLevel::VeryDeep => "red",
        }
    }
}

} // verus!
