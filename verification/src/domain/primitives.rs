//! Domain primitives: value objects whose constructors enforce their
//! invariants, so that invalid states cannot be represented.
//!
//! - `BytePos`: a byte position in source text.
//! - `Span`: a byte range whose start is never after its end.
//! - `SourceText`: source code known to be UTF-8.
//! - `LanguageId`: one of the supported languages.
//! - `Symbol`: a non-empty identifier of an import or export.
use vstd::prelude::*;
use crate::data::utf8_bytes;
use crate::text::{concat_str, is_alphanumeric, owned, spec_is_alphanumeric, spec_lower, all_ascii, ascii_lower_char, str_eq, to_lowercase, utf8_decode};

verus! {

/// Errors of the domain layer, each with its message.
#[derive(Debug, Clone, PartialEq)]
pub enum DomainError {
    InvalidBytePosition(String),
    InvalidSpan(String),
    InvalidUtf8(String),
    UnsupportedLanguage(String),
    EmptySymbol(String),
    InternalError(String),
}

/// The text that introduces each kind of error in its description.
pub open spec fn error_prefix(e: DomainError) -> Seq<char> {
    match e {
        DomainError::InvalidBytePosition(_) => "Invalid byte position: "@,
        DomainError::InvalidSpan(_) => "Invalid span: "@,
        DomainError::InvalidUtf8(_) => "Invalid UTF-8: "@,
        DomainError::UnsupportedLanguage(_) => "Unsupported language: "@,
        DomainError::EmptySymbol(_) => "Empty symbol: "@,
        DomainError::InternalError(_) => "Internal error: "@,
    }
}

/// The message carried by an error.
pub open spec fn error_message(e: DomainError) -> Seq<char> {
    match e {
        DomainError::InvalidBytePosition(m) => m@,
        DomainError::InvalidSpan(m) => m@,
        DomainError::InvalidUtf8(m) => m@,
        DomainError::UnsupportedLanguage(m) => m@,
        DomainError::EmptySymbol(m) => m@,
        DomainError::InternalError(m) => m@,
    }
}

impl DomainError {
    /// The description of the error: its kind, a colon and its message.
    pub fn describe(&self) -> (r: String)
        ensures
            r@ == error_prefix(*self) + error_message(*self),
    {
        match self {
            DomainError::InvalidBytePosition(m) => concat_str("Invalid byte position: ", m.as_str()),
            DomainError::InvalidSpan(m) => concat_str("Invalid span: ", m.as_str()),
            DomainError::InvalidUtf8(m) => concat_str("Invalid UTF-8: ", m.as_str()),
            DomainError::UnsupportedLanguage(m) => concat_str("Unsupported language: ", m.as_str()),
            DomainError::EmptySymbol(m) => concat_str("Empty symbol: ", m.as_str()),
            DomainError::InternalError(m) => concat_str("Internal error: ", m.as_str()),
        }
    }
}

/// Byte position in source text (0-based).
#[derive(Debug, Clone, Copy, PartialEq, Eq, Structural, PartialOrd, Ord, Hash)]
pub struct BytePos(u32);

impl View for BytePos {
    type V = u32;

    closed spec fn view(&self) -> u32 {
        self.0
    }
}

/// A position that the constructor accepted.
pub open spec fn pos_ok(r: Result<BytePos, DomainError>, pos: int) -> bool {
    r matches Ok(p) && p@ == pos
}

impl BytePos {
    /// Every `u32` is a valid position.
    pub fn new(pos: u32) -> (r: Result<Self, DomainError>)
        ensures
            pos_ok(r, pos as int),
    {
        Ok(BytePos(pos))
    }

    pub fn as_u32(self) -> (r: u32)
        ensures
            r == self@,
    {
        self.0
    }

    pub fn as_usize(self) -> (r: usize)
        ensures
            r == self@,
    {
        self.0 as usize
    }

    /// The position `offset` bytes further; an error when it passes `u32::MAX`.
    pub fn offset(self, offset: u32) -> (r: Result<Self, DomainError>)
        ensures
            self@ + offset <= u32::MAX ==> pos_ok(r, self@ + offset),
            self@ + offset > u32::MAX ==> (r matches Err(DomainError::InvalidBytePosition(m)) && m@ == "overflow"@),
    {
        match self.0.checked_add(offset) {
            Some(p) => BytePos::new(p),
            None => Err(DomainError::InvalidBytePosition(owned("overflow"))),
        }
    }
}

/// Byte range `[start, end)` in source text, with `start <= end`.
#[derive(Debug, Clone, Copy, PartialEq, Eq, Structural, Hash)]
pub struct Span {
    start: BytePos,
    end: BytePos,
}

impl View for Span {
    /// The start and end positions.
    type V = (u32, u32);

    closed spec fn view(&self) -> (u32, u32) {
        (self.start@, self.end@)
    }
}

impl Span {
    /// Every span starts no later than it ends.
    #[verifier::type_invariant]
    pub open spec fn ordered(self) -> bool {
        self@.0 <= self@.1
    }

    /// The span from `start` to `end`; an error when `end` comes before `start`.
    pub fn new(start: BytePos, end: BytePos) -> (r: Result<Self, DomainError>)
        ensures
            start@ <= end@ ==> (r matches Ok(s) && s@ == (start@, end@)),
            end@ < start@ ==> (r matches Err(DomainError::InvalidSpan(m)) && m@ == "end before start"@),
    {
        if end.0 < start.0 {
            return Err(DomainError::InvalidSpan(owned("end before start")));
        }
        Ok(Span { start, end })
    }

    /// The empty span at a position.
    pub fn empty_at(pos: BytePos) -> (r: Self)
        ensures
            r@ == (pos@, pos@),
    {
        Span { start: pos, end: pos }
    }

    pub fn start(self) -> (r: BytePos)
        ensures
            r@ == self@.0,
    {
        self.start
    }

    pub fn end(self) -> (r: BytePos)
        ensures
            r@ == self@.1,
    {
        self.end
    }

    /// The number of bytes in the span.
    pub fn len(self) -> (r: u32)
        ensures
            r == self@.1 - self@.0,
    {
        proof {
            use_type_invariant(self);
        }
        self.end.0 - self.start.0
    }

    pub fn is_empty(self) -> (r: bool)
        ensures
            r == (self@.0 == self@.1),
    {
        self.start.0 == self.end.0
    }

    /// Whether `pos` lies in `[start, end)`.
    pub fn contains(self, pos: BytePos) -> (r: bool)
        ensures
            r == (self@.0 <= pos@ && pos@ < self@.1),
    {
        pos.0 >= self.start.0 && pos.0 < self.end.0
    }

    /// Whether `other` lies within this span.
    pub fn contains_span(self, other: Span) -> (r: bool)
        ensures
            r == (self@.0 <= other@.0 && other@.1 <= self@.1),
    {
        other.start.0 >= self.start.0 && other.end.0 <= self.end.0
    }
}

/// The end of a prefix's encoding that ends on a character boundary keeps
/// every earlier boundary.
proof fn lemma_boundary_in_prefix(bytes: Seq<u8>, start: int, end: int)
    requires
        vstd::utf8::valid_utf8(bytes),
        vstd::utf8::is_char_boundary(bytes, start),
        vstd::utf8::is_char_boundary(bytes, end),
        0 <= start <= end,
    ensures
        vstd::utf8::valid_utf8(bytes.subrange(0, end)),
        vstd::utf8::is_char_boundary(bytes.subrange(0, end), start),
    decreases bytes.len(),
{
    vstd::utf8::valid_utf8_split(bytes, end);
    let p = bytes.subrange(0, end);
    if start == 0 {
    } else {
        let l = vstd::utf8::length_of_first_scalar(bytes);
        let tail = vstd::utf8::pop_first_scalar(bytes);
        assert(p[0] == bytes[0]);
        assert(vstd::utf8::length_of_first_scalar(p) == l);
        assert(vstd::utf8::is_char_boundary(tail, start - l));
        assert(vstd::utf8::is_char_boundary(tail, end - l));
        assert(l >= 1);
        assert(vstd::utf8::valid_utf8(tail));
        lemma_boundary_in_prefix(tail, start - l, end - l);
        assert(vstd::utf8::pop_first_scalar(p) =~= tail.subrange(0, end - l));
    }
}

/// Source code known to be valid UTF-8.
#[derive(Debug, Clone, PartialEq, Eq, Hash)]
pub struct SourceText(String);

impl View for SourceText {
    type V = Seq<char>;

    closed spec fn view(&self) -> Seq<char> {
        self.0@
    }
}

impl SourceText {
    /// Every `String` is valid UTF-8.
    pub fn new(text: String) -> (r: Result<Self, DomainError>)
        ensures
            r matches Ok(t) && t@ == text@,
    {
        Ok(SourceText(text))
    }

    /// The text that `bytes` encode; an error when they are not UTF-8.
    pub fn from_bytes(bytes: &[u8]) -> (r: Result<Self, DomainError>)
        ensures
            vstd::utf8::valid_utf8(bytes@) ==> (r matches Ok(t) && t@ == vstd::utf8::decode_utf8(bytes@)),
            !vstd::utf8::valid_utf8(bytes@) ==> (r matches Err(DomainError::InvalidUtf8(m)) && m@ == "source text contains invalid UTF-8"@),
    {
        match utf8_decode(bytes) {
            Some(s) => Ok(SourceText(owned(s))),
            None => Err(DomainError::InvalidUtf8(owned("source text contains invalid UTF-8"))),
        }
    }

    pub fn as_str(&self) -> (r: &str)
        ensures
            r@ == self@,
    {
        self.0.as_str()
    }

    /// The length in bytes.
    pub fn len(&self) -> (r: usize)
        ensures
            r == utf8_bytes(self@).len() as usize,
    {
        self.0.as_str().len()
    }

    pub fn is_empty(&self) -> (r: bool)
        ensures
            r == (self@.len() == 0),
    {
        self.0.as_str().is_empty()
    }

    /// The byte at a position; an error when the position is past the end.
    pub fn byte_at(&self, pos: BytePos) -> (r: Result<u8, DomainError>)
        requires
            utf8_bytes(self@).len() <= usize::MAX,
        ensures
            pos@ < utf8_bytes(self@).len() ==> r == Ok::<u8, DomainError>(utf8_bytes(self@)[pos@ as int]),
            pos@ >= utf8_bytes(self@).len() ==> (r matches Err(DomainError::InvalidBytePosition(m)) && m@ == "position out of bounds"@),
    {
        let p = pos.as_usize();
        if p >= self.len() {
            return Err(DomainError::InvalidBytePosition(owned("position out of bounds")));
        }
        let bytes = self.0.as_str().as_bytes();
        Ok(bytes[p])
    }

    /// The text of a span; an error when the span ends past the text. The
    /// span must start and end on character boundaries.
    pub fn substring(&self, span: Span) -> (r: Result<&str, DomainError>)
        requires
            utf8_bytes(self@).len() <= usize::MAX,
            span@.1 <= utf8_bytes(self@).len() ==> vstd::utf8::is_char_boundary(utf8_bytes(self@), span@.0 as int)
                && vstd::utf8::is_char_boundary(utf8_bytes(self@), span@.1 as int),
        ensures
            span@.1 <= utf8_bytes(self@).len() ==> (r matches Ok(s) && utf8_bytes(s@) == utf8_bytes(self@).subrange(span@.0 as int, span@.1 as int)),
            span@.1 > utf8_bytes(self@).len() ==> (r matches Err(DomainError::InvalidSpan(m)) && m@ == "span out of bounds"@),
    {
        proof {
            use_type_invariant(&span);
        }
        let start = span.start().as_usize();
        let end = span.end().as_usize();
        if end > self.len() {
            return Err(DomainError::InvalidSpan(owned("span out of bounds")));
        }
        let whole = self.0.as_str();
        proof {
            vstd::utf8::encode_utf8_valid_utf8(self@);
            lemma_boundary_in_prefix(utf8_bytes(self@), start as int, end as int);
        }
        let (prefix, _) = whole.split_at(end);
        let (_, piece) = prefix.split_at(start);
        proof {
            assert(utf8_bytes(piece@) =~= utf8_bytes(self@).subrange(start as int, end as int));
        }
        Ok(piece)
    }
}

/// Supported programming languages.
#[derive(Debug, Clone, Copy, PartialEq, Eq, Structural, Hash)]
pub enum LanguageId {
    Rust,
    TypeScript,
    Python,
    Go,
    Java,
    CSharp,
    JavaScript,
    Cpp,
    Elixir,
}

/// The language that a lower-case name stands for.
pub open spec fn spec_language_id(lower: Seq<char>) -> Option<LanguageId> {
    if lower == "rust"@ || lower == "rs"@ {
        Some(LanguageId::Rust)
    } else if lower == "typescript"@ || lower == "ts"@ {
        Some(LanguageId::TypeScript)
    } else if lower == "python"@ || lower == "py"@ {
        Some(LanguageId::Python)
    } else if lower == "go"@ || lower == "golang"@ {
        Some(LanguageId::Go)
    } else if lower == "java"@ {
        Some(LanguageId::Java)
    } else if lower == "csharp"@ || lower == "c#"@ || lower == "cs"@ {
        Some(LanguageId::CSharp)
    } else if lower == "javascript"@ || lower == "js"@ {
        Some(LanguageId::JavaScript)
    } else if lower == "cpp"@ || lower == "c++"@ || lower == "cxx"@ {
        Some(LanguageId::Cpp)
    } else if lower == "elixir"@ || lower == "ex"@ || lower == "exs"@ {
        Some(LanguageId::Elixir)
    } else {
        None
    }
}

/// The canonical name of a language.
pub open spec fn spec_language_id_name(l: LanguageId) -> Seq<char> {
    match l {
        LanguageId::Rust => "rust"@,
        LanguageId::TypeScript => "typescript"@,
        LanguageId::Python => "python"@,
        LanguageId::Go => "go"@,
        LanguageId::Java => "java"@,
        LanguageId::CSharp => "csharp"@,
        LanguageId::JavaScript => "javascript"@,
        LanguageId::Cpp => "cpp"@,
        LanguageId::Elixir => "elixir"@,
    }
}

fn language_id_of(lower: &str) -> (r: Option<LanguageId>)
    ensures
        r == spec_language_id(lower@),
{
    if str_eq(lower, "rust") || str_eq(lower, "rs") {
        Some(LanguageId::Rust)
    } else if str_eq(lower, "typescript") || str_eq(lower, "ts") {
        Some(LanguageId::TypeScript)
    } else if str_eq(lower, "python") || str_eq(lower, "py") {
        Some(LanguageId::Python)
    } else if str_eq(lower, "go") || str_eq(lower, "golang") {
        Some(LanguageId::Go)
    } else if str_eq(lower, "java") {
        Some(LanguageId::Java)
    } else if str_eq(lower, "csharp") || str_eq(lower, "c#") || str_eq(lower, "cs") {
        Some(LanguageId::CSharp)
    } else if str_eq(lower, "javascript") || str_eq(lower, "js") {
        Some(LanguageId::JavaScript)
    } else if str_eq(lower, "cpp") || str_eq(lower, "c++") || str_eq(lower, "cxx") {
        Some(LanguageId::Cpp)
    } else if str_eq(lower, "elixir") || str_eq(lower, "ex") || str_eq(lower, "exs") {
        Some(LanguageId::Elixir)
    } else {
        None
    }
}

/// Every language is found again by its canonical name: `from_str` on
/// `as_str()` gives back the language.
pub proof fn law_language_id_round_trip(l: LanguageId)
    ensures
        spec_language_id(spec_lower(spec_language_id_name(l))) == Some(l),
{
    reveal_strlit("rust");
    reveal_strlit("rs");
    reveal_strlit("typescript");
    reveal_strlit("ts");
    reveal_strlit("python");
    reveal_strlit("py");
    reveal_strlit("go");
    reveal_strlit("golang");
    reveal_strlit("java");
    reveal_strlit("csharp");
    reveal_strlit("c#");
    reveal_strlit("cs");
    reveal_strlit("javascript");
    reveal_strlit("js");
    reveal_strlit("cpp");
    reveal_strlit("c++");
    reveal_strlit("cxx");
    reveal_strlit("elixir");
    reveal_strlit("ex");
    reveal_strlit("exs");
    let n = spec_language_id_name(l);
    assert(all_ascii(n));
    assert(n.map_values(|c: char| ascii_lower_char(c)) =~= n);
    assert(spec_lower(n) == n);
    match l {
        LanguageId::Rust => {
            assert(n[0] != "java"@[0]);
            assert(spec_language_id(n) == Some(LanguageId::Rust));
        },
        LanguageId::TypeScript => {
            assert(n[0] != "javascript"@[0]);
            assert(spec_language_id(n) == Some(LanguageId::TypeScript));
        },
        LanguageId::Python => {
            assert(n[0] != "golang"@[0]);
            assert(n[0] != "csharp"@[0]);
            assert(n[0] != "elixir"@[0]);
            assert(spec_language_id(n) == Some(LanguageId::Python));
        },
        LanguageId::Go => {
            assert(n[0] != "rs"@[0]);
            assert(n[0] != "ts"@[0]);
            assert(n[0] != "py"@[0]);
            assert(n[0] != "c#"@[0]);
            assert(n[0] != "cs"@[0]);
            assert(n[0] != "js"@[0]);
            assert(n[0] != "ex"@[0]);
            assert(spec_language_id(n) == Some(LanguageId::Go));
        },
        LanguageId::Java => {
            assert(n[0] != "rust"@[0]);
            assert(spec_language_id(n) == Some(LanguageId::Java));
        },
        LanguageId::CSharp => {
            assert(n[0] != "python"@[0]);
            assert(n[0] != "golang"@[0]);
            assert(n[0] != "elixir"@[0]);
            assert(spec_language_id(n) == Some(LanguageId::CSharp));
        },
        LanguageId::JavaScript => {
            assert(n[0] != "typescript"@[0]);
            assert(spec_language_id(n) == Some(LanguageId::JavaScript));
        },
        LanguageId::Cpp => {
            assert(n[1] != "c++"@[1]);
            assert(n[1] != "cxx"@[1]);
            assert(n[0] != "exs"@[0]);
            assert(spec_language_id(n) == Some(LanguageId::Cpp));
        },
        LanguageId::Elixir => {
            assert(n[0] != "python"@[0]);
            assert(n[0] != "golang"@[0]);
            assert(n[0] != "csharp"@[0]);
            assert(spec_language_id(n) == Some(LanguageId::Elixir));
        },
    }
}

impl LanguageId {
    /// The language that a name stands for, compared without regard to
    /// case; an error naming the input otherwise.
    pub fn from_str(lang: &str) -> (r: Result<Self, DomainError>)
        ensures
            spec_language_id(spec_lower(lang@)) matches Some(l) ==> r == Ok::<LanguageId, DomainError>(l),
            spec_language_id(spec_lower(lang@)) is None ==> (r matches Err(DomainError::UnsupportedLanguage(m)) && m@ == lang@),
    {
        let lower = to_lowercase(lang);
        match language_id_of(lower.as_str()) {
            Some(l) => Ok(l),
            None => Err(DomainError::UnsupportedLanguage(owned(lang))),
        }
    }

    /// The canonical lower-case name.
    pub fn as_str(self) -> (r: &'static str)
        ensures
            r@ == spec_language_id_name(self),
    {
        match self {
            LanguageId::Rust => "rust",
            LanguageId::TypeScript => "typescript",
            LanguageId::Python => "python",
            LanguageId::Go => "go",
            LanguageId::Java => "java",
            LanguageId::CSharp => "csharp",
            LanguageId::JavaScript => "javascript",
            LanguageId::Cpp => "cpp",
            LanguageId::Elixir => "elixir",
        }
    }
}

/// The characters besides letters and digits that a symbol may hold.
pub open spec fn symbol_punct(c: char) -> bool {
    c == '_' || c == '.' || c == ':' || c == '/' || c == '@' || c == '-' || c == '*' || c == '{'
        || c == '}' || c == ' ' || c == '"' || c == '\''
}

/// Whether every character may stand in a symbol.
pub open spec fn symbol_chars_ok(s: Seq<char>) -> bool {
    forall|i: int| 0 <= i < s.len() ==> #[trigger] spec_is_alphanumeric(s[i]) || symbol_punct(s[i])
}

/// Validated symbol identifier for imports and exports.
#[derive(Debug, PartialEq, Eq, Hash)]
pub struct Symbol(String);

impl Clone for Symbol {
    fn clone(&self) -> (r: Self)
        ensures
            r@ == self@,
    {
        proof {
            use_type_invariant(self);
        }
        Symbol(self.0.clone())
    }
}

impl View for Symbol {
    type V = Seq<char>;

    closed spec fn view(&self) -> Seq<char> {
        self.0@
    }
}

impl Symbol {
    /// A symbol is never empty, and holds only the characters it may hold.
    #[verifier::type_invariant]
    spec fn nonempty(self) -> bool {
        self.0@.len() > 0 && symbol_chars_ok(self.0@)
    }

    /// A symbol from a name: an error when the name is empty or holds a
    /// character that is neither alphanumeric nor one of `_ . : / @ - * { } "`,
    /// space and apostrophe.
    pub fn new(name: String) -> (r: Result<Self, DomainError>)
        ensures
            name@.len() == 0 ==> (r matches Err(DomainError::EmptySymbol(m)) && m@ == "symbol name cannot be empty"@),
            name@.len() > 0 && !symbol_chars_ok(name@) ==> (r matches Err(DomainError::EmptySymbol(m)) && m@ == "symbol contains invalid characters: "@ + name@),
            name@.len() > 0 && symbol_chars_ok(name@) ==> (r matches Ok(s) && s@ == name@),
    {
        if name.as_str().is_empty() {
            return Err(DomainError::EmptySymbol(owned("symbol name cannot be empty")));
        }
        let mut valid = true;
        let ghost chars = name@;
        for c in it: name.as_str().chars()
            invariant
                chars == name@,
                it.seq() == chars,
                valid <==> (forall|j: int| 0 <= j < it.index() ==> #[trigger] spec_is_alphanumeric(chars[j]) || symbol_punct(chars[j])),
        {
            let ok = is_alphanumeric(c) || c == '_' || c == '.' || c == ':' || c == '/' || c == '@'
                || c == '-' || c == '*' || c == '{' || c == '}' || c == ' ' || c == '"' || c == '\'';
            valid = valid && ok;
        }
        if !valid {
            return Err(DomainError::EmptySymbol(concat_str("symbol contains invalid characters: ", name.as_str())));
        }
        Ok(Symbol(name))
    }

    pub fn as_str(&self) -> (r: &str)
        ensures
            r@ == self@,
            r@.len() > 0,
            symbol_chars_ok(r@),
    {
        proof {
            use_type_invariant(self);
        }
        self.0.as_str()
    }

    /// The length in bytes.
    pub fn len(&self) -> (r: usize)
        ensures
            r == utf8_bytes(self@).len() as usize,
    {
        self.0.as_str().len()
    }
}

} // verus!
