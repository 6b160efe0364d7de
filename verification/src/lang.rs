//! Language specifications: static tables mapping syntax-node kinds to the
//! structural categories that the metrics count.
use vstd::prelude::*;
use crate::text::{str_eq, str_in, table_has, to_lowercase, path_extension, spec_lower, spec_path_extension, all_ascii, ascii_lower_char};

verus! {

/// Supported programming languages.
#[derive(Debug, Clone, Copy, PartialEq, Eq, Structural, Hash)]
pub enum Language {
    Rust,
    TypeScript,
    Python,
    Go,
    Java,
    CSharp,
    JavaScript,
    Cpp,
    Elixir,
}

/// The language that a lower-case name or file extension stands for.
pub open spec fn spec_alias(lower: Seq<char>) -> Option<Language> {
    if lower == "rust"@ || lower == "rs"@ {
        Some(Language::Rust)
    } else if lower == "typescript"@ || lower == "ts"@ || lower == "tsx"@ {
        Some(Language::TypeScript)
    } else if lower == "python"@ || lower == "py"@ {
        Some(Language::Python)
    } else if lower == "go"@ || lower == "golang"@ {
        Some(Language::Go)
    } else if lower == "java"@ {
        Some(Language::Java)
    } else if lower == "csharp"@ || lower == "c#"@ || lower == "cs"@ {
        Some(Language::CSharp)
    } else if lower == "javascript"@ || lower == "js"@ || lower == "jsx"@ {
        Some(Language::JavaScript)
    } else if lower == "cpp"@ || lower == "c++"@ || lower == "cxx"@ || lower == "cc"@ || lower
        == "hpp"@ || lower == "h"@ {
        Some(Language::Cpp)
    } else if lower == "elixir"@ || lower == "ex"@ || lower == "exs"@ {
        Some(Language::Elixir)
    } else {
        None
    }
}

/// The canonical name of a language.
pub open spec fn spec_language_name(l: Language) -> Seq<char> {
    match l {
        Language::Rust => "rust"@,
        Language::TypeScript => "typescript"@,
        Language::Python => "python"@,
        Language::Go => "go"@,
        Language::Java => "java"@,
        Language::CSharp => "csharp"@,
        Language::JavaScript => "javascript"@,
        Language::Cpp => "cpp"@,
        Language::Elixir => "elixir"@,
    }
}

fn alias_of(lower: &str) -> (r: Option<Language>)
    ensures
        r == spec_alias(lower@),
{
    if str_eq(lower, "rust") || str_eq(lower, "rs") {
        Some(Language::Rust)
    } else if str_eq(lower, "typescript") || str_eq(lower, "ts") || str_eq(lower, "tsx") {
        Some(Language::TypeScript)
    } else if str_eq(lower, "python") || str_eq(lower, "py") {
        Some(Language::Python)
    } else if str_eq(lower, "go") || str_eq(lower, "golang") {
        Some(Language::Go)
    } else if str_eq(lower, "java") {
        Some(Language::Java)
    } else if str_eq(lower, "csharp") || str_eq(lower, "c#") || str_eq(lower, "cs") {
        Some(Language::CSharp)
    } else if str_eq(lower, "javascript") || str_eq(lower, "js") || str_eq(lower, "jsx") {
        Some(Language::JavaScript)
    } else if str_eq(lower, "cpp") || str_eq(lower, "c++") || str_eq(lower, "cxx") || str_eq(
        lower,
        "cc",
    ) || str_eq(lower, "hpp") || str_eq(lower, "h") {
        Some(Language::Cpp)
    } else if str_eq(lower, "elixir") || str_eq(lower, "ex") || str_eq(lower, "exs") {
        Some(Language::Elixir)
    } else {
        None
    }
}

impl Language {
    /// Parse language from a name or extension (case-insensitive).
    pub fn from_name(s: &str) -> (r: Option<Language>)
        ensures
            r == spec_alias(spec_lower(s@)),
    {
        let lower = to_lowercase(s);
        alias_of(lower.as_str())
    }

    /// Detect language from the extension of a file path.
    pub fn from_path(path: &str) -> (r: Option<Language>)
        ensures
            r == match spec_path_extension(path@) {
                Some(e) => spec_alias(spec_lower(e)),
                None => None,
            },
    {
        match path_extension(path) {
            Some(e) => Self::from_name(e.as_str()),
            None => None,
        }
    }

    /// Get the tree-sitter grammar of the language.
    pub fn tree_sitter_language(&self) -> tree_sitter::Language {
        match self {
            Language::Rust => crate::syntax::rust_grammar(),
            Language::TypeScript => crate::syntax::typescript_grammar(),
            Language::Python => crate::syntax::python_grammar(),
            Language::Go => crate::syntax::go_grammar(),
            Language::Java => crate::syntax::java_grammar(),
            Language::CSharp => crate::syntax::csharp_grammar(),
            Language::JavaScript => crate::syntax::javascript_grammar(),
            Language::Cpp => crate::syntax::cpp_grammar(),
            Language::Elixir => crate::syntax::elixir_grammar(),
        }
    }

    /// Get language spec with node kind mappings.
    pub fn spec(&self) -> (r: LanguageSpec)
        ensures
            r == spec_language_spec(*self),
    {
        match self {
            Language::Rust => LanguageSpec::rust(),
            Language::TypeScript => LanguageSpec::typescript(),
            Language::Python => LanguageSpec::python(),
            Language::Go => LanguageSpec::go(),
            Language::Java => LanguageSpec::java(),
            Language::CSharp => LanguageSpec::csharp(),
            Language::JavaScript => LanguageSpec::javascript(),
            Language::Cpp => LanguageSpec::cpp(),
            Language::Elixir => LanguageSpec::elixir(),
        }
    }

    /// Canonical name.
    pub fn name(&self) -> (r: &'static str)
        ensures
            r@ == spec_language_name(*self),
    {
        match self {
            Language::Rust => "rust",
            Language::TypeScript => "typescript",
            Language::Python => "python",
            Language::Go => "go",
            Language::Java => "java",
            Language::CSharp => "csharp",
            Language::JavaScript => "javascript",
            Language::Cpp => "cpp",
            Language::Elixir => "elixir",
        }
    }
}

impl std::str::FromStr for Language {
    type Err = ();

    /// The language of a name or extension, as `from_name` finds it.
    fn from_str(s: &str) -> (r: Result<Self, Self::Err>)
        ensures
            r == (match spec_alias(spec_lower(s@)) {
                Some(l) => Ok::<Language, ()>(l),
                None => Err(()),
            }),
    {
        match Self::from_name(s) {
            Some(l) => Ok(l),
            None => Err(()),
        }
    }
}

/// The names and file extensions that the documentation gives for each
/// language, in lower case.
pub open spec fn documented_alias(name: Seq<char>, l: Language) -> bool {
    ||| name == "rust"@ && l == Language::Rust
    ||| name == "rs"@ && l == Language::Rust
    ||| name == "typescript"@ && l == Language::TypeScript
    ||| name == "ts"@ && l == Language::TypeScript
    ||| name == "tsx"@ && l == Language::TypeScript
    ||| name == "python"@ && l == Language::Python
    ||| name == "py"@ && l == Language::Python
    ||| name == "go"@ && l == Language::Go
    ||| name == "golang"@ && l == Language::Go
    ||| name == "java"@ && l == Language::Java
    ||| name == "csharp"@ && l == Language::CSharp
    ||| name == "c#"@ && l == Language::CSharp
    ||| name == "cs"@ && l == Language::CSharp
    ||| name == "javascript"@ && l == Language::JavaScript
    ||| name == "js"@ && l == Language::JavaScript
    ||| name == "jsx"@ && l == Language::JavaScript
    ||| name == "cpp"@ && l == Language::Cpp
    ||| name == "c++"@ && l == Language::Cpp
    ||| name == "cxx"@ && l == Language::Cpp
    ||| name == "cc"@ && l == Language::Cpp
    ||| name == "hpp"@ && l == Language::Cpp
    ||| name == "h"@ && l == Language::Cpp
    ||| name == "elixir"@ && l == Language::Elixir
    ||| name == "ex"@ && l == Language::Elixir
    ||| name == "exs"@ && l == Language::Elixir
}

/// A lower-case name or extension stands for a language exactly when the
/// documentation lists it for that language: `rs` for Rust; `ts` and `tsx`
/// for TypeScript; `py` for Python; `golang` for Go; `c#` and `cs` for C#;
/// `js` and `jsx` for JavaScript; `c++`, `cxx`, `cc`, `hpp` and `h` for C++;
/// `ex` and `exs` for Elixir; and each canonical name. So `from_name` and
/// `from_path` (on a file with such an extension) find that language, and
/// nothing else names one.
pub proof fn law_documented_aliases(name: Seq<char>, l: Language)
    ensures
        spec_alias(name) == Some(l) <==> documented_alias(name, l),
{
    reveal_strlit("rust");
    reveal_strlit("rs");
    reveal_strlit("typescript");
    reveal_strlit("ts");
    reveal_strlit("tsx");
    reveal_strlit("python");
    reveal_strlit("py");
    reveal_strlit("go");
    reveal_strlit("golang");
    reveal_strlit("java");
    reveal_strlit("csharp");
    reveal_strlit("c#");
    reveal_strlit("cs");
    reveal_strlit("javascript");
    reveal_strlit("js");
    reveal_strlit("jsx");
    reveal_strlit("cpp");
    reveal_strlit("c++");
    reveal_strlit("cxx");
    reveal_strlit("cc");
    reveal_strlit("hpp");
    reveal_strlit("h");
    reveal_strlit("elixir");
    reveal_strlit("ex");
    reveal_strlit("exs");
    assert("rust"@[0] != "java"@[0]);
    assert("rs"@[0] != "ts"@[0]);
    assert("rs"@[0] != "py"@[0]);
    assert("rs"@[0] != "go"@[0]);
    assert("rs"@[0] != "c#"@[0]);
    assert("rs"@[0] != "cs"@[0]);
    assert("rs"@[0] != "js"@[0]);
    assert("rs"@[0] != "cc"@[0]);
    assert("rs"@[0] != "ex"@[0]);
    assert("typescript"@[0] != "javascript"@[0]);
    assert("ts"@[0] != "py"@[0]);
    assert("ts"@[0] != "go"@[0]);
    assert("ts"@[0] != "c#"@[0]);
    assert("ts"@[0] != "cs"@[0]);
    assert("ts"@[0] != "js"@[0]);
    assert("ts"@[0] != "cc"@[0]);
    assert("ts"@[0] != "ex"@[0]);
    assert("tsx"@[0] != "jsx"@[0]);
    assert("tsx"@[0] != "cpp"@[0]);
    assert("tsx"@[0] != "c++"@[0]);
    assert("tsx"@[0] != "cxx"@[0]);
    assert("tsx"@[0] != "hpp"@[0]);
    assert("tsx"@[0] != "exs"@[0]);
    assert("python"@[0] != "golang"@[0]);
    assert("python"@[0] != "csharp"@[0]);
    assert("python"@[0] != "elixir"@[0]);
    assert("py"@[0] != "go"@[0]);
    assert("py"@[0] != "c#"@[0]);
    assert("py"@[0] != "cs"@[0]);
    assert("py"@[0] != "js"@[0]);
    assert("py"@[0] != "cc"@[0]);
    assert("py"@[0] != "ex"@[0]);
    assert("go"@[0] != "c#"@[0]);
    assert("go"@[0] != "cs"@[0]);
    assert("go"@[0] != "js"@[0]);
    assert("go"@[0] != "cc"@[0]);
    assert("go"@[0] != "ex"@[0]);
    assert("golang"@[0] != "csharp"@[0]);
    assert("golang"@[0] != "elixir"@[0]);
    assert("csharp"@[0] != "elixir"@[0]);
    assert("c#"@[1] != "cs"@[1]);
    assert("c#"@[0] != "js"@[0]);
    assert("c#"@[1] != "cc"@[1]);
    assert("c#"@[0] != "ex"@[0]);
    assert("cs"@[0] != "js"@[0]);
    assert("cs"@[1] != "cc"@[1]);
    assert("cs"@[0] != "ex"@[0]);
    assert("js"@[0] != "cc"@[0]);
    assert("js"@[0] != "ex"@[0]);
    assert("jsx"@[0] != "cpp"@[0]);
    assert("jsx"@[0] != "c++"@[0]);
    assert("jsx"@[0] != "cxx"@[0]);
    assert("jsx"@[0] != "hpp"@[0]);
    assert("jsx"@[0] != "exs"@[0]);
    assert("cpp"@[1] != "c++"@[1]);
    assert("cpp"@[1] != "cxx"@[1]);
    assert("cpp"@[0] != "hpp"@[0]);
    assert("cpp"@[0] != "exs"@[0]);
    assert("c++"@[1] != "cxx"@[1]);
    assert("c++"@[0] != "hpp"@[0]);
    assert("c++"@[0] != "exs"@[0]);
    assert("cxx"@[0] != "hpp"@[0]);
    assert("cxx"@[0] != "exs"@[0]);
    assert("cc"@[0] != "ex"@[0]);
    assert("hpp"@[0] != "exs"@[0]);
    assert("rust"@.len() == 4);
    assert("rs"@.len() == 2);
    assert("typescript"@.len() == 10);
    assert("ts"@.len() == 2);
    assert("tsx"@.len() == 3);
    assert("python"@.len() == 6);
    assert("py"@.len() == 2);
    assert("go"@.len() == 2);
    assert("golang"@.len() == 6);
    assert("java"@.len() == 4);
    assert("csharp"@.len() == 6);
    assert("c#"@.len() == 2);
    assert("cs"@.len() == 2);
    assert("javascript"@.len() == 10);
    assert("js"@.len() == 2);
    assert("jsx"@.len() == 3);
    assert("cpp"@.len() == 3);
    assert("c++"@.len() == 3);
    assert("cxx"@.len() == 3);
    assert("cc"@.len() == 2);
    assert("hpp"@.len() == 3);
    assert("h"@.len() == 1);
    assert("elixir"@.len() == 6);
    assert("ex"@.len() == 2);
    assert("exs"@.len() == 3);
    assert(spec_alias("rust"@) == Some(Language::Rust));
    assert(spec_alias("rs"@) == Some(Language::Rust));
    assert(spec_alias("typescript"@) == Some(Language::TypeScript));
    assert(spec_alias("ts"@) == Some(Language::TypeScript));
    assert(spec_alias("tsx"@) == Some(Language::TypeScript));
    assert(spec_alias("python"@) == Some(Language::Python));
    assert(spec_alias("py"@) == Some(Language::Python));
    assert(spec_alias("go"@) == Some(Language::Go));
    assert(spec_alias("golang"@) == Some(Language::Go));
    assert(spec_alias("java"@) == Some(Language::Java));
    assert(spec_alias("csharp"@) == Some(Language::CSharp));
    assert(spec_alias("c#"@) == Some(Language::CSharp));
    assert(spec_alias("cs"@) == Some(Language::CSharp));
    assert(spec_alias("javascript"@) == Some(Language::JavaScript));
    assert(spec_alias("js"@) == Some(Language::JavaScript));
    assert(spec_alias("jsx"@) == Some(Language::JavaScript));
    assert(spec_alias("cpp"@) == Some(Language::Cpp));
    assert(spec_alias("c++"@) == Some(Language::Cpp));
    assert(spec_alias("cxx"@) == Some(Language::Cpp));
    assert(spec_alias("cc"@) == Some(Language::Cpp));
    assert(spec_alias("hpp"@) == Some(Language::Cpp));
    assert(spec_alias("h"@) == Some(Language::Cpp));
    assert(spec_alias("elixir"@) == Some(Language::Elixir));
    assert(spec_alias("ex"@) == Some(Language::Elixir));
    assert(spec_alias("exs"@) == Some(Language::Elixir));

}

/// Every language is found again by its canonical name: `from_name` on
/// `name()` gives back the language.
pub proof fn law_language_name_round_trip(l: Language)
    ensures
        spec_alias(spec_lower(spec_language_name(l))) == Some(l),
{
    reveal_strlit("rust");
    reveal_strlit("rs");
    reveal_strlit("typescript");
    reveal_strlit("ts");
    reveal_strlit("tsx");
    reveal_strlit("python");
    reveal_strlit("py");
    reveal_strlit("go");
    reveal_strlit("golang");
    reveal_strlit("java");
    reveal_strlit("csharp");
    reveal_strlit("c#");
    reveal_strlit("cs");
    reveal_strlit("javascript");
    reveal_strlit("js");
    reveal_strlit("jsx");
    reveal_strlit("cpp");
    reveal_strlit("c++");
    reveal_strlit("cxx");
    reveal_strlit("cc");
    reveal_strlit("hpp");
    reveal_strlit("h");
    reveal_strlit("elixir");
    reveal_strlit("ex");
    reveal_strlit("exs");
    let n = spec_language_name(l);
    assert(all_ascii(n));
    assert(n.map_values(|c: char| ascii_lower_char(c)) =~= n);
    assert(spec_lower(n) == n);
    match l {
        Language::Rust => {
            assert(n[0] != "java"@[0]);
            assert(spec_alias(n) == Some(Language::Rust));
        },
        Language::TypeScript => {
            assert(n[0] != "javascript"@[0]);
            assert(spec_alias(n) == Some(Language::TypeScript));
        },
        Language::Python => {
            assert(n[0] != "golang"@[0]);
            assert(n[0] != "csharp"@[0]);
            assert(n[0] != "elixir"@[0]);
            assert(spec_alias(n) == Some(Language::Python));
        },
        Language::Go => {
            assert(n[0] != "rs"@[0]);
            assert(n[0] != "ts"@[0]);
            assert(n[0] != "py"@[0]);
            assert(n[0] != "c#"@[0]);
            assert(n[0] != "cs"@[0]);
            assert(n[0] != "js"@[0]);
            assert(n[0] != "cc"@[0]);
            assert(n[0] != "ex"@[0]);
            assert(spec_alias(n) == Some(Language::Go));
        },
        Language::Java => {
            assert(n[0] != "rust"@[0]);
            assert(spec_alias(n) == Some(Language::Java));
        },
        Language::CSharp => {
            assert(n[0] != "python"@[0]);
            assert(n[0] != "golang"@[0]);
            assert(n[0] != "elixir"@[0]);
            assert(spec_alias(n) == Some(Language::CSharp));
        },
        Language::JavaScript => {
            assert(n[0] != "typescript"@[0]);
            assert(spec_alias(n) == Some(Language::JavaScript));
        },
        Language::Cpp => {
            assert(n[0] != "tsx"@[0]);
            assert(n[0] != "jsx"@[0]);
            assert(n[1] != "c++"@[1]);
            assert(n[1] != "cxx"@[1]);
            assert(n[0] != "hpp"@[0]);
            assert(n[0] != "exs"@[0]);
            assert(spec_alias(n) == Some(Language::Cpp));
        },
        Language::Elixir => {
            assert(n[0] != "python"@[0]);
            assert(n[0] != "golang"@[0]);
            assert(n[0] != "csharp"@[0]);
            assert(spec_alias(n) == Some(Language::Elixir));
        },
    }
}

/// Language-specific syntax-node kind mappings. All data is static.
#[derive(Debug, Clone, Copy)]
pub struct LanguageSpec {
    pub function_nodes: &'static [&'static str],
    pub branch_nodes: &'static [&'static str],
    pub block_nodes: &'static [&'static str],
    pub import_nodes: &'static [&'static str],
    pub export_nodes: &'static [&'static str],
    pub boolean_and_nodes: &'static [&'static str],
    pub boolean_or_nodes: &'static [&'static str],
    pub else_nodes: &'static [&'static str],
}

/// The spec of each language, as its constructor builds it.
pub open spec fn spec_language_spec(l: Language) -> LanguageSpec {
    match l {
        Language::Rust => LanguageSpec::spec_rust(),
        Language::TypeScript => LanguageSpec::spec_typescript(),
        Language::Python => LanguageSpec::spec_python(),
        Language::Go => LanguageSpec::spec_go(),
        Language::Java => LanguageSpec::spec_java(),
        Language::CSharp => LanguageSpec::spec_csharp(),
        Language::JavaScript => LanguageSpec::spec_javascript(),
        Language::Cpp => LanguageSpec::spec_cpp(),
        Language::Elixir => LanguageSpec::spec_elixir(),
    }
}

/// Branch classification for complexity calculations.
#[derive(Debug, Clone, Copy, PartialEq, Eq, Structural)]
pub enum BranchKind {
    Conditional,
    Loop,
    Switch,
    SwitchCase,
    Exception,
    Else,
    BooleanAnd,
    BooleanOr,
}

/// The branch kind of a node kind that no table of the spec claims, by name.
pub open spec fn spec_kind_by_name(kind: Seq<char>) -> BranchKind {
    if kind == "if_expression"@ || kind == "if_statement"@ || kind == "if"@ || kind
        == "conditional_expression"@ || kind == "unless"@ {
        BranchKind::Conditional
    } else if kind == "for_expression"@ || kind == "for_statement"@ || kind == "for"@ || kind
        == "for_in_statement"@ || kind == "while_expression"@ || kind == "while_statement"@ || kind
        == "while"@ || kind == "loop_expression"@ || kind == "do_statement"@ {
        BranchKind::Loop
    } else if kind == "match_expression"@ || kind == "switch_statement"@ || kind == "case"@ || kind
        == "cond"@ || kind == "with"@ {
        BranchKind::Switch
    } else if kind == "case_clause"@ || kind == "match_arm"@ {
        BranchKind::SwitchCase
    } else if kind == "try_expression"@ || kind == "try_statement"@ || kind == "rescue"@ || kind
        == "catch_clause"@ || kind == "except_clause"@ || kind == "elif_clause"@ {
        BranchKind::Exception
    } else {
        BranchKind::Conditional
    }
}

fn kind_by_name(kind: &str) -> (r: BranchKind)
    ensures
        r == spec_kind_by_name(kind@),
{
    if str_eq(kind, "if_expression") || str_eq(kind, "if_statement") || str_eq(kind, "if")
        || str_eq(kind, "conditional_expression") || str_eq(kind, "unless") {
        BranchKind::Conditional
    } else if str_eq(kind, "for_expression") || str_eq(kind, "for_statement") || str_eq(kind, "for")
        || str_eq(kind, "for_in_statement") || str_eq(kind, "while_expression") || str_eq(
        kind,
        "while_statement",
    ) || str_eq(kind, "while") || str_eq(kind, "loop_expression") || str_eq(kind, "do_statement") {
        BranchKind::Loop
    } else if str_eq(kind, "match_expression") || str_eq(kind, "switch_statement") || str_eq(
        kind,
        "case",
    ) || str_eq(kind, "cond") || str_eq(kind, "with") {
        BranchKind::Switch
    } else if str_eq(kind, "case_clause") || str_eq(kind, "match_arm") {
        BranchKind::SwitchCase
    } else if str_eq(kind, "try_expression") || str_eq(kind, "try_statement") || str_eq(
        kind,
        "rescue",
    ) || str_eq(kind, "catch_clause") || str_eq(kind, "except_clause") || str_eq(kind, "elif_clause") {
        BranchKind::Exception
    } else {
        BranchKind::Conditional
    }
}

impl LanguageSpec {
    pub open spec fn spec_is_function(self, kind: Seq<char>) -> bool {
        table_has(self.function_nodes@, kind)
    }

    pub open spec fn spec_is_branch(self, kind: Seq<char>) -> bool {
        table_has(self.branch_nodes@, kind)
    }

    pub open spec fn spec_is_block(self, kind: Seq<char>) -> bool {
        table_has(self.block_nodes@, kind)
    }

    pub open spec fn spec_is_import(self, kind: Seq<char>) -> bool {
        table_has(self.import_nodes@, kind)
    }

    pub open spec fn spec_is_export(self, kind: Seq<char>) -> bool {
        table_has(self.export_nodes@, kind)
    }

    pub open spec fn spec_is_boolean_and(self, kind: Seq<char>) -> bool {
        table_has(self.boolean_and_nodes@, kind)
    }

    pub open spec fn spec_is_boolean_or(self, kind: Seq<char>) -> bool {
        table_has(self.boolean_or_nodes@, kind)
    }

    pub open spec fn spec_is_else(self, kind: Seq<char>) -> bool {
        table_has(self.else_nodes@, kind)
    }

    /// The branch kind of a node kind: the boolean and else tables first,
    /// then the kind's name.
    pub open spec fn spec_classify_branch(self, kind: Seq<char>) -> BranchKind {
        if self.spec_is_boolean_and(kind) {
            BranchKind::BooleanAnd
        } else if self.spec_is_boolean_or(kind) {
            BranchKind::BooleanOr
        } else if self.spec_is_else(kind) {
            BranchKind::Else
        } else {
            spec_kind_by_name(kind)
        }
    }

    /// Check if node kind is a function.
    pub fn is_function(&self, kind: &str) -> (r: bool)
        ensures
            r == self.spec_is_function(kind@),
    {
        str_in(self.function_nodes, kind)
    }

    /// Check if node kind is a branch (affects CC).
    pub fn is_branch(&self, kind: &str) -> (r: bool)
        ensures
            r == self.spec_is_branch(kind@),
    {
        str_in(self.branch_nodes, kind)
    }

    /// Check if node kind is a block (affects nesting depth).
    pub fn is_block(&self, kind: &str) -> (r: bool)
        ensures
            r == self.spec_is_block(kind@),
    {
        str_in(self.block_nodes, kind)
    }

    /// Check if node kind is an import.
    pub fn is_import(&self, kind: &str) -> (r: bool)
        ensures
            r == self.spec_is_import(kind@),
    {
        str_in(self.import_nodes, kind)
    }

    /// Check if node kind is an export.
    pub fn is_export(&self, kind: &str) -> (r: bool)
        ensures
            r == self.spec_is_export(kind@),
    {
        str_in(self.export_nodes, kind)
    }

    /// Check if node kind is boolean AND.
    pub fn is_boolean_and(&self, kind: &str) -> (r: bool)
        ensures
            r == self.spec_is_boolean_and(kind@),
    {
        str_in(self.boolean_and_nodes, kind)
    }

    /// Check if node kind is boolean OR.
    pub fn is_boolean_or(&self, kind: &str) -> (r: bool)
        ensures
            r == self.spec_is_boolean_or(kind@),
    {
        str_in(self.boolean_or_nodes, kind)
    }

    /// Check if node kind is else/else-if.
    pub fn is_else(&self, kind: &str) -> (r: bool)
        ensures
            r == self.spec_is_else(kind@),
    {
        str_in(self.else_nodes, kind)
    }

    /// Classify branch type for cognitive complexity.
    pub fn classify_branch(&self, kind: &str) -> (r: BranchKind)
        ensures
            r == self.spec_classify_branch(kind@),
    {
        if self.is_boolean_and(kind) {
            return BranchKind::BooleanAnd;
        }
        if self.is_boolean_or(kind) {
            return BranchKind::BooleanOr;
        }
        if self.is_else(kind) {
            return BranchKind::Else;
        }
        kind_by_name(kind)
    }

    pub open spec fn spec_rust() -> LanguageSpec {
        LanguageSpec {
            function_nodes: &["function_item", "impl_item", "closure_expression"],
            branch_nodes: &[
                "if_expression",
                "match_expression",
                "for_expression",
                "while_expression",
                "loop_expression",
            ],
            block_nodes: &["block", "declaration_list"],
            import_nodes: &["use_declaration"],
            export_nodes: &["function_item", "struct_item", "enum_item", "trait_item"],
            boolean_and_nodes: &["binary_expression"],
            boolean_or_nodes: &[],
            else_nodes: &["else_clause"],
        }
    }

    pub fn rust() -> (r: LanguageSpec)
        ensures
            r == Self::spec_rust(),
    {
        LanguageSpec {
            function_nodes: &["function_item", "impl_item", "closure_expression"],
            branch_nodes: &[
                "if_expression",
                "match_expression",
                "for_expression",
                "while_expression",
                "loop_expression",
            ],
            block_nodes: &["block", "declaration_list"],
            import_nodes: &["use_declaration"],
            export_nodes: &["function_item", "struct_item", "enum_item", "trait_item"],
            boolean_and_nodes: &["binary_expression"],
            boolean_or_nodes: &[],
            else_nodes: &["else_clause"],
        }
    }
    pub open spec fn spec_typescript() -> LanguageSpec {
        LanguageSpec {
            function_nodes: &["function_declaration", "method_definition", "arrow_function", "function_expression"],
            branch_nodes: &["if_statement", "switch_statement", "for_statement", "for_in_statement", "while_statement", "do_statement", "conditional_expression"],
            block_nodes: &["statement_block", "class_body"],
            import_nodes: &["import_statement", "import_specifier"],
            export_nodes: &["export_statement"],
            boolean_and_nodes: &[],
            boolean_or_nodes: &[],
            else_nodes: &["else_clause"],
        }
    }

    pub fn typescript() -> (r: LanguageSpec)
        ensures
            r == Self::spec_typescript(),
    {
        LanguageSpec {
            function_nodes: &["function_declaration", "method_definition", "arrow_function", "function_expression"],
            branch_nodes: &["if_statement", "switch_statement", "for_statement", "for_in_statement", "while_statement", "do_statement", "conditional_expression"],
            block_nodes: &["statement_block", "class_body"],
            import_nodes: &["import_statement", "import_specifier"],
            export_nodes: &["export_statement"],
            boolean_and_nodes: &[],
            boolean_or_nodes: &[],
            else_nodes: &["else_clause"],
        }
    }

    pub open spec fn spec_javascript() -> LanguageSpec {
        LanguageSpec {
            function_nodes: &["function_declaration", "method_definition", "arrow_function", "function_expression"],
            branch_nodes: &["if_statement", "switch_statement", "for_statement", "for_in_statement", "while_statement", "do_statement", "conditional_expression"],
            block_nodes: &["statement_block", "class_body"],
            import_nodes: &["import_statement", "call_expression"],
            export_nodes: &["export_statement"],
            boolean_and_nodes: &[],
            boolean_or_nodes: &[],
            else_nodes: &["else_clause"],
        }
    }

    pub fn javascript() -> (r: LanguageSpec)
        ensures
            r == Self::spec_javascript(),
    {
        LanguageSpec {
            function_nodes: &["function_declaration", "method_definition", "arrow_function", "function_expression"],
            branch_nodes: &["if_statement", "switch_statement", "for_statement", "for_in_statement", "while_statement", "do_statement", "conditional_expression"],
            block_nodes: &["statement_block", "class_body"],
            import_nodes: &["import_statement", "call_expression"],
            export_nodes: &["export_statement"],
            boolean_and_nodes: &[],
            boolean_or_nodes: &[],
            else_nodes: &["else_clause"],
        }
    }

    pub open spec fn spec_python() -> LanguageSpec {
        LanguageSpec {
            function_nodes: &["function_definition", "class_definition", "lambda"],
            branch_nodes: &["if_statement", "elif_clause", "for_statement", "while_statement", "try_statement", "except_clause", "conditional_expression"],
            block_nodes: &["block", "class_body"],
            import_nodes: &["import_statement", "import_from_statement"],
            export_nodes: &[],
            boolean_and_nodes: &["and_operator"],
            boolean_or_nodes: &["or_operator"],
            else_nodes: &["else_clause"],
        }
    }

    pub fn python() -> (r: LanguageSpec)
        ensures
            r == Self::spec_python(),
    {
        LanguageSpec {
            function_nodes: &["function_definition", "class_definition", "lambda"],
            branch_nodes: &["if_statement", "elif_clause", "for_statement", "while_statement", "try_statement", "except_clause", "conditional_expression"],
            block_nodes: &["block", "class_body"],
            import_nodes: &["import_statement", "import_from_statement"],
            export_nodes: &[],
            boolean_and_nodes: &["and_operator"],
            boolean_or_nodes: &["or_operator"],
            else_nodes: &["else_clause"],
        }
    }

    pub open spec fn spec_go() -> LanguageSpec {
        LanguageSpec {
            function_nodes: &["function_declaration", "method_declaration", "func_literal"],
            branch_nodes: &["if_statement", "switch_statement", "for_statement", "select_statement", "type_switch_statement"],
            block_nodes: &["block"],
            import_nodes: &["import_declaration", "import_spec"],
            export_nodes: &["function_declaration", "type_declaration"],
            boolean_and_nodes: &[],
            boolean_or_nodes: &[],
            else_nodes: &["else_clause"],
        }
    }

    pub fn go() -> (r: LanguageSpec)
        ensures
            r == Self::spec_go(),
    {
        LanguageSpec {
            function_nodes: &["function_declaration", "method_declaration", "func_literal"],
            branch_nodes: &["if_statement", "switch_statement", "for_statement", "select_statement", "type_switch_statement"],
            block_nodes: &["block"],
            import_nodes: &["import_declaration", "import_spec"],
            export_nodes: &["function_declaration", "type_declaration"],
            boolean_and_nodes: &[],
            boolean_or_nodes: &[],
            else_nodes: &["else_clause"],
        }
    }

    pub open spec fn spec_java() -> LanguageSpec {
        LanguageSpec {
            function_nodes: &["method_declaration", "constructor_declaration", "class_declaration", "lambda_expression"],
            branch_nodes: &["if_statement", "while_statement", "for_statement", "do_statement", "switch_statement", "try_statement", "catch_clause", "ternary_expression"],
            block_nodes: &["block"],
            import_nodes: &["import_declaration"],
            export_nodes: &["class_declaration", "interface_declaration", "method_declaration"],
            boolean_and_nodes: &[],
            boolean_or_nodes: &[],
            else_nodes: &["else"],
        }
    }

    pub fn java() -> (r: LanguageSpec)
        ensures
            r == Self::spec_java(),
    {
        LanguageSpec {
            function_nodes: &["method_declaration", "constructor_declaration", "class_declaration", "lambda_expression"],
            branch_nodes: &["if_statement", "while_statement", "for_statement", "do_statement", "switch_statement", "try_statement", "catch_clause", "ternary_expression"],
            block_nodes: &["block"],
            import_nodes: &["import_declaration"],
            export_nodes: &["class_declaration", "interface_declaration", "method_declaration"],
            boolean_and_nodes: &[],
            boolean_or_nodes: &[],
            else_nodes: &["else"],
        }
    }

    pub open spec fn spec_csharp() -> LanguageSpec {
        LanguageSpec {
            function_nodes: &["method_declaration", "constructor_declaration", "class_declaration", "struct_declaration", "lambda_expression", "local_function_statement"],
            branch_nodes: &["if_statement", "while_statement", "for_statement", "foreach_statement", "switch_statement", "try_statement", "catch_clause", "ternary_expression"],
            block_nodes: &["block", "switch_body"],
            import_nodes: &["using_directive"],
            export_nodes: &["class_declaration", "struct_declaration", "interface_declaration", "method_declaration", "delegate_declaration"],
            boolean_and_nodes: &[],
            boolean_or_nodes: &[],
            else_nodes: &["else_clause"],
        }
    }

    pub fn csharp() -> (r: LanguageSpec)
        ensures
            r == Self::spec_csharp(),
    {
        LanguageSpec {
            function_nodes: &["method_declaration", "constructor_declaration", "class_declaration", "struct_declaration", "lambda_expression", "local_function_statement"],
            branch_nodes: &["if_statement", "while_statement", "for_statement", "foreach_statement", "switch_statement", "try_statement", "catch_clause", "ternary_expression"],
            block_nodes: &["block", "switch_body"],
            import_nodes: &["using_directive"],
            export_nodes: &["class_declaration", "struct_declaration", "interface_declaration", "method_declaration", "delegate_declaration"],
            boolean_and_nodes: &[],
            boolean_or_nodes: &[],
            else_nodes: &["else_clause"],
        }
    }

    pub open spec fn spec_cpp() -> LanguageSpec {
        LanguageSpec {
            function_nodes: &["function_definition", "method_definition", "lambda_expression", "class_specifier"],
            branch_nodes: &["if_statement", "while_statement", "for_statement", "switch_statement", "try_statement", "catch_clause"],
            block_nodes: &["compound_statement"],
            import_nodes: &[],
            export_nodes: &["function_definition", "class_specifier", "struct_specifier"],
            boolean_and_nodes: &[],
            boolean_or_nodes: &[],
            else_nodes: &["else_clause"],
        }
    }

    pub fn cpp() -> (r: LanguageSpec)
        ensures
            r == Self::spec_cpp(),
    {
        LanguageSpec {
            function_nodes: &["function_definition", "method_definition", "lambda_expression", "class_specifier"],
            branch_nodes: &["if_statement", "while_statement", "for_statement", "switch_statement", "try_statement", "catch_clause"],
            block_nodes: &["compound_statement"],
            import_nodes: &[],
            export_nodes: &["function_definition", "class_specifier", "struct_specifier"],
            boolean_and_nodes: &[],
            boolean_or_nodes: &[],
            else_nodes: &["else_clause"],
        }
    }

    pub open spec fn spec_elixir() -> LanguageSpec {
        LanguageSpec {
            function_nodes: &["call", "def", "defp", "defmodule", "anonymous_function"],
            branch_nodes: &["if", "unless", "case", "cond", "with", "try", "rescue", "for"],
            block_nodes: &["do_block", "block"],
            import_nodes: &["import", "alias", "use", "require"],
            export_nodes: &["def"],
            boolean_and_nodes: &["and"],
            boolean_or_nodes: &["or"],
            else_nodes: &["else"],
        }
    }

    pub fn elixir() -> (r: LanguageSpec)
        ensures
            r == Self::spec_elixir(),
    {
        LanguageSpec {
            function_nodes: &["call", "def", "defp", "defmodule", "anonymous_function"],
            branch_nodes: &["if", "unless", "case", "cond", "with", "try", "rescue", "for"],
            block_nodes: &["do_block", "block"],
            import_nodes: &["import", "alias", "use", "require"],
            export_nodes: &["def"],
            boolean_and_nodes: &["and"],
            boolean_or_nodes: &["or"],
            else_nodes: &["else"],
        }
    }
}

impl BranchKind {
    pub open spec fn spec_adds_cc(self) -> bool {
        !(self == BranchKind::SwitchCase || self == BranchKind::Else)
    }

    pub open spec fn spec_adds_nesting_penalty(self) -> bool {
        self == BranchKind::Conditional || self == BranchKind::Loop || self == BranchKind::Switch
            || self == BranchKind::Exception
    }

    pub open spec fn spec_increases_nesting(self) -> bool {
        self.spec_adds_nesting_penalty() || self == BranchKind::Else
    }

    /// Does this branch add to cyclomatic complexity?
    pub fn adds_cc(&self) -> (r: bool)
        ensures
            r == self.spec_adds_cc(),
    {
        !matches!(self, Self::SwitchCase | Self::Else)
    }

    /// Does this branch add nesting penalty for cognitive complexity?
    pub fn adds_nesting_penalty(&self) -> (r: bool)
        ensures
            r == self.spec_adds_nesting_penalty(),
    {
        matches!(self, Self::Conditional | Self::Loop | Self::Switch | Self::Exception)
    }

    /// Does this branch increase cognitive nesting level?
    pub fn increases_nesting(&self) -> (r: bool)
        ensures
            r == self.spec_increases_nesting(),
    {
        matches!(self, Self::Conditional | Self::Loop | Self::Switch | Self::Exception | Self::Else)
    }
}

} // verus!
