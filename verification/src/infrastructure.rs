//! Syntax-node tables by language for the event adapter: which node kinds
//! are functions, branches, blocks, imports and exports.
use vstd::prelude::*;
use crate::domain::entropy::{SymbolDistribution, counts_sum, entries_ok, kind_counts, lemma_count_le_sum, lemma_insert_sum};
use crate::lang::Language;
use crate::syntax::{SyntaxNode, SyntaxNodeView, node_views, spec_syntax_nodes, syntax_nodes};
use crate::domain::events::{BranchType, StructuralEvent};
use crate::domain::primitives::{BytePos, DomainError, LanguageId, SourceText};
use crate::text::{concat_str, owned, str_eq, str_in, table_has};
use crate::data::utf8_bytes;
use crate::walk::{node_text, opt_view, spec_node_text, walk_steps, walk_steps_of};
use crate::domain::events::symbol_ok;

verus! {

/// Node kinds of one language, by structural category.
pub struct LanguageSpec {
    pub function_nodes: &'static [&'static str],
    pub branch_nodes: &'static [&'static str],
    pub block_nodes: &'static [&'static str],
    pub import_nodes: &'static [&'static str],
    pub export_nodes: &'static [&'static str],
}

impl LanguageSpec {
    pub open spec fn spec_rust() -> LanguageSpec {
        LanguageSpec {
            function_nodes: &["function_item", "impl_item", "closure_expression"],
            branch_nodes: &["if_expression", "match_expression", "for_expression", "while_expression", "loop_expression"],
            block_nodes: &["block", "declaration_list"],
            import_nodes: &["use_declaration"],
            export_nodes: &["function_item", "struct_item", "enum_item", "trait_item"],
        }
    }

    pub fn rust() -> (r: LanguageSpec)
        ensures
            r == Self::spec_rust(),
    {
        LanguageSpec {
            function_nodes: &["function_item", "impl_item", "closure_expression"],
            branch_nodes: &["if_expression", "match_expression", "for_expression", "while_expression", "loop_expression"],
            block_nodes: &["block", "declaration_list"],
            import_nodes: &["use_declaration"],
            export_nodes: &["function_item", "struct_item", "enum_item", "trait_item"],
        }
    }

    pub open spec fn spec_typescript() -> LanguageSpec {
        LanguageSpec {
            function_nodes: &["function_declaration", "method_definition", "arrow_function", "function_expression"],
            branch_nodes: &["if_statement", "switch_statement", "for_statement", "for_in_statement", "while_statement", "do_statement", "conditional_expression"],
            block_nodes: &["statement_block", "class_body"],
            import_nodes: &["import_statement", "import_specifier"],
            export_nodes: &["export_statement"],
        }
    }

    pub fn typescript() -> (r: LanguageSpec)
        ensures
            r == Self::spec_typescript(),
    {
        LanguageSpec {
            function_nodes: &["function_declaration", "method_definition", "arrow_function", "function_expression"],
            branch_nodes: &["if_statement", "switch_statement", "for_statement", "for_in_statement", "while_statement", "do_statement", "conditional_expression"],
            block_nodes: &["statement_block", "class_body"],
            import_nodes: &["import_statement", "import_specifier"],
            export_nodes: &["export_statement"],
        }
    }

    pub open spec fn spec_javascript() -> LanguageSpec {
        LanguageSpec {
            function_nodes: &["function_declaration", "method_definition", "arrow_function", "function_expression"],
            branch_nodes: &["if_statement", "switch_statement", "for_statement", "for_in_statement", "while_statement", "do_statement", "conditional_expression"],
            block_nodes: &["statement_block", "class_body"],
            import_nodes: &["import_statement", "call_expression"],
            export_nodes: &["export_statement"],
        }
    }

    pub fn javascript() -> (r: LanguageSpec)
        ensures
            r == Self::spec_javascript(),
    {
        LanguageSpec {
            function_nodes: &["function_declaration", "method_definition", "arrow_function", "function_expression"],
            branch_nodes: &["if_statement", "switch_statement", "for_statement", "for_in_statement", "while_statement", "do_statement", "conditional_expression"],
            block_nodes: &["statement_block", "class_body"],
            import_nodes: &["import_statement", "call_expression"],
            export_nodes: &["export_statement"],
        }
    }

    pub open spec fn spec_python() -> LanguageSpec {
        LanguageSpec {
            function_nodes: &["function_definition", "class_definition", "lambda"],
            branch_nodes: &["if_statement", "elif_clause", "for_statement", "while_statement", "try_statement", "except_clause", "conditional_expression"],
            block_nodes: &["block", "class_body"],
            import_nodes: &["import_statement", "import_from_statement"],
            export_nodes: &[],
        }
    }

    pub fn python() -> (r: LanguageSpec)
        ensures
            r == Self::spec_python(),
    {
        LanguageSpec {
            function_nodes: &["function_definition", "class_definition", "lambda"],
            branch_nodes: &["if_statement", "elif_clause", "for_statement", "while_statement", "try_statement", "except_clause", "conditional_expression"],
            block_nodes: &["block", "class_body"],
            import_nodes: &["import_statement", "import_from_statement"],
            export_nodes: &[],
        }
    }

    pub open spec fn spec_go() -> LanguageSpec {
        LanguageSpec {
            function_nodes: &["function_declaration", "method_declaration", "func_literal"],
            branch_nodes: &["if_statement", "switch_statement", "for_statement", "select_statement", "type_switch_statement"],
            block_nodes: &["block"],
            import_nodes: &["import_declaration", "import_spec"],
            export_nodes: &["function_declaration", "type_declaration"],
        }
    }

    pub fn go() -> (r: LanguageSpec)
        ensures
            r == Self::spec_go(),
    {
        LanguageSpec {
            function_nodes: &["function_declaration", "method_declaration", "func_literal"],
            branch_nodes: &["if_statement", "switch_statement", "for_statement", "select_statement", "type_switch_statement"],
            block_nodes: &["block"],
            import_nodes: &["import_declaration", "import_spec"],
            export_nodes: &["function_declaration", "type_declaration"],
        }
    }

    pub open spec fn spec_elixir() -> LanguageSpec {
        LanguageSpec {
            function_nodes: &["call", "def", "defp", "defmodule", "anonymous_function"],
            branch_nodes: &["if", "unless", "case", "cond", "with", "try", "rescue", "for"],
            block_nodes: &["do_block", "block"],
            import_nodes: &["import", "alias", "use", "require"],
            export_nodes: &["def"],
        }
    }

    pub fn elixir() -> (r: LanguageSpec)
        ensures
            r == Self::spec_elixir(),
    {
        LanguageSpec {
            function_nodes: &["call", "def", "defp", "defmodule", "anonymous_function"],
            branch_nodes: &["if", "unless", "case", "cond", "with", "try", "rescue", "for"],
            block_nodes: &["do_block", "block"],
            import_nodes: &["import", "alias", "use", "require"],
            export_nodes: &["def"],
        }
    }

    pub open spec fn spec_java() -> LanguageSpec {
        LanguageSpec {
            function_nodes: &["method_declaration", "constructor_declaration", "class_declaration", "lambda_expression"],
            branch_nodes: &["if_statement", "while_statement", "for_statement", "do_statement", "switch_statement", "try_statement", "catch_clause", "ternary_expression"],
            block_nodes: &["block"],
            import_nodes: &["import_declaration"],
            export_nodes: &["class_declaration", "interface_declaration", "method_declaration"],
        }
    }

    pub fn java() -> (r: LanguageSpec)
        ensures
            r == Self::spec_java(),
    {
        LanguageSpec {
            function_nodes: &["method_declaration", "constructor_declaration", "class_declaration", "lambda_expression"],
            branch_nodes: &["if_statement", "while_statement", "for_statement", "do_statement", "switch_statement", "try_statement", "catch_clause", "ternary_expression"],
            block_nodes: &["block"],
            import_nodes: &["import_declaration"],
            export_nodes: &["class_declaration", "interface_declaration", "method_declaration"],
        }
    }

    pub open spec fn spec_csharp() -> LanguageSpec {
        LanguageSpec {
            function_nodes: &["method_declaration", "constructor_declaration", "class_declaration", "struct_declaration", "lambda_expression", "local_function_statement"],
            branch_nodes: &["if_statement", "while_statement", "for_statement", "foreach_statement", "switch_statement", "try_statement", "catch_clause", "ternary_expression"],
            block_nodes: &["block", "switch_body"],
            import_nodes: &["using_directive"],
            export_nodes: &["class_declaration", "struct_declaration", "interface_declaration", "method_declaration", "delegate_declaration"],
        }
    }

    pub fn csharp() -> (r: LanguageSpec)
        ensures
            r == Self::spec_csharp(),
    {
        LanguageSpec {
            function_nodes: &["method_declaration", "constructor_declaration", "class_declaration", "struct_declaration", "lambda_expression", "local_function_statement"],
            branch_nodes: &["if_statement", "while_statement", "for_statement", "foreach_statement", "switch_statement", "try_statement", "catch_clause", "ternary_expression"],
            block_nodes: &["block", "switch_body"],
            import_nodes: &["using_directive"],
            export_nodes: &["class_declaration", "struct_declaration", "interface_declaration", "method_declaration", "delegate_declaration"],
        }
    }

    pub open spec fn spec_cpp() -> LanguageSpec {
        LanguageSpec {
            function_nodes: &["function_definition", "method_definition", "lambda_expression", "class_specifier"],
            branch_nodes: &["if_statement", "while_statement", "for_statement", "switch_statement", "try_statement", "catch_clause"],
            block_nodes: &["compound_statement"],
            import_nodes: &[],
            export_nodes: &["function_definition", "class_specifier", "struct_specifier"],
        }
    }

    pub fn cpp() -> (r: LanguageSpec)
        ensures
            r == Self::spec_cpp(),
    {
        LanguageSpec {
            function_nodes: &["function_definition", "method_definition", "lambda_expression", "class_specifier"],
            branch_nodes: &["if_statement", "while_statement", "for_statement", "switch_statement", "try_statement", "catch_clause"],
            block_nodes: &["compound_statement"],
            import_nodes: &[],
            export_nodes: &["function_definition", "class_specifier", "struct_specifier"],
        }
    }

}

/// The kinds of a sequence of nodes.
pub open spec fn node_kinds(nodes: Seq<SyntaxNodeView>) -> Seq<Seq<char>> {
    nodes.map_values(|n: SyntaxNodeView| n.kind)
}

/// Counts the kinds of all nodes of a parsed source, in pre-order: the
/// distribution of the kinds of the parse's nodes and their number; `None`
/// when there are more nodes than a `u32` counts.
pub fn count_node_types(language: Language, source: &[u8]) -> (r: Option<(SymbolDistribution, u32)>)
    ensures
        r is Some <==> spec_syntax_nodes(language, source@).len() <= u32::MAX,
        r matches Some((d, n)) ==> d.wf() && d@ == kind_counts(node_kinds(spec_syntax_nodes(language, source@)))
            && n == spec_syntax_nodes(language, source@).len() && counts_sum(d@) == n && n > 0,
{
    let nodes = syntax_nodes(language, source);
    let ghost ns = node_views(nodes@);
    if nodes.len() > u32::MAX as usize {
        return None;
    }
    let mut dist = SymbolDistribution::new();
    let mut node_count: u32 = 0;
    let mut i: usize = 0;
    while i < nodes.len()
        invariant
            ns == node_views(nodes@),
            nodes@.len() <= u32::MAX,
            0 <= i <= nodes@.len(),
            node_count == i,
            dist.wf(),
            dist@ == kind_counts(node_kinds(ns).take(i as int)),
            counts_sum(dist@) == node_count,
        decreases nodes@.len() - i,
    {
        let kind = nodes[i].kind.clone();
        proof {
            assert(ns[i as int] == nodes@[i as int]@);
            assert forall|q: int| 0 <= q < dist@.len() && #[trigger] dist@[q].0 == kind@ implies dist@[q].1 < u32::MAX by {
                lemma_count_le_sum(dist@, q);
            }
            assert(node_kinds(ns).take(i + 1).drop_last() =~= node_kinds(ns).take(i as int));
        }
        let ghost before = dist@;
        dist.insert(kind);
        proof {
            lemma_insert_sum(before, dist@, node_kinds(ns)[i as int]);
        }
        node_count += 1;
        i += 1;
    }
    proof {
        assert(node_kinds(ns).take(i as int) =~= node_kinds(ns));
    }
    Some((dist, node_count))
}

/// The branch type of a branch node's kind.
pub open spec fn spec_classify_branch(kind: Seq<char>) -> BranchType {
    if kind == "if_expression"@ || kind == "if_statement"@ || kind == "if"@ || kind == "conditional_expression"@ || kind == "unless"@ {
        BranchType::Conditional
    } else if kind == "for_expression"@ || kind == "for_statement"@ || kind == "for"@ || kind == "for_in_statement"@
        || kind == "while_expression"@ || kind == "while_statement"@ || kind == "while"@ || kind == "loop_expression"@ {
        BranchType::Loop
    } else if kind == "match_expression"@ || kind == "switch_statement"@ || kind == "case"@ || kind == "case_clause"@
        || kind == "cond"@ || kind == "with"@ {
        BranchType::Switch
    } else if kind == "try_expression"@ || kind == "try_statement"@ || kind == "rescue"@ || kind == "catch_clause"@
        || kind == "except_clause"@ || kind == "elif_clause"@ {
        BranchType::Exception
    } else {
        BranchType::Conditional
    }
}

/// Kinds of comments.
pub open spec fn comment_kinds() -> Seq<&'static str> {
    seq!["comment", "line_comment", "block_comment", "doc_comment"]
}

/// Kinds of punctuation: syntax glue rather than choices of the author.
pub open spec fn punctuation_kinds() -> Seq<&'static str> {
    seq![
        ";", ",", ".", "(", ")", "[", "]", "{", "}", "<", ">", ":", "::", "->", "=>", "=", "+", "-", "*", "/", "%", "!",
        "~", "&", "|", "^", "?", "@", "#", "$", "_", "\\", "'", "\"", "`",
    ]
}

/// A node kind counts as a structural symbol unless it is a comment or
/// punctuation.
pub open spec fn spec_is_valid_symbol(kind: Seq<char>) -> bool {
    !table_has(comment_kinds(), kind) && !table_has(punctuation_kinds(), kind)
}

/// What entering a node of a kind records, by the first table that holds
/// the kind: a function start, a block entry, a branch, an import or an
/// export; nothing for other kinds.
pub enum EntryClass {
    Function,
    Block,
    Branch,
    Import,
    Export,
    Other,
}

pub open spec fn entry_class(spec: LanguageSpec, kind: Seq<char>) -> EntryClass {
    if table_has(spec.function_nodes@, kind) {
        EntryClass::Function
    } else if table_has(spec.block_nodes@, kind) {
        EntryClass::Block
    } else if table_has(spec.branch_nodes@, kind) {
        EntryClass::Branch
    } else if table_has(spec.import_nodes@, kind) {
        EntryClass::Import
    } else if table_has(spec.export_nodes@, kind) {
        EntryClass::Export
    } else {
        EntryClass::Other
    }
}

/// An event as a specification value: its variant, its span's ends, and its
/// name, symbol or branch type.
pub enum EventView {
    BlockEntry { start: u32, end: u32 },
    BlockExit { start: u32, end: u32 },
    Branch { start: u32, end: u32, branch_type: BranchType },
    Import { symbol: Seq<char>, start: u32, end: u32 },
    Export { symbol: Seq<char>, start: u32, end: u32 },
    FunctionStart { name: Option<Seq<char>>, start: u32, end: u32 },
    FunctionEnd { start: u32, end: u32 },
    CursorPosition { position: u32 },
}

/// The view of an event.
pub open spec fn event_view(e: StructuralEvent) -> EventView {
    match e {
        StructuralEvent::BlockEntry { span } => EventView::BlockEntry { start: span@.0, end: span@.1 },
        StructuralEvent::BlockExit { span } => EventView::BlockExit { start: span@.0, end: span@.1 },
        StructuralEvent::Branch { span, branch_type } => EventView::Branch { start: span@.0, end: span@.1, branch_type },
        StructuralEvent::Import { symbol, span } => EventView::Import { symbol: symbol@, start: span@.0, end: span@.1 },
        StructuralEvent::Export { symbol, span } => EventView::Export { symbol: symbol@, start: span@.0, end: span@.1 },
        StructuralEvent::FunctionStart { name, span } => EventView::FunctionStart { name: opt_view(name), start: span@.0, end: span@.1 },
        StructuralEvent::FunctionEnd { span } => EventView::FunctionEnd { start: span@.0, end: span@.1 },
        StructuralEvent::CursorPosition { position } => EventView::CursorPosition { position: position@ },
    }
}

/// The views of a sequence of events.
pub open spec fn event_views(events: Seq<StructuralEvent>) -> Seq<EventView> {
    events.map_values(|e: StructuralEvent| event_view(e))
}

/// The child kinds that name a function.
pub open spec fn function_name_kinds() -> Seq<&'static str> {
    seq!["identifier", "name"]
}

/// The child kinds that name an imported symbol.
pub open spec fn import_symbol_kinds() -> Seq<&'static str> {
    seq!["identifier", "scoped_identifier", "dotted_name", "alias"]
}

/// The child kinds that name an exported symbol.
pub open spec fn export_symbol_kinds() -> Seq<&'static str> {
    seq!["identifier", "name"]
}

/// The text of the first child of node `k`, scanning from node `j` on, whose
/// kind is one of `kinds`; nothing when there is none or its text lies
/// outside the source or is not UTF-8.
pub open spec fn spec_first_child_text(nodes: Seq<SyntaxNodeView>, k: int, j: int, source: Seq<u8>, kinds: Seq<&str>) -> Option<Seq<char>>
    decreases nodes.len() - j,
{
    if j < 0 || j >= nodes.len() || nodes[j].depth <= nodes[k].depth {
        None
    } else if nodes[j].depth == nodes[k].depth + 1 && table_has(kinds, nodes[j].kind) {
        match spec_node_text(nodes[j], source) {
            Some(Some(t)) => Some(t),
            _ => None,
        }
    } else {
        spec_first_child_text(nodes, k, j + 1, source, kinds)
    }
}

/// The events of entering node `k`, by its class: a function start with its
/// name, a block entry, a branch of its kind's type, an import or export of
/// its symbol (nothing without one), nothing for other kinds; `None` when
/// the node's span ends before it starts or a symbol is invalid. Spans are
/// the node's byte offsets taken as `u32`.
pub open spec fn spec_entry(tables: LanguageSpec, nodes: Seq<SyntaxNodeView>, source: Seq<u8>, k: int) -> Option<Seq<EventView>> {
    let n = nodes[k];
    let s = n.start_byte as u32;
    let e = n.end_byte as u32;
    match entry_class(tables, n.kind) {
        EntryClass::Function => if e < s { None } else {
            Some(seq![EventView::FunctionStart { name: spec_first_child_text(nodes, k, k + 1, source, function_name_kinds()), start: s, end: e }])
        },
        EntryClass::Block => if e < s { None } else { Some(seq![EventView::BlockEntry { start: s, end: e }]) },
        EntryClass::Branch => if e < s { None } else {
            Some(seq![EventView::Branch { start: s, end: e, branch_type: spec_classify_branch(n.kind) }])
        },
        EntryClass::Import => match spec_first_child_text(nodes, k, k + 1, source, import_symbol_kinds()) {
            None => Some(Seq::empty()),
            Some(sym) => if !symbol_ok(sym) || e < s { None } else { Some(seq![EventView::Import { symbol: sym, start: s, end: e }]) },
        },
        EntryClass::Export => match spec_first_child_text(nodes, k, k + 1, source, export_symbol_kinds()) {
            None => Some(Seq::empty()),
            Some(sym) => if !symbol_ok(sym) || e < s { None } else { Some(seq![EventView::Export { symbol: sym, start: s, end: e }]) },
        },
        EntryClass::Other => Some(Seq::empty()),
    }
}

/// A child kind that names what an import brings in: a plain identifier, a
/// path such as `a::b::C` (a scoped identifier), a dotted name or an alias.
pub open spec fn names_import(kind: Seq<char>) -> bool {
    kind == "identifier"@ || kind == "scoped_identifier"@ || kind == "dotted_name"@ || kind == "alias"@
}

proof fn lemma_import_kinds(kind: Seq<char>)
    ensures
        table_has(import_symbol_kinds(), kind) <==> names_import(kind),
{
    reveal_strlit("identifier");
    reveal_strlit("scoped_identifier");
    reveal_strlit("dotted_name");
    reveal_strlit("alias");
    let t = import_symbol_kinds();
    if names_import(kind) {
        if kind == "identifier"@ {
            assert(t[0]@ == kind);
        } else if kind == "scoped_identifier"@ {
            assert(t[1]@ == kind);
        } else if kind == "dotted_name"@ {
            assert(t[2]@ == kind);
        } else {
            assert(t[3]@ == kind);
        }
    }
    if table_has(t, kind) {
        let i = choose|i: int| 0 <= i < t.len() && #[trigger] t[i]@ == kind;
        assert(i == 0 || i == 1 || i == 2 || i == 3);
    }
}

proof fn lemma_first_child_reaches(nodes: Seq<SyntaxNodeView>, k: int, m: int, j: int, source: Seq<u8>, kinds: Seq<&str>, sym: Seq<char>)
    requires
        0 <= k < m <= j < nodes.len(),
        nodes[j].depth == nodes[k].depth + 1,
        table_has(kinds, nodes[j].kind),
        forall|q: int| #![trigger nodes[q]] m <= q < j ==> nodes[q].depth > nodes[k].depth
            && !(nodes[q].depth == nodes[k].depth + 1 && table_has(kinds, nodes[q].kind)),
        spec_node_text(nodes[j], source) == Some(Some(sym)),
    ensures
        spec_first_child_text(nodes, k, m, source, kinds) == Some(sym),
    decreases j - m,
{
    if m < j {
        lemma_first_child_reaches(nodes, k, m + 1, j, source, kinds, sym);
    }
}

/// A child kind that names an exported symbol or a function: an identifier
/// or a name.
pub open spec fn names_symbol(kind: Seq<char>) -> bool {
    kind == "identifier"@ || kind == "name"@
}

proof fn lemma_name_kinds(kind: Seq<char>)
    ensures
        table_has(export_symbol_kinds(), kind) <==> names_symbol(kind),
        table_has(function_name_kinds(), kind) <==> names_symbol(kind),
{
    reveal_strlit("identifier");
    reveal_strlit("name");
    let t = export_symbol_kinds();
    let f = function_name_kinds();
    if names_symbol(kind) {
        if kind == "identifier"@ {
            assert(t[0]@ == kind);
            assert(f[0]@ == kind);
        } else {
            assert(t[1]@ == kind);
            assert(f[1]@ == kind);
        }
    }
    if table_has(t, kind) {
        let i = choose|i: int| 0 <= i < t.len() && #[trigger] t[i]@ == kind;
        assert(i == 0 || i == 1);
    }
    if table_has(f, kind) {
        let i = choose|i: int| 0 <= i < f.len() && #[trigger] f[i]@ == kind;
        assert(i == 0 || i == 1);
    }
}

/// An export takes its symbol from its first child that is an identifier
/// or a name; a function is named by its first such child. Entering the node
/// gives one export event with that text (when it is a valid symbol and the
/// span is valid), or one function start carrying that name.
pub proof fn law_export_and_function_names(tables: LanguageSpec, nodes: Seq<SyntaxNodeView>, source: Seq<u8>, k: int, j: int, sym: Seq<char>)
    requires
        0 <= k < j < nodes.len(),
        nodes[j].depth == nodes[k].depth + 1,
        names_symbol(nodes[j].kind),
        forall|q: int| #![trigger nodes[q]] k < q < j ==> nodes[q].depth > nodes[k].depth
            && !(nodes[q].depth == nodes[k].depth + 1 && names_symbol(nodes[q].kind)),
        spec_node_text(nodes[j], source) == Some(Some(sym)),
        nodes[k].start_byte as u32 <= nodes[k].end_byte as u32,
    ensures
        entry_class(tables, nodes[k].kind) is Export && symbol_ok(sym) ==> spec_entry(tables, nodes, source, k) == Some(seq![EventView::Export {
            symbol: sym,
            start: nodes[k].start_byte as u32,
            end: nodes[k].end_byte as u32,
        }]),
        entry_class(tables, nodes[k].kind) is Function ==> spec_entry(tables, nodes, source, k) == Some(seq![EventView::FunctionStart {
            name: Some(sym),
            start: nodes[k].start_byte as u32,
            end: nodes[k].end_byte as u32,
        }]),
{
    lemma_name_kinds(nodes[j].kind);
    assert forall|q: int| #![trigger nodes[q]] k < q < j implies nodes[q].depth > nodes[k].depth
        && !(nodes[q].depth == nodes[k].depth + 1 && table_has(export_symbol_kinds(), nodes[q].kind))
        && !(nodes[q].depth == nodes[k].depth + 1 && table_has(function_name_kinds(), nodes[q].kind)) by {
        lemma_name_kinds(nodes[q].kind);
    }
    lemma_first_child_reaches(nodes, k, k + 1, j, source, export_symbol_kinds(), sym);
    lemma_first_child_reaches(nodes, k, k + 1, j, source, function_name_kinds(), sym);
}

/// An import takes its symbol from its first child (in order) that names
/// what it brings in: an identifier, a path (`use a::b::C;` gives the
/// scoped identifier `a::b::C`), a dotted name or an alias. Entering such an
/// import node gives one import event with that child's text as its symbol
/// and the node's span, when the text is a valid symbol and the span valid.
pub proof fn law_import_symbol_from_first_naming_child(tables: LanguageSpec, nodes: Seq<SyntaxNodeView>, source: Seq<u8>, k: int, j: int, sym: Seq<char>)
    requires
        0 <= k < j < nodes.len(),
        entry_class(tables, nodes[k].kind) is Import,
        nodes[j].depth == nodes[k].depth + 1,
        names_import(nodes[j].kind),
        forall|q: int| #![trigger nodes[q]] k < q < j ==> nodes[q].depth > nodes[k].depth
            && !(nodes[q].depth == nodes[k].depth + 1 && names_import(nodes[q].kind)),
        spec_node_text(nodes[j], source) == Some(Some(sym)),
        symbol_ok(sym),
        nodes[k].start_byte as u32 <= nodes[k].end_byte as u32,
    ensures
        spec_entry(tables, nodes, source, k) == Some(seq![EventView::Import {
            symbol: sym,
            start: nodes[k].start_byte as u32,
            end: nodes[k].end_byte as u32,
        }]),
{
    lemma_import_kinds(nodes[j].kind);
    assert forall|q: int| #![trigger nodes[q]] k < q < j implies nodes[q].depth > nodes[k].depth
        && !(nodes[q].depth == nodes[k].depth + 1 && table_has(import_symbol_kinds(), nodes[q].kind)) by {
        lemma_import_kinds(nodes[q].kind);
    }
    lemma_first_child_reaches(nodes, k, k + 1, j, source, import_symbol_kinds(), sym);
}

/// The events of leaving node `k`: a block exit for a block, then a function
/// end for a function; `None` when such a node's span ends before it starts.
pub open spec fn spec_exit(tables: LanguageSpec, nodes: Seq<SyntaxNodeView>, k: int) -> Option<Seq<EventView>> {
    let n = nodes[k];
    let s = n.start_byte as u32;
    let e = n.end_byte as u32;
    let f = table_has(tables.function_nodes@, n.kind);
    let b = table_has(tables.block_nodes@, n.kind);
    if !f && !b {
        Some(Seq::empty())
    } else if e < s {
        None
    } else {
        Some((if b { seq![EventView::BlockExit { start: s, end: e }] } else { Seq::empty() })
            + (if f { seq![EventView::FunctionEnd { start: s, end: e }] } else { Seq::empty() }))
    }
}

/// The events of the first `k` steps of the walk, or `None` when one fails.
pub open spec fn spec_events_upto(tables: LanguageSpec, nodes: Seq<SyntaxNodeView>, source: Seq<u8>, steps: Seq<(bool, usize)>, k: int) -> Option<Seq<EventView>>
    decreases k,
{
    if k <= 0 {
        Some(Seq::empty())
    } else {
        match spec_events_upto(tables, nodes, source, steps, k - 1) {
            Some(evs) => match (if steps[k - 1].0 { spec_entry(tables, nodes, source, steps[k - 1].1 as int) } else { spec_exit(tables, nodes, steps[k - 1].1 as int) }) {
                Some(added) => Some(evs + added),
                None => None,
            },
            None => None,
        }
    }
}

/// The events of the walk of a tree: each node's entry events, then its
/// descendants', then its exit events; `None` when one step fails.
pub open spec fn spec_tree_events(tables: LanguageSpec, nodes: Seq<SyntaxNodeView>, source: Seq<u8>) -> Option<Seq<EventView>> {
    spec_events_upto(tables, nodes, source, walk_steps_of(nodes), walk_steps_of(nodes).len() as int)
}

proof fn lemma_events_none_extends(tables: LanguageSpec, nodes: Seq<SyntaxNodeView>, source: Seq<u8>, steps: Seq<(bool, usize)>, k: int)
    requires
        0 <= k <= steps.len(),
        spec_events_upto(tables, nodes, source, steps, k) is None,
    ensures
        spec_events_upto(tables, nodes, source, steps, steps.len() as int) is None,
    decreases steps.len() - k,
{
    if k < steps.len() {
        lemma_events_none_extends(tables, nodes, source, steps, k + 1);
    }
}

/// The length of the walk that counts kinds for the distribution: from the
/// root it goes on to the next node while that node is a child or the next
/// sibling of the current one, and stops at the first node whose next node
/// lies higher up (the walk does not return to an ancestor's siblings).
pub open spec fn entropy_walk_len(nodes: Seq<SyntaxNodeView>, k: int) -> int
    decreases nodes.len() - k,
{
    if k < 0 || k + 1 >= nodes.len() || nodes[k + 1].depth < nodes[k].depth {
        k + 1
    } else {
        entropy_walk_len(nodes, k + 1)
    }
}

/// The kinds counted by the distribution walk: those of the walked nodes
/// that are structural symbols.
pub open spec fn entropy_kinds(nodes: Seq<SyntaxNodeView>) -> Seq<Seq<char>> {
    node_kinds(nodes.take(entropy_walk_len(nodes, 0))).filter(valid_kind())
}

/// The test for a structural symbol.
pub open spec fn valid_kind() -> spec_fn(Seq<char>) -> bool {
    |k: Seq<char>| spec_is_valid_symbol(k)
}

/// Syntax-tree adapter: turns the parse of a source into structural events
/// and counts of node kinds.
pub struct TreeSitterAdapter {
    language: LanguageId,
    spec: LanguageSpec,
}

impl LanguageSpec {
    /// The tables of a language.
    pub open spec fn spec_for(language: LanguageId) -> LanguageSpec {
        match language {
            LanguageId::Rust => LanguageSpec::spec_rust(),
            LanguageId::TypeScript => LanguageSpec::spec_typescript(),
            LanguageId::JavaScript => LanguageSpec::spec_javascript(),
            LanguageId::Python => LanguageSpec::spec_python(),
            LanguageId::Go => LanguageSpec::spec_go(),
            LanguageId::Java => LanguageSpec::spec_java(),
            LanguageId::CSharp => LanguageSpec::spec_csharp(),
            LanguageId::Elixir => LanguageSpec::spec_elixir(),
            LanguageId::Cpp => LanguageSpec::spec_cpp(),
        }
    }
}

/// The language of the analysis layer's language identifier.
pub open spec fn grammar_language(language: LanguageId) -> Language {
    match language {
        LanguageId::Rust => Language::Rust,
        LanguageId::TypeScript => Language::TypeScript,
        LanguageId::JavaScript => Language::JavaScript,
        LanguageId::Python => Language::Python,
        LanguageId::Go => Language::Go,
        LanguageId::Java => Language::Java,
        LanguageId::CSharp => Language::CSharp,
        LanguageId::Elixir => Language::Elixir,
        LanguageId::Cpp => Language::Cpp,
    }
}

/// The grammar language and the node tables of a language.
fn get_language_and_spec(language: LanguageId) -> (r: (Language, LanguageSpec))
    ensures
        r.0 == grammar_language(language),
        r.1 == LanguageSpec::spec_for(language),
{
    match language {
        LanguageId::Rust => (Language::Rust, LanguageSpec::rust()),
        LanguageId::TypeScript => (Language::TypeScript, LanguageSpec::typescript()),
        LanguageId::JavaScript => (Language::JavaScript, LanguageSpec::javascript()),
        LanguageId::Python => (Language::Python, LanguageSpec::python()),
        LanguageId::Go => (Language::Go, LanguageSpec::go()),
        LanguageId::Java => (Language::Java, LanguageSpec::java()),
        LanguageId::CSharp => (Language::CSharp, LanguageSpec::csharp()),
        LanguageId::Elixir => (Language::Elixir, LanguageSpec::elixir()),
        LanguageId::Cpp => (Language::Cpp, LanguageSpec::cpp()),
    }
}

/// The text of the first child of node `k` whose kind is one of `kinds`;
/// nothing when there is none or its text lies outside the source or is not
/// UTF-8.
fn first_child_text(nodes: &Vec<SyntaxNode>, k: usize, source: &[u8], kinds: &[&str]) -> (r: Option<String>)
    requires
        k < nodes@.len(),
    ensures
        opt_view(r) == spec_first_child_text(node_views(nodes@), k as int, k + 1, source@, kinds@),
{
    let ghost ns = node_views(nodes@);
    let count = nodes.len();
    let mut j: usize = k + 1;
    while j < count && nodes[j].depth > nodes[k].depth
        invariant
            ns == node_views(nodes@),
            count == nodes@.len(),
            k < j <= nodes@.len(),
            spec_first_child_text(ns, k as int, k + 1, source@, kinds@) == spec_first_child_text(ns, k as int, j as int, source@, kinds@),
        decreases nodes@.len() - j,
    {
        proof {
            assert(ns[j as int] == nodes@[j as int]@ && ns[k as int] == nodes@[k as int]@);
        }
        let n = &nodes[j];
        if n.depth as u64 == nodes[k].depth as u64 + 1 && str_in(kinds, n.kind.as_str()) {
            return match node_text(n, source) {
                Some(Some(t)) => Some(t),
                _ => None,
            };
        }
        j += 1;
    }
    proof {
        if j < nodes@.len() {
            assert(ns[j as int] == nodes@[j as int]@ && ns[k as int] == nodes@[k as int]@);
        }
    }
    None
}

impl TreeSitterAdapter {
    pub closed spec fn spec_language(&self) -> LanguageId {
        self.language
    }

    pub closed spec fn spec_tables(&self) -> LanguageSpec {
        self.spec
    }

    /// An adapter for a language; every bundled grammar is accepted, so this
    /// always succeeds.
    pub fn new(language: LanguageId) -> (r: Result<Self, DomainError>)
        ensures
            r matches Ok(a) && a.spec_language() == language && a.spec_tables() == LanguageSpec::spec_for(language),
    {
        let (_, spec) = get_language_and_spec(language);
        Ok(TreeSitterAdapter { language, spec })
    }

    /// The branch type of a branch node's kind.
    fn classify_branch(&self, kind: &str) -> (r: BranchType)
        ensures
            r == spec_classify_branch(kind@),
    {
        if str_eq(kind, "if_expression") || str_eq(kind, "if_statement") || str_eq(kind, "if") || str_eq(kind, "conditional_expression") || str_eq(kind, "unless") {
            BranchType::Conditional
        } else if str_eq(kind, "for_expression") || str_eq(kind, "for_statement") || str_eq(kind, "for") || str_eq(kind, "for_in_statement")
            || str_eq(kind, "while_expression") || str_eq(kind, "while_statement") || str_eq(kind, "while") || str_eq(kind, "loop_expression") {
            BranchType::Loop
        } else if str_eq(kind, "match_expression") || str_eq(kind, "switch_statement") || str_eq(kind, "case") || str_eq(kind, "case_clause")
            || str_eq(kind, "cond") || str_eq(kind, "with") {
            BranchType::Switch
        } else if str_eq(kind, "try_expression") || str_eq(kind, "try_statement") || str_eq(kind, "rescue") || str_eq(kind, "catch_clause")
            || str_eq(kind, "except_clause") || str_eq(kind, "elif_clause") {
            BranchType::Exception
        } else {
            BranchType::Conditional
        }
    }

    /// Whether a node kind counts as a structural symbol.
    fn is_valid_symbol(kind: &str) -> (r: bool)
        ensures
            r == spec_is_valid_symbol(kind@),
    {
        let comments: &[&str] = &["comment", "line_comment", "block_comment", "doc_comment"];
        assert(comments@ == comment_kinds());
        let punctuation: &[&str] = &[
            ";", ",", ".", "(", ")", "[", "]", "{", "}", "<", ">", ":", "::", "->", "=>", "=", "+", "-", "*", "/", "%", "!",
            "~", "&", "|", "^", "?", "@", "#", "$", "_", "\\", "'", "\"", "`",
        ];
        assert(punctuation@ == punctuation_kinds());
        !str_in(comments, kind) && !str_in(punctuation, kind)
    }

    /// Record entering node `k` ([`spec_entry`]); on an error nothing is
    /// recorded.
    fn process_node_entry(&self, events: &mut Vec<StructuralEvent>, nodes: &Vec<SyntaxNode>, k: usize, source: &[u8]) -> (r: Result<(), DomainError>)
        requires
            k < nodes@.len(),
        ensures
            r is Ok <==> spec_entry(self.spec, node_views(nodes@), source@, k as int) is Some,
            r is Ok ==> event_views(final(events)@) == event_views(old(events)@) + spec_entry(self.spec, node_views(nodes@), source@, k as int)->0,
            r is Err ==> final(events)@ == old(events)@,
            r matches Err(e) ==> (e matches DomainError::InvalidSpan(m) && m@ == "end before start"@) || e is EmptySymbol,
    {
        let ghost ns = node_views(nodes@);
        let ghost before = events@;
        let node = &nodes[k];
        assert(ns[k as int] == node@);
        let kind = node.kind.as_str();
        let start = match BytePos::new(node.start_byte as u32) {
            Ok(p) => p,
            Err(e) => return Err(e),
        };
        let end = match BytePos::new(node.end_byte as u32) {
            Ok(p) => p,
            Err(e) => return Err(e),
        };
        let ghost added: Seq<EventView>;
        if str_in(self.spec.function_nodes, kind) {
            let name = first_child_text(nodes, k, source, &["identifier", "name"]);
            match StructuralEvent::function_start(name, start, end) {
                Ok(ev) => {
                    events.push(ev);
                    proof {
                        added = seq![event_view(ev)];
                    }
                },
                Err(e) => return Err(e),
            }
        } else if str_in(self.spec.block_nodes, kind) {
            match StructuralEvent::block_entry(start, end) {
                Ok(ev) => {
                    events.push(ev);
                    proof {
                        added = seq![event_view(ev)];
                    }
                },
                Err(e) => return Err(e),
            }
        } else if str_in(self.spec.branch_nodes, kind) {
            let t = self.classify_branch(kind);
            match StructuralEvent::branch(start, end, t) {
                Ok(ev) => {
                    events.push(ev);
                    proof {
                        added = seq![event_view(ev)];
                    }
                },
                Err(e) => return Err(e),
            }
        } else if str_in(self.spec.import_nodes, kind) {
            match first_child_text(nodes, k, source, &["identifier", "scoped_identifier", "dotted_name", "alias"]) {
                Some(symbol) => match StructuralEvent::import(symbol, start, end) {
                    Ok(ev) => {
                        events.push(ev);
                        proof {
                            added = seq![event_view(ev)];
                        }
                    },
                    Err(e) => return Err(e),
                },
                None => {
                    proof {
                        added = Seq::empty();
                    }
                },
            }
        } else if str_in(self.spec.export_nodes, kind) {
            match first_child_text(nodes, k, source, &["identifier", "name"]) {
                Some(symbol) => match StructuralEvent::export(symbol, start, end) {
                    Ok(ev) => {
                        events.push(ev);
                        proof {
                            added = seq![event_view(ev)];
                        }
                    },
                    Err(e) => return Err(e),
                },
                None => {
                    proof {
                        added = Seq::empty();
                    }
                },
            }
        } else {
            proof {
                added = Seq::empty();
            }
        }
        proof {
            assert(event_views(events@) =~= event_views(before) + added);
        }
        Ok(())
    }

    /// Record leaving node `k` ([`spec_exit`]); on an error nothing is
    /// recorded.
    fn process_node_exit(&self, events: &mut Vec<StructuralEvent>, nodes: &Vec<SyntaxNode>, k: usize) -> (r: Result<(), DomainError>)
        requires
            k < nodes@.len(),
        ensures
            r is Ok <==> spec_exit(self.spec, node_views(nodes@), k as int) is Some,
            r is Ok ==> event_views(final(events)@) == event_views(old(events)@) + spec_exit(self.spec, node_views(nodes@), k as int)->0,
            r is Err ==> final(events)@ == old(events)@,
            r matches Err(e) ==> e matches DomainError::InvalidSpan(m) && m@ == "end before start"@,
    {
        let ghost ns = node_views(nodes@);
        let ghost before = events@;
        let node = &nodes[k];
        assert(ns[k as int] == node@);
        let is_function = str_in(self.spec.function_nodes, node.kind.as_str());
        let is_block = str_in(self.spec.block_nodes, node.kind.as_str());
        if !is_function && !is_block {
            assert(event_views(events@) =~= event_views(before) + Seq::<EventView>::empty());
            return Ok(());
        }
        let start = match BytePos::new(node.start_byte as u32) {
            Ok(p) => p,
            Err(e) => return Err(e),
        };
        let end = match BytePos::new(node.end_byte as u32) {
            Ok(p) => p,
            Err(e) => return Err(e),
        };
        if end.as_u32() < start.as_u32() {
            return Err(DomainError::InvalidSpan(owned("end before start")));
        }
        if is_block {
            match StructuralEvent::block_exit(start, end) {
                Ok(ev) => events.push(ev),
                Err(e) => return Err(e),
            }
        }
        if is_function {
            match StructuralEvent::function_end(start, end) {
                Ok(ev) => events.push(ev),
                Err(e) => return Err(e),
            }
        }
        proof {
            assert(event_views(events@) =~= event_views(before) + spec_exit(self.spec, ns, k as int)->0);
        }
        Ok(())
    }

    /// The structural events of a source ([`spec_tree_events`] of its
    /// parse): each node's entry events, then its descendants', then its
    /// exit events. An error when a node's span ends before it starts or a
    /// symbol is invalid.
    pub fn parse_to_events(&mut self, text: &SourceText) -> (r: Result<Vec<StructuralEvent>, DomainError>)
        ensures
            *final(self) == *old(self),
            r is Ok <==> spec_tree_events(old(self).spec_tables(), spec_syntax_nodes(grammar_language(old(self).spec_language()), utf8_bytes(text@)), utf8_bytes(text@)) is Some,
            r matches Ok(events) ==> Some(event_views(events@)) == spec_tree_events(old(self).spec_tables(), spec_syntax_nodes(grammar_language(old(self).spec_language()), utf8_bytes(text@)), utf8_bytes(text@)),
            r matches Err(e) ==> (e matches DomainError::InvalidSpan(m) && m@ == "end before start"@) || e is EmptySymbol,
    {
        let source = text.as_str().as_bytes();
        let (language, _) = get_language_and_spec(self.language);
        let nodes = syntax_nodes(language, source);
        let ghost ns = node_views(nodes@);
        let steps = walk_steps(&nodes);
        let mut events: Vec<StructuralEvent> = Vec::new();
        let mut i: usize = 0;
        assert(event_views(events@) =~= Seq::<EventView>::empty());
        while i < steps.len()
            invariant
                ns == node_views(nodes@),
                ns == spec_syntax_nodes(grammar_language(self.language), utf8_bytes(text@)),
                *self == *old(self),
                source@ == utf8_bytes(text@),
                steps@ == walk_steps_of(ns),
                forall|q: int| 0 <= q < steps@.len() ==> (#[trigger] steps@[q]).1 < nodes@.len(),
                0 <= i <= steps@.len(),
                spec_events_upto(self.spec, ns, source@, steps@, i as int) == Some(event_views(events@)),
            decreases steps@.len() - i,
        {
            let step = steps[i];
            let res = if step.0 {
                self.process_node_entry(&mut events, &nodes, step.1, source)
            } else {
                self.process_node_exit(&mut events, &nodes, step.1)
            };
            match res {
                Ok(()) => {},
                Err(e) => {
                    proof {
                        assert(spec_events_upto(self.spec, ns, source@, steps@, i + 1) is None);
                        lemma_events_none_extends(self.spec, ns, source@, steps@, i + 1);
                        assert(spec_tree_events(self.spec, ns, source@) is None);
                    }
                    return Err(e);
                },
            }
            i += 1;
        }
        Ok(events)
    }

    /// The counts of the structural node kinds met by the adapter's walk
    /// ([`entropy_kinds`]): from the root it goes on through children and
    /// next siblings and ends where the next node lies higher up. Comments
    /// and punctuation are not counted. An error when the count would leave
    /// `u32`.
    pub fn extract_symbol_distribution(&mut self, text: &SourceText) -> (r: Result<SymbolDistribution, DomainError>)
        ensures
            *final(self) == *old(self),
            r is Ok <==> entropy_kinds(spec_syntax_nodes(grammar_language(old(self).spec_language()), utf8_bytes(text@))).len() <= u32::MAX,
            r matches Ok(d) ==> d.wf() && d@ == kind_counts(entropy_kinds(spec_syntax_nodes(grammar_language(old(self).spec_language()), utf8_bytes(text@)))),
            r matches Err(e) ==> (e matches DomainError::InternalError(m) && m@ == "node count exceeds u32"@),
    {
        let source = text.as_str().as_bytes();
        let (language, _) = get_language_and_spec(self.language);
        let nodes = syntax_nodes(language, source);
        let ghost ns = node_views(nodes@);
        let ghost len = entropy_walk_len(ns, 0);
        let ghost valid = valid_kind();
        let mut distribution = SymbolDistribution::with_capacity(128);
        let mut total: u32 = 0;
        let mut i: usize = 0;
        proof {
            lemma_entropy_walk_len(ns, 0);
            reveal(Seq::filter);
            assert(node_kinds(ns.take(0)) =~= Seq::<Seq<char>>::empty());
        }
        loop
            invariant
                ns == node_views(nodes@),
                ns == spec_syntax_nodes(grammar_language(self.language), utf8_bytes(text@)),
                *self == *old(self),
                nodes@.len() >= 1,
                valid == valid_kind(),
                0 <= i < nodes@.len(),
                i < len <= nodes@.len(),
                len == entropy_walk_len(ns, 0),
                entropy_walk_len(ns, i as int) == len,
                distribution.wf(),
                distribution@ == kind_counts(node_kinds(ns.take(i as int)).filter(valid)),
                counts_sum(distribution@) == total,
                total == node_kinds(ns.take(i as int)).filter(valid).len(),
            decreases nodes@.len() - i,
        {
            let ghost cur = node_kinds(ns.take(i + 1));
            proof {
                assert(ns[i as int] == nodes@[i as int]@);
                assert(cur.drop_last() =~= node_kinds(ns.take(i as int)));
                assert(cur.last() == nodes@[i as int].kind@);
                reveal(Seq::filter);
            }
            if Self::is_valid_symbol(nodes[i].kind.as_str()) {
                if total == u32::MAX {
                    proof {
                        lemma_filter_prefix_len(node_kinds(ns.take(len)), valid, i + 1);
                        assert(node_kinds(ns.take(len)).take(i + 1) =~= cur);
                        assert(entropy_kinds(ns) == node_kinds(ns.take(len)).filter(valid));
                    }
                    return Err(DomainError::InternalError(owned("node count exceeds u32")));
                }
                proof {
                    assert forall|q: int| 0 <= q < distribution@.len() && #[trigger] distribution@[q].0 == nodes@[i as int].kind@ implies distribution@[q].1 < u32::MAX by {
                        lemma_count_le_sum(distribution@, q);
                    }
                }
                let ghost before = distribution@;
                distribution.insert(nodes[i].kind.clone());
                proof {
                    lemma_insert_sum(before, distribution@, nodes@[i as int].kind@);
                    assert(cur.filter(valid).drop_last() =~= node_kinds(ns.take(i as int)).filter(valid));
                }
                total += 1;
            }
            proof {
                lemma_entropy_walk_len(ns, i as int);
            }
            if i < nodes.len() - 1 && nodes[i + 1].depth >= nodes[i].depth {
                proof {
                    assert(ns[i + 1] == nodes@[i + 1]@);
                    lemma_entropy_walk_len(ns, i + 1);
                }
                i += 1;
            } else {
                proof {
                    if i + 1 < nodes@.len() {
                        assert(ns[i + 1] == nodes@[i + 1]@);
                    }
                    assert(len == i + 1);
                    assert(entropy_kinds(ns) == cur.filter(valid));
                }
                return Ok(distribution);
            }
        }
    }
}

/// The walk that counts kinds goes on from node `k` while the next node lies
/// no higher; it ends after node `k` otherwise.
proof fn lemma_entropy_walk_len(nodes: Seq<SyntaxNodeView>, k: int)
    requires
        0 <= k < nodes.len(),
    ensures
        k < entropy_walk_len(nodes, k) <= nodes.len(),
        (k + 1 < nodes.len() && nodes[k + 1].depth >= nodes[k].depth) ==> entropy_walk_len(nodes, k) == entropy_walk_len(nodes, k + 1),
        !(k + 1 < nodes.len() && nodes[k + 1].depth >= nodes[k].depth) ==> entropy_walk_len(nodes, k) == k + 1,
    decreases nodes.len() - k,
{
    if k + 1 < nodes.len() && nodes[k + 1].depth >= nodes[k].depth {
        lemma_entropy_walk_len(nodes, k + 1);
    }
}

/// A filtered prefix is no longer than the filtered whole.
proof fn lemma_filter_prefix_len(s: Seq<Seq<char>>, p: spec_fn(Seq<char>) -> bool, k: int)
    requires
        0 <= k <= s.len(),
    ensures
        s.take(k).filter(p).len() <= s.filter(p).len(),
    decreases s.len() - k,
{
    reveal(Seq::filter);
    if k < s.len() {
        lemma_filter_prefix_len(s, p, k + 1);
        assert(s.take(k + 1).drop_last() =~= s.take(k));
    } else {
        assert(s.take(k) =~= s);
    }
}

} // verus!
