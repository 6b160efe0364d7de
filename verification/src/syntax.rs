//! The calls into tree-sitter: the parse of a source, handed to the library
//! as plain values, and the grammar of each supported language. Nothing here
//! decides anything; what is made of a parse is verified in `walk` and
//! `infrastructure`.
use vstd::prelude::*;
use tree_sitter::Language as Grammar;
use crate::lang::Language;

verus! {

#[verifier::external_type_specification]
#[verifier::external_body]
pub struct ExGrammar(Grammar);

/// One node of a syntax tree, as plain values.
#[derive(Debug, Clone)]
pub struct SyntaxNode {
    /// The node's kind (its type name in the grammar).
    pub kind: String,
    /// The node's depth below the root, which has depth 0.
    pub depth: u32,
    /// The byte offsets of the node's start and end.
    pub start_byte: usize,
    pub end_byte: usize,
    /// The 0-based rows of the node's start and end.
    pub start_row: usize,
    pub end_row: usize,
}

/// A syntax node as a specification value.
pub struct SyntaxNodeView {
    pub kind: Seq<char>,
    pub depth: u32,
    pub start_byte: usize,
    pub end_byte: usize,
    pub start_row: usize,
    pub end_row: usize,
}

impl View for SyntaxNode {
    type V = SyntaxNodeView;

    open spec fn view(&self) -> SyntaxNodeView {
        SyntaxNodeView {
            kind: self.kind@,
            depth: self.depth,
            start_byte: self.start_byte,
            end_byte: self.end_byte,
            start_row: self.start_row,
            end_row: self.end_row,
        }
    }
}

/// The views of a sequence of nodes.
pub open spec fn node_views(nodes: Seq<SyntaxNode>) -> Seq<SyntaxNodeView> {
    nodes.map_values(|n: SyntaxNode| n@)
}

/// The nodes of the syntax tree that tree-sitter parses from `source` with
/// the grammar of `language`, in pre-order (the root first, each node before
/// its children, children in order), each with its depth below the root.
/// The parse depends on the grammar and the bytes alone.
pub uninterp spec fn spec_syntax_nodes(language: Language, source: Seq<u8>) -> Seq<SyntaxNodeView>;

/// Calls `Parser::new`, `Parser::set_language` with the language's grammar,
/// `Parser::parse` on the source with no earlier tree, and lists the tree's
/// nodes with `TreeCursor::goto_descendant` for each index below the root's
/// `Node::descendant_count` (index 0 is the root, then pre-order), taking
/// each node's kind, `TreeCursor::depth`, byte range and rows. Claimed: the
/// list is a function of the language and the bytes, and it is never empty.
/// `set_language` fails only for a grammar whose ABI version is outside the
/// range that tree-sitter accepts, which none of the bundled grammars is;
/// `parse` returns `None` only without a language, a timeout or a
/// cancellation flag, none of which applies; a tree has its root node.
#[verifier::external_body]
pub(crate) fn syntax_nodes(language: Language, source: &[u8]) -> (r: Vec<SyntaxNode>)
    ensures
        node_views(r@) == spec_syntax_nodes(language, source@),
        r@.len() >= 1,
{
    let mut parser = tree_sitter::Parser::new();
    let tree = match parser.set_language(&language.tree_sitter_language()) {
        Ok(()) => parser.parse(source, None),
        Err(_) => None,
    };
    let Some(tree) = tree else { return Vec::new() };
    let root = tree.root_node();
    let mut cursor = root.walk();
    (0..root.descendant_count()).map(|i| {
        cursor.goto_descendant(i);
        let n = cursor.node();
        SyntaxNode { kind: n.kind().to_string(), depth: cursor.depth(), start_byte: n.start_byte(), end_byte: n.end_byte(), start_row: n.start_position().row, end_row: n.end_position().row }
    }).collect()
}

/// The grammar of `tree_sitter_rust`.
#[verifier::external_body]
pub(crate) fn rust_grammar() -> Grammar {
    tree_sitter_rust::LANGUAGE.into()
}

/// The TypeScript grammar of `tree_sitter_typescript`.
#[verifier::external_body]
pub(crate) fn typescript_grammar() -> Grammar {
    tree_sitter_typescript::LANGUAGE_TYPESCRIPT.into()
}

/// The grammar of `tree_sitter_python`.
#[verifier::external_body]
pub(crate) fn python_grammar() -> Grammar {
    tree_sitter_python::LANGUAGE.into()
}

/// The grammar of `tree_sitter_go`.
#[verifier::external_body]
pub(crate) fn go_grammar() -> Grammar {
    tree_sitter_go::LANGUAGE.into()
}

/// The grammar of `tree_sitter_java`.
#[verifier::external_body]
pub(crate) fn java_grammar() -> Grammar {
    tree_sitter_java::LANGUAGE.into()
}

/// The grammar of `tree_sitter_c_sharp`.
#[verifier::external_body]
pub(crate) fn csharp_grammar() -> Grammar {
    tree_sitter_c_sharp::LANGUAGE.into()
}

/// The grammar of `tree_sitter_javascript`.
#[verifier::external_body]
pub(crate) fn javascript_grammar() -> Grammar {
    tree_sitter_javascript::LANGUAGE.into()
}

/// The grammar of `tree_sitter_cpp`.
#[verifier::external_body]
pub(crate) fn cpp_grammar() -> Grammar {
    tree_sitter_cpp::LANGUAGE.into()
}

/// The grammar of `tree_sitter_elixir`.
#[verifier::external_body]
pub(crate) fn elixir_grammar() -> Grammar {
    tree_sitter_elixir::LANGUAGE.into()
}

} // verus!
