//! Parsing with tree-sitter: bytes in, a syntax tree as plain data out.

use vstd::prelude::*;
use crate::language::Grammar;
use crate::syntax::SyntaxNode;

verus! {

/// What came of parsing a file.
#[derive(Debug, PartialEq, Eq)]
pub enum ParseOutcome {
    /// The parser built a tree; this is its root.
    Parsed(SyntaxNode),
    /// The parser gave no tree.
    NoTree,
    /// The parser refused to load the grammar.
    GrammarRejected,
}

/// `tree_sitter::Node`, a node of a parsed tree. Nothing is known here of
/// what it holds; it is only handed on to be copied.
#[verifier::external_type_specification]
#[verifier::external_body]
pub struct ExNode<'tree>(tree_sitter::Node<'tree>);

/// What tree-sitter makes of `text` under `grammar`, as `parse_tree` reports it.
pub uninterp spec fn parse_outcome(grammar: Grammar, text: Seq<u8>) -> ParseOutcome;

/// Copies a `tree_sitter::Node` and everything below it into a `SyntaxNode`:
/// `kind`, `start_byte`, `end_byte`, the row of `start_position`, and the
/// nodes that `children` yields, in that order. Nothing is claimed of the
/// result here; `parse_tree` names it.
#[verifier::external_body]
fn syntax_of(node: tree_sitter::Node) -> (tree: SyntaxNode) {
    SyntaxNode {
        kind: node.kind().to_string(),
        start_byte: node.start_byte(),
        end_byte: node.end_byte(),
        start_row: node.start_position().row,
        children: node.children(&mut node.walk()).map(syntax_of).collect(),
    }
}

/// Runs a fresh `tree_sitter::Parser` on `text`: `Parser::set_language` with
/// the grammar's language, then `Parser::parse` with no earlier tree, then
/// `Tree::root_node`.
///
/// Believed of it: the outcome depends on the grammar and the bytes alone,
/// so it has a name. `GrammarRejected` stands for an error of
/// `set_language`, `NoTree` for `parse` returning nothing. Nothing is
/// claimed of the shape of the tree.
#[verifier::external_body]
pub(crate) fn parse_tree(grammar: Grammar, text: &[u8]) -> (outcome: ParseOutcome)
    ensures
        outcome == parse_outcome(grammar, text@),
{
    let language: tree_sitter::Language = match grammar {
        Grammar::C => tree_sitter_c::LANGUAGE.into(),
        Grammar::Cpp => tree_sitter_cpp::LANGUAGE.into(),
    };
    let mut parser = tree_sitter::Parser::new();
    if parser.set_language(&language).is_err() {
        return ParseOutcome::GrammarRejected;
    }
    match parser.parse(text, None) {
        Some(tree) => ParseOutcome::Parsed(syntax_of(tree.root_node())),
        None => ParseOutcome::NoTree,
    }
}

} // verus!
