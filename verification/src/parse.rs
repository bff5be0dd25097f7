//! Parsing Python source into the library's syntax tree with tree-sitter.
use vstd::prelude::*;

use crate::syntax::SyntaxNode;
use crate::types::Range;

verus! {

#[verifier::external_type_specification]
#[verifier::external_body]
pub struct ExTsNode<'tree>(tree_sitter::Node<'tree>);

/// The tree tree-sitter's Python grammar gives for a source text, as the
/// library's syntax nodes; `None` where no tree comes back.
pub uninterp spec fn python_tree(source: Seq<char>) -> Option<SyntaxNode>;

/// A tree-sitter node's span: rows and byte columns of its two ends.
#[verifier::external_body]
fn span_of(node: tree_sitter::Node) -> Range {
    let (s, e) = (node.start_position(), node.end_position());
    Range {
        start_line: s.row as u32,
        start_col: s.column as u32,
        end_line: e.row as u32,
        end_col: e.column as u32,
    }
}

/// A tree-sitter node and everything below it, one for one as syntax nodes:
/// kind, field, namedness, text (the source bytes it spans), span and
/// children in order.
#[verifier::external_body]
fn syntax_of(node: tree_sitter::Node, source: &[u8], field: Option<&str>) -> SyntaxNode {
    let mut children = Vec::new();
    for i in 0..node.child_count() {
        if let Some(child) = node.child(i) {
            children.push(syntax_of(child, source, node.field_name_for_child(i as u32)));
        }
    }
    let text = std::str::from_utf8(&source[node.byte_range()]).unwrap_or("").to_string();
    let (kind, field) = (node.kind().to_string(), field.map(String::from));
    let (start_byte, end_byte) = (node.start_byte(), node.end_byte());
    SyntaxNode { kind, field, named: node.is_named(), text, range: span_of(node), start_byte, end_byte, children }
}

/// Parse Python source with tree-sitter (`Parser::parse` under the
/// `tree_sitter_python` grammar) and give its tree as syntax nodes. The
/// contract names the result only: what tree the grammar builds is not
/// stated.
#[verifier::external_body]
pub fn parse_python(source: &str) -> (r: Option<SyntaxNode>)
    ensures
        r == python_tree(source@),
{
    let mut parser = tree_sitter::Parser::new();
    parser.set_language(&tree_sitter_python::LANGUAGE.into()).ok()?;
    let tree = parser.parse(source, None)?;
    Some(syntax_of(tree.root_node(), source.as_bytes(), None))
}

} // verus!
