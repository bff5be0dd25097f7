//! A parsed Python file as a plain tree: each node's grammar kind, the field
//! it fills in its parent, whether it is named, its text and position, and
//! its children in order.
use vstd::prelude::*;

use crate::text::str_eq;
use crate::types::Range;

verus! {

/// One node of a concrete syntax tree.
#[derive(Debug)]
pub struct SyntaxNode {
    /// The grammar kind (`class_definition`, `call`, `string`, ...).
    pub kind: String,
    /// The field of its parent this node fills (`name`, `body`, ...).
    pub field: Option<String>,
    /// Named nodes are grammar rules; the others are punctuation and keywords.
    pub named: bool,
    /// The source text the node spans.
    pub text: String,
    /// Where it spans, rows and byte columns.
    pub range: Range,
    pub start_byte: usize,
    pub end_byte: usize,
    pub children: Vec<SyntaxNode>,
}

/// Whether a node fills field `f`.
pub open spec fn has_field(n: SyntaxNode, f: Seq<char>) -> bool {
    n.field is Some && n.field->0@ == f
}

/// The first child from index `i` on that fills field `f`.
pub open spec fn field_child_from(kids: Seq<SyntaxNode>, f: Seq<char>, i: int) -> Option<SyntaxNode>
    decreases kids.len() - i,
{
    if i < 0 || i >= kids.len() {
        None
    } else if has_field(kids[i], f) {
        Some(kids[i])
    } else {
        field_child_from(kids, f, i + 1)
    }
}

/// The child that fills field `f` (the first, if several do).
pub open spec fn field_child(n: SyntaxNode, f: Seq<char>) -> Option<SyntaxNode> {
    field_child_from(n.children@, f, 0)
}

/// The named children, in order.
pub open spec fn named_kids(n: SyntaxNode) -> Seq<SyntaxNode> {
    n.children@.filter(|c: SyntaxNode| c.named)
}

/// The children that fill field `f`, in order.
pub open spec fn field_kids(n: SyntaxNode, f: Seq<char>) -> Seq<SyntaxNode> {
    n.children@.filter(|c: SyntaxNode| has_field(c, f))
}

/// Whether the node is of kind `k`.
pub open spec fn is_kind(n: SyntaxNode, k: Seq<char>) -> bool {
    n.kind@ == k
}

/// The child filling field `f`.
pub fn child_by_field<'a>(n: &'a SyntaxNode, f: &str) -> (r: Option<&'a SyntaxNode>)
    ensures
        match r {
            Some(c) => field_child(*n, f@) == Some(*c),
            None => field_child(*n, f@) is None,
        },
{
    let mut i: usize = 0;
    while i < n.children.len()
        invariant
            i <= n.children@.len(),
            field_child(*n, f@) == field_child_from(n.children@, f@, i as int),
        decreases n.children@.len() - i,
    {
        let c = &n.children[i];
        let hit = match &c.field {
            Some(name) => str_eq(name.as_str(), f),
            None => false,
        };
        if hit {
            return Some(c);
        }
        i = i + 1;
    }
    None
}

/// The named children, in order.
pub fn named_children(n: &SyntaxNode) -> (r: Vec<&SyntaxNode>)
    ensures
        r@.map_values(|c: &SyntaxNode| *c) == named_kids(*n),
{
    let ghost pred = |c: SyntaxNode| c.named;
    let mut out: Vec<&SyntaxNode> = Vec::new();
    let mut i: usize = 0;
    while i < n.children.len()
        invariant
            i <= n.children@.len(),
            pred == (|c: SyntaxNode| c.named),
            out@.map_values(|c: &SyntaxNode| *c) == n.children@.take(i as int).filter(pred),
        decreases n.children@.len() - i,
    {
        proof {
            assert(n.children@.take(i + 1) =~= n.children@.take(i as int).push(n.children@[i as int]));
            n.children@.take(i as int).lemma_filter_push(n.children@[i as int], pred);
        }
        let ghost o = out@;
        if n.children[i].named {
            out.push(&n.children[i]);
            assert(out@.map_values(|c: &SyntaxNode| *c) =~= o.map_values(|c: &SyntaxNode| *c).push(n.children@[i as int]));
        }
        i = i + 1;
    }
    assert(n.children@.take(n.children@.len() as int) =~= n.children@);
    out
}

/// The children that fill field `f`, in order.
pub fn children_by_field<'a>(n: &'a SyntaxNode, f: &str) -> (r: Vec<&'a SyntaxNode>)
    ensures
        r@.map_values(|c: &SyntaxNode| *c) == field_kids(*n, f@),
{
    let ghost pred = |c: SyntaxNode| has_field(c, f@);
    let mut out: Vec<&SyntaxNode> = Vec::new();
    let mut i: usize = 0;
    while i < n.children.len()
        invariant
            i <= n.children@.len(),
            pred == (|c: SyntaxNode| has_field(c, f@)),
            out@.map_values(|c: &SyntaxNode| *c) == n.children@.take(i as int).filter(pred),
        decreases n.children@.len() - i,
    {
        proof {
            assert(n.children@.take(i + 1) =~= n.children@.take(i as int).push(n.children@[i as int]));
            n.children@.take(i as int).lemma_filter_push(n.children@[i as int], pred);
        }
        let ghost o = out@;
        let c = &n.children[i];
        let hit = match &c.field {
            Some(name) => str_eq(name.as_str(), f),
            None => false,
        };
        if hit {
            out.push(c);
            assert(out@.map_values(|c: &SyntaxNode| *c) =~= o.map_values(|c: &SyntaxNode| *c).push(n.children@[i as int]));
        }
        i = i + 1;
    }
    assert(n.children@.take(n.children@.len() as int) =~= n.children@);
    out
}

/// Whether the node is of kind `k`.
pub fn kind_is(n: &SyntaxNode, k: &str) -> (r: bool)
    ensures
        r == is_kind(*n, k@),
{
    str_eq(n.kind.as_str(), k)
}

} // verus!
