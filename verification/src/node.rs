//! The normalized structural tree that a language adapter produces.
//!
//! The tree is a flat arena of nodes in preorder: every node's parent has a
//! smaller index, so recursion over ancestor chains terminates by index.
//! Names are not copied out of the source: a node records the byte span of
//! its name and of its type annotation, and the bytes are sliced from the
//! text when events are emitted.  Generic type arguments are normalized
//! into `GenericArgSite` nodes of their own, one per argument, whose name
//! span is the container and whose annotation span is the argument.

use vstd::prelude::*;
use crate::span::{span_wf, span_in, Span};

verus! {

/// What a structural node stands for in the source.
#[derive(Clone, Copy, PartialEq, Eq, Structural, Debug)]
pub enum NodeKind {
    /// A struct/class/type definition.
    TypeDef,
    /// A trait or interface definition.
    TraitDef,
    /// An implementation block; the name span is the implementing type, and
    /// the annotation span, when present, the implemented trait.
    ImplBlock,
    /// A free, associated or instance function definition.
    FunctionDef,
    /// A field declaration; the annotation span is the field's type.
    FieldDecl,
    /// A local variable binding; the annotation span, when present, is the
    /// declared type.
    VariableBinding,
    /// A call whose callee is a type-qualified path; the name span is the
    /// type segment of the path.
    CallExpr,
    /// One generic type argument site.
    GenericArgSite,
}

/// One declaration or usage site in the normalized tree.
#[derive(Clone, Copy, PartialEq, Eq, Debug)]
pub struct StructuralNode {
    pub kind: NodeKind,
    /// Span of the principal name; absent for anonymous constructs.
    pub name_span: Option<Span>,
    /// Span of the attached type reference (field or binding type,
    /// implemented trait, generic argument).
    pub ann_span: Option<Span>,
    /// Span of the whole construct.
    pub span: Span,
    /// Index of the enclosing node; `None` for file-level nodes.
    pub parent: Option<usize>,
}

pub open spec fn opt_view(o: Option<Vec<u8>>) -> Option<Seq<u8>> {
    match o {
        Option::None => Option::None,
        Option::Some(v) => Option::Some(v@),
    }
}

/// One node is internally consistent with the text it was read from and
/// with its parent.
pub open spec fn node_wf(t: Seq<StructuralNode>, i: int, text: Seq<u8>) -> bool {
    let n = t[i];
    &&& span_wf(n.span, text.len())
    &&& match n.parent {
        Option::None => true,
        Option::Some(p) => p < i,
    }
    &&& match n.name_span {
        Option::None => true,
        Option::Some(sp) => sp.start < sp.end && span_in(sp, n.span),
    }
    &&& match n.ann_span {
        Option::None => true,
        Option::Some(sp) => sp.start < sp.end && span_in(sp, n.span),
    }
    &&& (n.kind == NodeKind::FieldDecl ==> match n.parent {
        Option::None => false,
        Option::Some(p) => t[p as int].kind == NodeKind::TypeDef,
    })
}

/// The whole arena is well formed against `text`: parents come before
/// their children, every node's span is a range of the text, every name
/// and annotation span lies inside its node's span, and a field
/// declaration stands only inside a type definition.
pub open spec fn tree_wf(t: Seq<StructuralNode>, text: Seq<u8>) -> bool {
    forall|i: int| 0 <= i < t.len() ==> #[trigger] node_wf(t, i, text)
}

/// The structural tree of one source file.  Nodes whose `parent` is `None`
/// are the file-level constructs.
#[derive(Clone, PartialEq, Eq, Debug)]
pub struct StructuralTree {
    pub nodes: Vec<StructuralNode>,
}


/// Decide `tree_wf` at run time; the pipeline admits only checked trees.
pub fn check_tree_wf(tree: &StructuralTree, text: &[u8]) -> (r: bool)
    ensures
        r == tree_wf(tree.nodes@, text@),
{
    let n = tree.nodes.len();
    let mut i: usize = 0;
    while i < n
        invariant
            i <= n,
            n == tree.nodes@.len(),
            forall|k: int| 0 <= k < i ==> #[trigger] node_wf(tree.nodes@, k, text@),
        decreases n - i,
    {
        let nd = tree.nodes[i];
        let ok_span = nd.span.start <= nd.span.end && nd.span.end <= text.len();
        let ok_parent = match nd.parent {
            Option::Some(p) => p < i,
            Option::None => true,
        };
        let ok_name = match nd.name_span {
            Option::Some(sp) => sp.start < sp.end && nd.span.start <= sp.start && sp.end
                <= nd.span.end,
            Option::None => true,
        };
        let ok_ann = match nd.ann_span {
            Option::Some(sp) => sp.start < sp.end && nd.span.start <= sp.start && sp.end
                <= nd.span.end,
            Option::None => true,
        };
        let ok_field = if nd.kind == NodeKind::FieldDecl {
            match nd.parent {
                Option::Some(p) => p < i && tree.nodes[p].kind == NodeKind::TypeDef,
                Option::None => false,
            }
        } else {
            true
        };
        if !(ok_span && ok_parent && ok_name && ok_ann && ok_field) {
            assert(!node_wf(tree.nodes@, i as int, text@));
            return false;
        }
        assert(node_wf(tree.nodes@, i as int, text@));
        i = i + 1;
    }
    true
}

} // verus!
