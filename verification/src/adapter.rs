//! The language adapter: raw source bytes to a normalized structural tree.
//!
//! The adapter recognizes type, trait and implementation headers, function
//! definitions, field declarations, annotated local bindings, calls through
//! type-qualified paths, and single-argument generic type references.  A
//! malformed construct is skipped to the next recognizable boundary and
//! recorded as a non-fatal diagnostic; only an unterminated string or block
//! comment, or an unclosed brace scope at the end of the file, fails the
//! whole file.
//!
//! `parse_spec` is the mathematical definition of the adapter's result;
//! the executable `parse_rust` is proved to return exactly that result, so
//! parsing is a function of the input bytes and the file tag alone.

use vstd::prelude::*;
use crate::span::Span;
use crate::node::{NodeKind, StructuralNode, StructuralTree};
use crate::token::{Token, TokKind, lex_spec, tokenize, tokens_wf, lemma_lex_from_wf};
use crate::diag::{Severity, DiagCode, Diagnostic, DiagModel, diags_view};

verus! {

/// A file that could not be lexed or whose brace scopes never close.
#[derive(Clone, PartialEq, Eq, Debug)]
pub struct ParseError {
    pub file: Vec<u8>,
    pub position: usize,
}

#[verifier::ext_equal]
pub ghost struct ParseErrorModel {
    pub file: Seq<u8>,
    pub position: int,
}

impl View for ParseError {
    type V = ParseErrorModel;

    open spec fn view(&self) -> ParseErrorModel {
        ParseErrorModel { file: self.file@, position: self.position as int }
    }
}

/// Parser state while one file's tokens are consumed: the arena built so
/// far, the stack of open brace scopes (`Some` entries close a node), the
/// function whose signature is being read, and the recovery diagnostics.
#[verifier::ext_equal]
pub ghost struct PModel {
    pub nodes: Seq<StructuralNode>,
    pub stack: Seq<Option<usize>>,
    pub pending: Option<usize>,
    pub diags: Seq<DiagModel>,
}

#[verifier::ext_equal]
pub ghost struct StepOut {
    pub s: PModel,
    pub next: int,
}

/// The innermost open node on the scope stack.
pub open spec fn innermost_open(stack: Seq<Option<usize>>) -> Option<usize>
    decreases stack.len(),
{
    if stack.len() == 0 {
        Option::None
    } else {
        match stack.last() {
            Option::Some(x) => Option::Some(x),
            Option::None => innermost_open(stack.drop_last()),
        }
    }
}

/// Built-in scalar and text primitive type names; a reference to one is not
/// a type reference between declared symbols, so it never becomes an
/// annotation.
pub open spec fn is_primitive_name(s: Seq<u8>) -> bool {
    ||| (s.len() == 2 && s[0] == 105 && s[1] == 56)  // i8
    ||| (s.len() == 2 && s[0] == 117 && s[1] == 56)  // u8
    ||| (s.len() == 3 && s[0] == 105 && s[1] == 49 && s[2] == 54)  // i16
    ||| (s.len() == 3 && s[0] == 105 && s[1] == 51 && s[2] == 50)  // i32
    ||| (s.len() == 3 && s[0] == 105 && s[1] == 54 && s[2] == 52)  // i64
    ||| (s.len() == 3 && s[0] == 117 && s[1] == 49 && s[2] == 54)  // u16
    ||| (s.len() == 3 && s[0] == 117 && s[1] == 51 && s[2] == 50)  // u32
    ||| (s.len() == 3 && s[0] == 117 && s[1] == 54 && s[2] == 52)  // u64
    ||| (s.len() == 3 && s[0] == 102 && s[1] == 51 && s[2] == 50)  // f32
    ||| (s.len() == 3 && s[0] == 102 && s[1] == 54 && s[2] == 52)  // f64
    ||| (s.len() == 3 && s[0] == 115 && s[1] == 116 && s[2] == 114)  // str
    ||| (s.len() == 4 && s[0] == 98 && s[1] == 111 && s[2] == 111 && s[3] == 108)  // bool
    ||| (s.len() == 4 && s[0] == 99 && s[1] == 104 && s[2] == 97 && s[3] == 114)  // char
    ||| (s.len() == 5 && s[0] == 117 && s[1] == 115 && s[2] == 105 && s[3] == 122 && s[4]
        == 101)  // usize
    ||| (s.len() == 5 && s[0] == 105 && s[1] == 115 && s[2] == 105 && s[3] == 122 && s[4]
        == 101)  // isize
}

/// The bytes covered by `sp` name a primitive type.
pub open spec fn prim_span(text: Seq<u8>, sp: Span) -> bool {
    is_primitive_name(text.subrange(sp.start as int, sp.end as int))
}

/// A parsed type reference: base identifier, optional single generic
/// argument, the covering span, and the index of the next token.
#[verifier::ext_equal]
pub ghost struct TypeRefS {
    pub base_span: Span,
    pub arg_span: Option<Span>,
    pub full_span: Span,
    pub next: int,
}

/// The type reference starting at token `j`, if any: `Ident` or
/// `Ident < Ident >`.
pub open spec fn type_ref_at(toks: Seq<Token>, j: int) -> Option<TypeRefS> {
    if 0 <= j < toks.len() && toks[j].kind == TokKind::Ident {
        if j + 3 < toks.len() && toks[j + 1].kind == TokKind::Lt && toks[j + 2].kind
            == TokKind::Ident && toks[j + 3].kind == TokKind::Gt {
            Option::Some(
                TypeRefS {
                    base_span: toks[j].span,
                    arg_span: Option::Some(toks[j + 2].span),
                    full_span: Span { start: toks[j].span.start, end: toks[j + 3].span.end },
                    next: j + 4,
                },
            )
        } else {
            Option::Some(
                TypeRefS {
                    base_span: toks[j].span,
                    arg_span: Option::None,
                    full_span: toks[j].span,
                    next: j + 1,
                },
            )
        }
    } else {
        Option::None
    }
}

/// Index of the last identifier of the `::`-separated path starting at `j`.
pub open spec fn path_end(toks: Seq<Token>, j: int) -> int
    decreases toks.len() - j when 0 <= j
{
    if j + 2 < toks.len() && toks[j + 1].kind == TokKind::PathSep && toks[j + 2].kind
        == TokKind::Ident {
        path_end(toks, j + 2)
    } else {
        j
    }
}

pub proof fn lemma_path_end(toks: Seq<Token>, j: int)
    requires
        0 <= j < toks.len(),
    ensures
        j <= path_end(toks, j) < toks.len(),
        path_end(toks, j) == j || path_end(toks, j) >= j + 2,
    decreases toks.len() - j,
{
    if j + 2 < toks.len() && toks[j + 1].kind == TokKind::PathSep && toks[j + 2].kind
        == TokKind::Ident {
        lemma_path_end(toks, j + 2);
    }
}

pub open spec fn recover_diag(file: Seq<u8>, pos: usize) -> DiagModel {
    DiagModel {
        severity: Severity::Warning,
        code: DiagCode::ParseError,
        file,
        position: pos as int,
    }
}

/// Set the closing position of node `f`.
pub open spec fn close_node(nodes: Seq<StructuralNode>, f: usize, end: usize) -> Seq<
    StructuralNode,
> {
    if f < nodes.len() {
        nodes.update(
            f as int,
            StructuralNode {
                span: Span { start: nodes[f as int].span.start, end },
                ..nodes[f as int]
            },
        )
    } else {
        nodes
    }
}

/// Leave a brace scope: close the node the scope belongs to, or report a
/// stray closing brace.
pub open spec fn pop_scope(s: PModel, t: Token, file: Seq<u8>) -> PModel {
    if s.stack.len() == 0 {
        PModel { diags: s.diags.push(recover_diag(file, t.span.start)), ..s }
    } else {
        match s.stack.last() {
            Option::None => PModel { stack: s.stack.drop_last(), ..s },
            Option::Some(x) => PModel {
                nodes: close_node(s.nodes, x, t.span.end),
                stack: s.stack.drop_last(),
                ..s
            },
        }
    }
}

/// The scope stack ends in an open type definition.
pub open spec fn top_typedef(s: PModel) -> bool {
    s.stack.len() > 0 && match s.stack.last() {
        Option::Some(x) => x < s.nodes.len() && s.nodes[x as int].kind == NodeKind::TypeDef,
        Option::None => false,
    }
}

/// A generic argument site node for `tr`, hung below `parent`.
pub open spec fn gen_site_node(tr: TypeRefS, arg: Span, parent: usize) -> StructuralNode {
    StructuralNode {
        kind: NodeKind::GenericArgSite,
        name_span: Option::Some(tr.base_span),
        ann_span: Option::Some(arg),
        span: tr.full_span,
        parent: Option::Some(parent),
    }
}

/// Append a node for the type reference's generic argument, when it has one
/// between non-primitive names.
pub open spec fn push_gen_site(
    nodes: Seq<StructuralNode>,
    text: Seq<u8>,
    tr: TypeRefS,
    parent: usize,
) -> Seq<StructuralNode> {
    match tr.arg_span {
        Option::Some(a) => {
            if !prim_span(text, tr.base_span) && !prim_span(text, a) {
                nodes.push(gen_site_node(tr, a, parent))
            } else {
                nodes
            }
        },
        Option::None => nodes,
    }
}

/// The annotation actually recorded for a type reference: absent when the
/// base names a primitive.
pub open spec fn ann_for(text: Seq<u8>, tr: TypeRefS) -> Option<Span> {
    if prim_span(text, tr.base_span) {
        Option::None
    } else {
        Option::Some(tr.base_span)
    }
}

/// One parsing step at token `i`.  While a function signature is pending,
/// only the return type arrow, the body brace, a semicolon and a closing
/// brace are interpreted; everything else is part of the signature.
pub open spec fn p_step(s: PModel, toks: Seq<Token>, text: Seq<u8>, file: Seq<u8>, i: int) -> StepOut
    recommends
        0 <= i < toks.len(),
{
    let t = toks[i];
    match s.pending {
        Option::Some(f) => {
            if t.kind == TokKind::Arrow {
                match type_ref_at(toks, i + 1) {
                    Option::Some(tr) => StepOut {
                        s: PModel { nodes: push_gen_site(s.nodes, text, tr, f), ..s },
                        next: tr.next,
                    },
                    Option::None => StepOut { s, next: i + 1 },
                }
            } else if t.kind == TokKind::LBrace {
                StepOut {
                    s: PModel { stack: s.stack.push(Option::Some(f)), pending: Option::None, ..s },
                    next: i + 1,
                }
            } else if t.kind == TokKind::Semi {
                StepOut {
                    s: PModel {
                        nodes: close_node(s.nodes, f, t.span.end),
                        pending: Option::None,
                        ..s
                    },
                    next: i + 1,
                }
            } else if t.kind == TokKind::RBrace {
                let s1 = PModel {
                    nodes: close_node(s.nodes, f, t.span.start),
                    pending: Option::None,
                    ..s
                };
                StepOut { s: pop_scope(s1, t, file), next: i + 1 }
            } else {
                StepOut { s, next: i + 1 }
            }
        },
        Option::None => {
            if t.kind == TokKind::KwStruct || t.kind == TokKind::KwTrait {
                if i + 2 < toks.len() && toks[i + 1].kind == TokKind::Ident && toks[i + 2].kind
                    == TokKind::LBrace {
                    let idx = s.nodes.len();
                    let node = StructuralNode {
                        kind: if t.kind == TokKind::KwStruct {
                            NodeKind::TypeDef
                        } else {
                            NodeKind::TraitDef
                        },
                        name_span: Option::Some(toks[i + 1].span),
                        ann_span: Option::None,
                        span: Span { start: t.span.start, end: toks[i + 2].span.end },
                        parent: innermost_open(s.stack),
                    };
                    StepOut {
                        s: PModel {
                            nodes: s.nodes.push(node),
                            stack: s.stack.push(Option::Some(idx as usize)),
                            ..s
                        },
                        next: i + 3,
                    }
                } else {
                    StepOut {
                        s: PModel { diags: s.diags.push(recover_diag(file, t.span.start)), ..s },
                        next: i + 1,
                    }
                }
            } else if t.kind == TokKind::KwImpl {
                if i + 4 < toks.len() && toks[i + 1].kind == TokKind::Ident && toks[i + 2].kind
                    == TokKind::KwFor && toks[i + 3].kind == TokKind::Ident && toks[i + 4].kind
                    == TokKind::LBrace {
                    let idx = s.nodes.len();
                    let node = StructuralNode {
                        kind: NodeKind::ImplBlock,
                        name_span: Option::Some(toks[i + 3].span),
                        ann_span: Option::Some(toks[i + 1].span),
                        span: Span { start: t.span.start, end: toks[i + 4].span.end },
                        parent: innermost_open(s.stack),
                    };
                    StepOut {
                        s: PModel {
                            nodes: s.nodes.push(node),
                            stack: s.stack.push(Option::Some(idx as usize)),
                            ..s
                        },
                        next: i + 5,
                    }
                } else if i + 2 < toks.len() && toks[i + 1].kind == TokKind::Ident && toks[i
                    + 2].kind == TokKind::LBrace {
                    let idx = s.nodes.len();
                    let node = StructuralNode {
                        kind: NodeKind::ImplBlock,
                        name_span: Option::Some(toks[i + 1].span),
                        ann_span: Option::None,
                        span: Span { start: t.span.start, end: toks[i + 2].span.end },
                        parent: innermost_open(s.stack),
                    };
                    StepOut {
                        s: PModel {
                            nodes: s.nodes.push(node),
                            stack: s.stack.push(Option::Some(idx as usize)),
                            ..s
                        },
                        next: i + 3,
                    }
                } else {
                    StepOut {
                        s: PModel { diags: s.diags.push(recover_diag(file, t.span.start)), ..s },
                        next: i + 1,
                    }
                }
            } else if t.kind == TokKind::KwFn {
                if i + 1 < toks.len() && toks[i + 1].kind == TokKind::Ident {
                    let idx = s.nodes.len();
                    let node = StructuralNode {
                        kind: NodeKind::FunctionDef,
                        name_span: Option::Some(toks[i + 1].span),
                        ann_span: Option::None,
                        span: Span { start: t.span.start, end: toks[i + 1].span.end },
                        parent: innermost_open(s.stack),
                    };
                    StepOut {
                        s: PModel {
                            nodes: s.nodes.push(node),
                            pending: Option::Some(idx as usize),
                            ..s
                        },
                        next: i + 2,
                    }
                } else {
                    StepOut {
                        s: PModel { diags: s.diags.push(recover_diag(file, t.span.start)), ..s },
                        next: i + 1,
                    }
                }
            } else if t.kind == TokKind::KwLet {
                if i + 1 < toks.len() && toks[i + 1].kind == TokKind::Ident {
                    let plain = StructuralNode {
                        kind: NodeKind::VariableBinding,
                        name_span: Option::Some(toks[i + 1].span),
                        ann_span: Option::None,
                        span: Span { start: t.span.start, end: toks[i + 1].span.end },
                        parent: innermost_open(s.stack),
                    };
                    if i + 2 < toks.len() && toks[i + 2].kind == TokKind::Colon {
                        match type_ref_at(toks, i + 3) {
                            Option::Some(tr) => {
                                let bidx = s.nodes.len();
                                let bind = StructuralNode {
                                    kind: NodeKind::VariableBinding,
                                    name_span: Option::Some(toks[i + 1].span),
                                    ann_span: ann_for(text, tr),
                                    span: Span { start: t.span.start, end: tr.full_span.end },
                                    parent: innermost_open(s.stack),
                                };
                                StepOut {
                                    s: PModel {
                                        nodes: push_gen_site(
                                            s.nodes.push(bind),
                                            text,
                                            tr,
                                            bidx as usize,
                                        ),
                                        ..s
                                    },
                                    next: tr.next,
                                }
                            },
                            Option::None => StepOut {
                                s: PModel { nodes: s.nodes.push(plain), ..s },
                                next: i + 2,
                            },
                        }
                    } else {
                        StepOut { s: PModel { nodes: s.nodes.push(plain), ..s }, next: i + 2 }
                    }
                } else {
                    StepOut {
                        s: PModel { diags: s.diags.push(recover_diag(file, t.span.start)), ..s },
                        next: i + 1,
                    }
                }
            } else if t.kind == TokKind::RBrace {
                StepOut { s: pop_scope(s, t, file), next: i + 1 }
            } else if t.kind == TokKind::LBrace {
                StepOut { s: PModel { stack: s.stack.push(Option::None), ..s }, next: i + 1 }
            } else if t.kind == TokKind::Ident {
                if top_typedef(s) && i + 1 < toks.len() && toks[i + 1].kind == TokKind::Colon {
                    match type_ref_at(toks, i + 2) {
                        Option::Some(tr) => {
                            let fidx = s.nodes.len();
                            let field = StructuralNode {
                                kind: NodeKind::FieldDecl,
                                name_span: Option::Some(t.span),
                                ann_span: ann_for(text, tr),
                                span: Span { start: t.span.start, end: tr.full_span.end },
                                parent: innermost_open(s.stack),
                            };
                            StepOut {
                                s: PModel {
                                    nodes: push_gen_site(
                                        s.nodes.push(field),
                                        text,
                                        tr,
                                        fidx as usize,
                                    ),
                                    ..s
                                },
                                next: tr.next,
                            }
                        },
                        Option::None => StepOut {
                            s: PModel {
                                diags: s.diags.push(recover_diag(file, t.span.start)),
                                ..s
                            },
                            next: i + 1,
                        },
                    }
                } else {
                    let e = path_end(toks, i);
                    if e > i && e + 1 < toks.len() && toks[e + 1].kind == TokKind::LParen {
                        let node = StructuralNode {
                            kind: NodeKind::CallExpr,
                            name_span: Option::Some(toks[e - 2].span),
                            ann_span: Option::None,
                            span: Span { start: t.span.start, end: toks[e].span.end },
                            parent: innermost_open(s.stack),
                        };
                        StepOut { s: PModel { nodes: s.nodes.push(node), ..s }, next: e + 1 }
                    } else {
                        StepOut { s, next: i + 1 }
                    }
                }
            } else {
                StepOut { s, next: i + 1 }
            }
        },
    }
}

pub proof fn lemma_step_advances(s: PModel, toks: Seq<Token>, text: Seq<u8>, file: Seq<u8>, i: int)
    requires
        0 <= i < toks.len(),
    ensures
        i < p_step(s, toks, text, file, i).next,
{
    lemma_path_end(toks, i);
}

/// Run the parser from token `i` to the end of the stream.
pub open spec fn p_run(s: PModel, toks: Seq<Token>, text: Seq<u8>, file: Seq<u8>, i: int) -> PModel
    decreases toks.len() - i when 0 <= i via p_run_dec
{
    if i >= toks.len() {
        s
    } else {
        let o = p_step(s, toks, text, file, i);
        p_run(o.s, toks, text, file, o.next)
    }
}

#[via_fn]
proof fn p_run_dec(s: PModel, toks: Seq<Token>, text: Seq<u8>, file: Seq<u8>, i: int) {
    if i < toks.len() {
        lemma_step_advances(s, toks, text, file, i);
    }
}

pub open spec fn p_init() -> PModel {
    PModel { nodes: Seq::empty(), stack: Seq::empty(), pending: Option::None, diags: Seq::empty() }
}

/// The adapter's whole result for one file: its structural nodes and its
/// recovery diagnostics, or the position of an unrecoverable failure.
pub open spec fn parse_spec(text: Seq<u8>, file: Seq<u8>) -> Result<
    (Seq<StructuralNode>, Seq<DiagModel>),
    ParseErrorModel,
> {
    match lex_spec(text) {
        Result::Err(p) => Result::Err(ParseErrorModel { file, position: p }),
        Result::Ok(toks) => {
            let fin = p_run(p_init(), toks, text, file, 0);
            if fin.stack.len() == 0 && fin.pending is None {
                Result::Ok((fin.nodes, fin.diags))
            } else {
                Result::Err(ParseErrorModel { file, position: text.len() as int })
            }
        },
    }
}



fn exec_innermost(stack: &Vec<Option<usize>>) -> (r: Option<usize>)
    ensures
        r == innermost_open(stack@),
{
    let mut k: usize = stack.len();
    assert(stack@.take(k as int) =~= stack@);
    while k > 0
        invariant
            k <= stack@.len(),
            innermost_open(stack@) == innermost_open(stack@.take(k as int)),
        decreases k,
    {
        match stack[k - 1] {
            Option::Some(x) => {
                assert(stack@.take(k as int).last() == Option::Some(x));
                return Option::Some(x);
            },
            Option::None => {
                assert(stack@.take(k as int).drop_last() =~= stack@.take(k - 1));
                k = k - 1;
            },
        }
    }
    Option::None
}

/// Executable image of a parsed type reference.
#[derive(Clone, Copy, Debug)]
struct TypeRefX {
    base_span: Span,
    arg_span: Option<Span>,
    full_span: Span,
    next: usize,
}

spec fn trx_view(x: TypeRefX) -> TypeRefS {
    TypeRefS {
        base_span: x.base_span,
        arg_span: x.arg_span,
        full_span: x.full_span,
        next: x.next as int,
    }
}

fn exec_type_ref(toks: &Vec<Token>, j: usize) -> (r: Option<TypeRefX>)
    requires
        j <= toks@.len(),
    ensures
        match r {
            Option::Some(x) => type_ref_at(toks@, j as int) == Option::Some(trx_view(x)) && j < x.next
                <= toks@.len(),
            Option::None => type_ref_at(toks@, j as int) == Option::None::<TypeRefS>,
        },
{
    if j < toks.len() && toks[j].kind == TokKind::Ident {
        if toks.len() - j > 3 && toks[j + 1].kind == TokKind::Lt && toks[j + 2].kind
            == TokKind::Ident && toks[j + 3].kind == TokKind::Gt {
            Option::Some(
                TypeRefX {
                    base_span: toks[j].span,
                    arg_span: Option::Some(toks[j + 2].span),
                    full_span: Span { start: toks[j].span.start, end: toks[j + 3].span.end },
                    next: j + 4,
                },
            )
        } else {
            Option::Some(
                TypeRefX {
                    base_span: toks[j].span,
                    arg_span: Option::None,
                    full_span: toks[j].span,
                    next: j + 1,
                },
            )
        }
    } else {
        Option::None
    }
}

fn exec_path_end(toks: &Vec<Token>, j: usize) -> (r: usize)
    requires
        j < toks@.len(),
    ensures
        r as int == path_end(toks@, j as int),
        j <= r < toks@.len(),
{
    proof {
        lemma_path_end(toks@, j as int);
    }
    let mut cur: usize = j;
    while toks.len() - cur > 2 && toks[cur + 1].kind == TokKind::PathSep && toks[cur + 2].kind
        == TokKind::Ident
        invariant
            j <= cur < toks@.len(),
            path_end(toks@, j as int) == path_end(toks@, cur as int),
        decreases toks@.len() - cur,
    {
        assert(path_end(toks@, cur as int) == path_end(toks@, cur + 2));
        cur = cur + 2;
    }
    assert(path_end(toks@, cur as int) == cur);
    cur
}

fn exec_is_prim(text: &[u8], sp: Span) -> (r: bool)
    requires
        sp.start <= sp.end <= text@.len(),
    ensures
        r == prim_span(text@, sp),
{
    let s = sp.start;
    let n = sp.end - sp.start;
    let ghost sub = text@.subrange(sp.start as int, sp.end as int);
    assert(sub.len() == n);
    assert(forall|k: int| 0 <= k < n ==> sub[k] == text@[s + k]);
    if n == 2 {
        let a = text[s];
        let b = text[s + 1];
        (a == 105 && b == 56) || (a == 117 && b == 56)
    } else if n == 3 {
        let a = text[s];
        let b = text[s + 1];
        let c = text[s + 2];
        (a == 105 && b == 49 && c == 54) || (a == 105 && b == 51 && c == 50) || (a == 105 && b == 54
            && c == 52) || (a == 117 && b == 49 && c == 54) || (a == 117 && b == 51 && c == 50) || (
        a == 117 && b == 54 && c == 52) || (a == 102 && b == 51 && c == 50) || (a == 102 && b == 54
            && c == 52) || (a == 115 && b == 116 && c == 114)
    } else if n == 4 {
        let a = text[s];
        let b = text[s + 1];
        let c = text[s + 2];
        let d = text[s + 3];
        (a == 98 && b == 111 && c == 111 && d == 108) || (a == 99 && b == 104 && c == 97 && d
            == 114)
    } else if n == 5 {
        let a = text[s];
        let b = text[s + 1];
        let c = text[s + 2];
        let d = text[s + 3];
        let e = text[s + 4];
        (a == 117 && b == 115 && c == 105 && d == 122 && e == 101) || (a == 105 && b == 115 && c
            == 105 && d == 122 && e == 101)
    } else {
        false
    }
}

fn clone_bytes(b: &[u8]) -> (r: Vec<u8>)
    ensures
        r@ == b@,
{
    let r = crate::span::slice_bytes(b, 0, b.len());
    assert(r@ =~= b@);
    r
}

fn exec_close(nodes: &mut Vec<StructuralNode>, f: usize, end: usize)
    ensures
        final(nodes)@ == close_node(old(nodes)@, f, end),
{
    if f < nodes.len() {
        let n = nodes[f];
        let n2 = StructuralNode { span: Span { start: n.span.start, end }, ..n };
        nodes.set(f, n2);
    }
}

fn push_diag(diags: &mut Vec<Diagnostic>, file: &[u8], pos: usize)
    ensures
        diags_view(*final(diags)) == diags_view(*old(diags)).push(recover_diag(file@, pos)),
{
    let d = Diagnostic {
        severity: Severity::Warning,
        code: DiagCode::ParseError,
        file: clone_bytes(file),
        position: pos,
    };
    assert(d@ == recover_diag(file@, pos));
    diags.push(d);
    assert(diags_view(*diags) =~= diags_view(*old(diags)).push(recover_diag(file@, pos)));
}

/// Parse one source file into its structural tree and the recovery
/// diagnostics met on the way.  The result is exactly `parse_spec` of the
/// input, so parsing is a function of the bytes and the file tag alone.
pub fn parse_rust(text: &[u8], file: &[u8]) -> (r: Result<
    (StructuralTree, Vec<Diagnostic>),
    ParseError,
>)
    ensures
        match r {
            Result::Ok(p) => parse_spec(text@, file@) == Result::Ok::<
                (Seq<StructuralNode>, Seq<DiagModel>),
                ParseErrorModel,
            >((p.0.nodes@, diags_view(p.1))),
            Result::Err(e) => parse_spec(text@, file@) == Result::Err::<
                (Seq<StructuralNode>, Seq<DiagModel>),
                ParseErrorModel,
            >(e@),
        },
{
    let toks = match tokenize(text) {
        Result::Ok(v) => v,
        Result::Err(p) => {
            return Result::Err(ParseError { file: clone_bytes(file), position: p });
        },
    };
    let tl = text.len();
    proof {
        assert(text@.len() == tl);
        lemma_lex_from_wf(text@, 0);
    }
    let ghost tokseq = toks@;
    let mut nodes: Vec<StructuralNode> = Vec::new();
    let mut stack: Vec<Option<usize>> = Vec::new();
    let mut pending: Option<usize> = Option::None;
    let mut diags: Vec<Diagnostic> = Vec::new();
    let mut i: usize = 0;
    assert(PModel { nodes: nodes@, stack: stack@, pending, diags: diags_view(diags) } =~= p_init());
    while i < toks.len()
        invariant
            toks@ == tokseq,
            tokens_wf(text@, tokseq),
            i <= tokseq.len(),
            p_run(
                PModel { nodes: nodes@, stack: stack@, pending, diags: diags_view(diags) },
                tokseq,
                text@,
                file@,
                i as int,
            ) == p_run(p_init(), tokseq, text@, file@, 0),
        decreases tokseq.len() - i,
    {
        let ghost pre = PModel { nodes: nodes@, stack: stack@, pending, diags: diags_view(diags) };
        let ghost o = p_step(pre, tokseq, text@, file@, i as int);
        proof {
            lemma_step_advances(pre, tokseq, text@, file@, i as int);
            assert(p_run(pre, tokseq, text@, file@, i as int) == p_run(
                o.s,
                tokseq,
                text@,
                file@,
                o.next,
            ));
        }
        let t = toks[i];
        assert(t.span.start < t.span.end <= text@.len());
        let inext: usize;
        match pending {
            Option::Some(f) => {
                if t.kind == TokKind::Arrow {
                    match exec_type_ref(&toks, i + 1) {
                        Option::Some(x) => {
                            match x.arg_span {
                                Option::Some(a) => {
                                    assert(a.start < a.end <= text@.len());
                                    assert(x.base_span.start < x.base_span.end <= text@.len());
                                    if !exec_is_prim(text, x.base_span) && !exec_is_prim(text, a) {
                                        nodes.push(
                                            StructuralNode {
                                                kind: NodeKind::GenericArgSite,
                                                name_span: Option::Some(x.base_span),
                                                ann_span: Option::Some(a),
                                                span: x.full_span,
                                                parent: Option::Some(f),
                                            },
                                        );
                                    }
                                },
                                Option::None => {},
                            }
                            assert(nodes@ == push_gen_site(pre.nodes, text@, trx_view(x), f));
                            inext = x.next;
                        },
                        Option::None => {
                            inext = i + 1;
                        },
                    }
                } else if t.kind == TokKind::LBrace {
                    stack.push(Option::Some(f));
                    pending = Option::None;
                    inext = i + 1;
                } else if t.kind == TokKind::Semi {
                    exec_close(&mut nodes, f, t.span.end);
                    pending = Option::None;
                    inext = i + 1;
                } else if t.kind == TokKind::RBrace {
                    exec_close(&mut nodes, f, t.span.start);
                    pending = Option::None;
                    if stack.len() == 0 {
                        push_diag(&mut diags, file, t.span.start);
                    } else {
                        match stack.pop() {
                            Option::Some(Option::Some(x)) => {
                                exec_close(&mut nodes, x, t.span.end);
                            },
                            _ => {},
                        }
                    }
                    inext = i + 1;
                } else {
                    inext = i + 1;
                }
            },
            Option::None => {
                if t.kind == TokKind::KwStruct || t.kind == TokKind::KwTrait {
                    if toks.len() - i > 2 && toks[i + 1].kind == TokKind::Ident && toks[i + 2].kind
                        == TokKind::LBrace {
                        let idx = nodes.len();
                        let par = exec_innermost(&stack);
                        nodes.push(
                            StructuralNode {
                                kind: if t.kind == TokKind::KwStruct {
                                    NodeKind::TypeDef
                                } else {
                                    NodeKind::TraitDef
                                },
                                name_span: Option::Some(toks[i + 1].span),
                                ann_span: Option::None,
                                span: Span { start: t.span.start, end: toks[i + 2].span.end },
                                parent: par,
                            },
                        );
                        stack.push(Option::Some(idx));
                        inext = i + 3;
                    } else {
                        push_diag(&mut diags, file, t.span.start);
                        inext = i + 1;
                    }
                } else if t.kind == TokKind::KwImpl {
                    if toks.len() - i > 4 && toks[i + 1].kind == TokKind::Ident && toks[i + 2].kind
                        == TokKind::KwFor && toks[i + 3].kind == TokKind::Ident && toks[i
                        + 4].kind == TokKind::LBrace {
                        let idx = nodes.len();
                        let par = exec_innermost(&stack);
                        nodes.push(
                            StructuralNode {
                                kind: NodeKind::ImplBlock,
                                name_span: Option::Some(toks[i + 3].span),
                                ann_span: Option::Some(toks[i + 1].span),
                                span: Span { start: t.span.start, end: toks[i + 4].span.end },
                                parent: par,
                            },
                        );
                        stack.push(Option::Some(idx));
                        inext = i + 5;
                    } else if toks.len() - i > 2 && toks[i + 1].kind == TokKind::Ident && toks[i
                        + 2].kind == TokKind::LBrace {
                        let idx = nodes.len();
                        let par = exec_innermost(&stack);
                        nodes.push(
                            StructuralNode {
                                kind: NodeKind::ImplBlock,
                                name_span: Option::Some(toks[i + 1].span),
                                ann_span: Option::None,
                                span: Span { start: t.span.start, end: toks[i + 2].span.end },
                                parent: par,
                            },
                        );
                        stack.push(Option::Some(idx));
                        inext = i + 3;
                    } else {
                        push_diag(&mut diags, file, t.span.start);
                        inext = i + 1;
                    }
                } else if t.kind == TokKind::KwFn {
                    if toks.len() - i > 1 && toks[i + 1].kind == TokKind::Ident {
                        let idx = nodes.len();
                        let par = exec_innermost(&stack);
                        nodes.push(
                            StructuralNode {
                                kind: NodeKind::FunctionDef,
                                name_span: Option::Some(toks[i + 1].span),
                                ann_span: Option::None,
                                span: Span { start: t.span.start, end: toks[i + 1].span.end },
                                parent: par,
                            },
                        );
                        pending = Option::Some(idx);
                        inext = i + 2;
                    } else {
                        push_diag(&mut diags, file, t.span.start);
                        inext = i + 1;
                    }
                } else if t.kind == TokKind::KwLet {
                    if toks.len() - i > 1 && toks[i + 1].kind == TokKind::Ident {
                        let par = exec_innermost(&stack);
                        let plain = StructuralNode {
                            kind: NodeKind::VariableBinding,
                            name_span: Option::Some(toks[i + 1].span),
                            ann_span: Option::None,
                            span: Span { start: t.span.start, end: toks[i + 1].span.end },
                            parent: par,
                        };
                        if toks.len() - i > 2 && toks[i + 2].kind == TokKind::Colon {
                            match exec_type_ref(&toks, i + 3) {
                                Option::Some(x) => {
                                    let bidx = nodes.len();
                                    assert(x.base_span.start < x.base_span.end <= text@.len());
                                    let ann = if exec_is_prim(text, x.base_span) {
                                        Option::None
                                    } else {
                                        Option::Some(x.base_span)
                                    };
                                    assert(ann == ann_for(text@, trx_view(x)));
                                    nodes.push(
                                        StructuralNode {
                                            kind: NodeKind::VariableBinding,
                                            name_span: Option::Some(toks[i + 1].span),
                                            ann_span: ann,
                                            span: Span {
                                                start: t.span.start,
                                                end: x.full_span.end,
                                            },
                                            parent: par,
                                        },
                                    );
                                    match x.arg_span {
                                        Option::Some(a) => {
                                            assert(a.start < a.end <= text@.len());
                                            if !exec_is_prim(text, x.base_span) && !exec_is_prim(
                                                text,
                                                a,
                                            ) {
                                                nodes.push(
                                                    StructuralNode {
                                                        kind: NodeKind::GenericArgSite,
                                                        name_span: Option::Some(x.base_span),
                                                        ann_span: Option::Some(a),
                                                        span: x.full_span,
                                                        parent: Option::Some(bidx),
                                                    },
                                                );
                                            }
                                        },
                                        Option::None => {},
                                    }
                                    inext = x.next;
                                },
                                Option::None => {
                                    nodes.push(plain);
                                    inext = i + 2;
                                },
                            }
                        } else {
                            nodes.push(plain);
                            inext = i + 2;
                        }
                    } else {
                        push_diag(&mut diags, file, t.span.start);
                        inext = i + 1;
                    }
                } else if t.kind == TokKind::RBrace {
                    if stack.len() == 0 {
                        push_diag(&mut diags, file, t.span.start);
                    } else {
                        match stack.pop() {
                            Option::Some(Option::Some(x)) => {
                                exec_close(&mut nodes, x, t.span.end);
                            },
                            _ => {},
                        }
                    }
                    inext = i + 1;
                } else if t.kind == TokKind::LBrace {
                    stack.push(Option::None);
                    inext = i + 1;
                } else if t.kind == TokKind::Ident {
                    let is_field_head = stack.len() > 0 && match stack[stack.len() - 1] {
                        Option::Some(x) => x < nodes.len() && nodes[x].kind == NodeKind::TypeDef,
                        Option::None => false,
                    };
                    assert(is_field_head == top_typedef(pre));
                    if is_field_head && toks.len() - i > 1 && toks[i + 1].kind == TokKind::Colon {
                        match exec_type_ref(&toks, i + 2) {
                            Option::Some(x) => {
                                let fidx = nodes.len();
                                let par = exec_innermost(&stack);
                                assert(x.base_span.start < x.base_span.end <= text@.len());
                                let ann = if exec_is_prim(text, x.base_span) {
                                    Option::None
                                } else {
                                    Option::Some(x.base_span)
                                };
                                assert(ann == ann_for(text@, trx_view(x)));
                                nodes.push(
                                    StructuralNode {
                                        kind: NodeKind::FieldDecl,
                                        name_span: Option::Some(t.span),
                                        ann_span: ann,
                                        span: Span { start: t.span.start, end: x.full_span.end },
                                        parent: par,
                                    },
                                );
                                match x.arg_span {
                                    Option::Some(a) => {
                                        assert(a.start < a.end <= text@.len());
                                        if !exec_is_prim(text, x.base_span) && !exec_is_prim(
                                            text,
                                            a,
                                        ) {
                                            nodes.push(
                                                StructuralNode {
                                                    kind: NodeKind::GenericArgSite,
                                                    name_span: Option::Some(x.base_span),
                                                    ann_span: Option::Some(a),
                                                    span: x.full_span,
                                                    parent: Option::Some(fidx),
                                                },
                                            );
                                        }
                                    },
                                    Option::None => {},
                                }
                                inext = x.next;
                            },
                            Option::None => {
                                push_diag(&mut diags, file, t.span.start);
                                inext = i + 1;
                            },
                        }
                    } else {
                        let e = exec_path_end(&toks, i);
                        if e > i && toks.len() - e > 1 && toks[e + 1].kind == TokKind::LParen {
                            proof {
                                lemma_path_end(tokseq, i as int);
                            }
                            let par = exec_innermost(&stack);
                            nodes.push(
                                StructuralNode {
                                    kind: NodeKind::CallExpr,
                                    name_span: Option::Some(toks[e - 2].span),
                                    ann_span: Option::None,
                                    span: Span { start: t.span.start, end: toks[e].span.end },
                                    parent: par,
                                },
                            );
                            inext = e + 1;
                        } else {
                            inext = i + 1;
                        }
                    }
                } else {
                    inext = i + 1;
                }
            },
        }
        assert(PModel { nodes: nodes@, stack: stack@, pending, diags: diags_view(diags) } =~= o.s);
        assert(inext as int == o.next);
        i = inext;
    }
    assert(p_run(
        PModel { nodes: nodes@, stack: stack@, pending, diags: diags_view(diags) },
        tokseq,
        text@,
        file@,
        i as int,
    ) == PModel { nodes: nodes@, stack: stack@, pending, diags: diags_view(diags) });
    if stack.len() == 0 && pending.is_none() {
        Result::Ok((StructuralTree { nodes }, diags))
    } else {
        Result::Err(ParseError { file: clone_bytes(file), position: text.len() })
    }
}

} // verus!

// exec section appended below
