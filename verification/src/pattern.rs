//! The pattern matcher: one top-down traversal of the structural tree that
//! emits raw usage events.  Rules are keyed on disjoint node shapes, so at
//! most one rule fires per node; events appear in node order, which is byte
//! order within a file.
//!
//! `match_spec` is the mathematical definition of the matcher's output;
//! the executable `match_patterns` is proved to return exactly that.

use vstd::prelude::*;
use crate::span::{Span, occurs_within, slice_bytes};
use crate::node::{NodeKind, StructuralNode, StructuralTree, tree_wf, node_wf};

verus! {

/// The kinds of typed relationship the engine extracts.
#[derive(Clone, Copy, PartialEq, Eq, Structural, Debug)]
pub enum PatternKind {
    Definition,
    TraitImplementation,
    Composition,
    StaticCall,
    GenericInstantiation,
    TypedBinding,
}

/// One usage event before resolution: subject and object are raw textual
/// names, the site is where the usage occurs.
#[derive(Clone, PartialEq, Eq, Debug)]
pub struct RawEvent {
    pub kind: PatternKind,
    pub subject: Vec<u8>,
    pub object: Option<Vec<u8>>,
    pub site: Span,
}

#[verifier::ext_equal]
pub ghost struct RawEventModel {
    pub kind: PatternKind,
    pub subject: Seq<u8>,
    pub object: Option<Seq<u8>>,
    pub site: Span,
}

impl View for RawEvent {
    type V = RawEventModel;

    open spec fn view(&self) -> RawEventModel {
        RawEventModel {
            kind: self.kind,
            subject: self.subject@,
            object: crate::node::opt_view(self.object),
            site: self.site,
        }
    }
}

pub open spec fn events_view(v: Vec<RawEvent>) -> Seq<RawEventModel> {
    Seq::new(v@.len(), |i: int| v@[i]@)
}

/// All parents come before their children.
pub open spec fn parents_before(t: Seq<StructuralNode>) -> bool {
    forall|j: int|
        0 <= j < t.len() ==> (match (#[trigger] t[j]).parent {
            Option::Some(p) => p < j,
            Option::None => true,
        })
}

/// The separator between path segments of a qualified name.
pub open spec fn path_sep() -> Seq<u8> {
    seq![58u8, 58u8]
}

/// The name bytes of node `i`, or empty when it is anonymous.
pub open spec fn own_name(t: Seq<StructuralNode>, text: Seq<u8>, i: int) -> Seq<u8> {
    match t[i].name_span {
        Option::Some(sp) => text.subrange(sp.start as int, sp.end as int),
        Option::None => Seq::empty(),
    }
}

/// The qualified path of node `i` within its file: the names of its named
/// ancestors joined by the separator, ending in its own name.
pub open spec fn path_of(t: Seq<StructuralNode>, text: Seq<u8>, i: int) -> Seq<u8>
    decreases i when 0 <= i < t.len() && parents_before(t)
{
    let own = own_name(t, text, i);
    match t[i].parent {
        Option::None => own,
        Option::Some(p) => {
            let pp = path_of(t, text, p as int);
            if pp.len() == 0 {
                own
            } else if own.len() == 0 {
                pp
            } else {
                pp + path_sep() + own
            }
        },
    }
}

/// The nearest enclosing function definition of node `i`, if any.
pub open spec fn enclosing_fn(t: Seq<StructuralNode>, i: int) -> Option<int>
    decreases i when 0 <= i < t.len() && parents_before(t)
{
    match t[i].parent {
        Option::None => Option::None,
        Option::Some(p) => {
            if t[p as int].kind == NodeKind::FunctionDef {
                Option::Some(p as int)
            } else {
                enclosing_fn(t, p as int)
            }
        },
    }
}

/// The scope name a binding or call is attributed to: the qualified path of
/// its nearest enclosing function, or empty at file scope.
pub open spec fn scope_of(t: Seq<StructuralNode>, text: Seq<u8>, i: int) -> Seq<u8> {
    match enclosing_fn(t, i) {
        Option::Some(f) => path_of(t, text, f),
        Option::None => Seq::empty(),
    }
}

/// The events the rule table emits for node `i`: at most one.
pub open spec fn rule_events(t: Seq<StructuralNode>, text: Seq<u8>, i: int) -> Seq<
    RawEventModel,
> {
    let n = t[i];
    if (n.kind == NodeKind::TypeDef || n.kind == NodeKind::TraitDef) && n.name_span is Some {
        seq![
            RawEventModel {
                kind: PatternKind::Definition,
                subject: own_name(t, text, i),
                object: Option::None,
                site: n.span,
            },
        ]
    } else if n.kind == NodeKind::ImplBlock && n.name_span is Some && n.ann_span is Some {
        seq![
            RawEventModel {
                kind: PatternKind::TraitImplementation,
                subject: own_name(t, text, i),
                object: Option::Some(
                    text.subrange(
                        n.ann_span->Some_0.start as int,
                        n.ann_span->Some_0.end as int,
                    ),
                ),
                site: n.span,
            },
        ]
    } else if n.kind == NodeKind::FieldDecl && n.ann_span is Some && n.parent is Some
        && t[n.parent->Some_0 as int].name_span is Some {
        seq![
            RawEventModel {
                kind: PatternKind::Composition,
                subject: own_name(t, text, n.parent->Some_0 as int),
                object: Option::Some(
                    text.subrange(
                        n.ann_span->Some_0.start as int,
                        n.ann_span->Some_0.end as int,
                    ),
                ),
                site: n.span,
            },
        ]
    } else if n.kind == NodeKind::VariableBinding && n.ann_span is Some {
        seq![
            RawEventModel {
                kind: PatternKind::TypedBinding,
                subject: scope_of(t, text, i),
                object: Option::Some(
                    text.subrange(
                        n.ann_span->Some_0.start as int,
                        n.ann_span->Some_0.end as int,
                    ),
                ),
                site: n.span,
            },
        ]
    } else if n.kind == NodeKind::CallExpr && n.name_span is Some {
        seq![
            RawEventModel {
                kind: PatternKind::StaticCall,
                subject: scope_of(t, text, i),
                object: Option::Some(own_name(t, text, i)),
                site: n.span,
            },
        ]
    } else if n.kind == NodeKind::GenericArgSite && n.name_span is Some && n.ann_span is Some {
        seq![
            RawEventModel {
                kind: PatternKind::GenericInstantiation,
                subject: own_name(t, text, i),
                object: Option::Some(
                    text.subrange(
                        n.ann_span->Some_0.start as int,
                        n.ann_span->Some_0.end as int,
                    ),
                ),
                site: n.span,
            },
        ]
    } else {
        Seq::empty()
    }
}

/// The events of the first `n` nodes, in node order.
pub open spec fn events_upto(t: Seq<StructuralNode>, text: Seq<u8>, n: int) -> Seq<RawEventModel>
    decreases n when 0 <= n
{
    if n <= 0 {
        Seq::empty()
    } else {
        events_upto(t, text, n - 1) + rule_events(t, text, n - 1)
    }
}

/// The matcher's whole output for one tree.
pub open spec fn match_spec(t: Seq<StructuralNode>, text: Seq<u8>) -> Seq<RawEventModel> {
    events_upto(t, text, t.len() as int)
}

pub fn exec_path_of(nodes: &Vec<StructuralNode>, text: &[u8], i: usize) -> (r: Vec<u8>)
    requires
        tree_wf(nodes@, text@),
        i < nodes@.len(),
    ensures
        r@ == path_of(nodes@, text@, i as int),
    decreases i,
{
    proof {
        assert forall|j: int| 0 <= j < nodes@.len() implies (match (#[trigger] nodes@[j]).parent {
            Option::Some(p) => p < j,
            Option::None => true,
        }) by {
            assert(node_wf(nodes@, j, text@));
        }
        assert(parents_before(nodes@));
    }
    assert(node_wf(nodes@, i as int, text@));
    let own: Vec<u8> = match nodes[i].name_span {
        Option::Some(sp) => slice_bytes(text, sp.start, sp.end),
        Option::None => {
            let empty: Vec<u8> = Vec::new();
            assert(empty@ =~= Seq::<u8>::empty());
            empty
        },
    };
    assert(own@ == own_name(nodes@, text@, i as int));
    match nodes[i].parent {
        Option::None => own,
        Option::Some(p) => {
            let pp = exec_path_of(nodes, text, p);
            if pp.len() == 0 {
                own
            } else if own.len() == 0 {
                pp
            } else {
                let mut out = pp;
                out.push(58);
                out.push(58);
                assert(out@ =~= path_of(nodes@, text@, p as int) + path_sep() + own@.take(0));
                let mut k: usize = 0;
                while k < own.len()
                    invariant
                        k <= own@.len(),
                        out@ == path_of(nodes@, text@, p as int) + path_sep() + own@.take(
                            k as int,
                        ),
                    decreases own@.len() - k,
                {
                    out.push(own[k]);
                    assert(own@.take(k + 1 as int) =~= own@.take(k as int).push(own@[k as int]));
                    assert(out@ =~= path_of(nodes@, text@, p as int) + path_sep() + own@.take(
                        k + 1 as int,
                    ));
                    k = k + 1;
                }
                assert(own@.take(own@.len() as int) =~= own@);
                assert(path_of(nodes@, text@, i as int) == path_of(nodes@, text@, p as int)
                    + path_sep() + own@);
                out
            }
        },
    }
}

fn exec_enclosing_fn(nodes: &Vec<StructuralNode>, i: usize) -> (r: Option<usize>)
    requires
        parents_before(nodes@),
        i < nodes@.len(),
    ensures
        match r {
            Option::Some(f) => enclosing_fn(nodes@, i as int) == Option::Some(f as int) && f
                < nodes@.len(),
            Option::None => enclosing_fn(nodes@, i as int) == Option::None::<int>,
        },
    decreases i,
{
    match nodes[i].parent {
        Option::None => Option::None,
        Option::Some(p) => {
            if nodes[p].kind == NodeKind::FunctionDef {
                Option::Some(p)
            } else {
                exec_enclosing_fn(nodes, p)
            }
        },
    }
}

fn exec_scope_of(nodes: &Vec<StructuralNode>, text: &[u8], i: usize) -> (r: Vec<u8>)
    requires
        tree_wf(nodes@, text@),
        i < nodes@.len(),
    ensures
        r@ == scope_of(nodes@, text@, i as int),
{
    assert(parents_before(nodes@)) by {
        assert forall|j: int| 0 <= j < nodes@.len() implies (match (#[trigger] nodes@[j]).parent {
            Option::Some(p) => p < j,
            Option::None => true,
        }) by {
            assert(node_wf(nodes@, j, text@));
        }
    }
    match exec_enclosing_fn(nodes, i) {
        Option::Some(f) => exec_path_of(nodes, text, f),
        Option::None => Vec::new(),
    }
}

/// Walk the tree once, in node order, and emit the raw usage events the
/// rule table defines.  The result is exactly `match_spec` of the tree and
/// text, so matching is deterministic and restartable.
pub fn match_patterns(tree: &StructuralTree, text: &[u8]) -> (r: Vec<RawEvent>)
    requires
        tree_wf(tree.nodes@, text@),
    ensures
        events_view(r) == match_spec(tree.nodes@, text@),
{
    let nodes = &tree.nodes;
    let mut out: Vec<RawEvent> = Vec::new();
    let mut i: usize = 0;
    assert(events_view(out) =~= events_upto(nodes@, text@, 0));
    while i < nodes.len()
        invariant
            tree_wf(nodes@, text@),
            i <= nodes@.len(),
            events_view(out) == events_upto(nodes@, text@, i as int),
        decreases nodes@.len() - i,
    {
        assert(node_wf(nodes@, i as int, text@));
        let n = nodes[i];
        let ghost evs = rule_events(nodes@, text@, i as int);
        let mut emitted: Option<RawEvent> = Option::None;
        if (n.kind == NodeKind::TypeDef || n.kind == NodeKind::TraitDef) && n.name_span.is_some() {
            let sp = n.name_span.unwrap();
            emitted = Option::Some(
                RawEvent {
                    kind: PatternKind::Definition,
                    subject: slice_bytes(text, sp.start, sp.end),
                    object: Option::None,
                    site: n.span,
                },
            );
        } else if n.kind == NodeKind::ImplBlock && n.name_span.is_some() && n.ann_span.is_some() {
            let sp = n.name_span.unwrap();
            let ap = n.ann_span.unwrap();
            emitted = Option::Some(
                RawEvent {
                    kind: PatternKind::TraitImplementation,
                    subject: slice_bytes(text, sp.start, sp.end),
                    object: Option::Some(slice_bytes(text, ap.start, ap.end)),
                    site: n.span,
                },
            );
        } else if n.kind == NodeKind::FieldDecl && n.ann_span.is_some() && n.parent.is_some()
            && nodes[n.parent.unwrap()].name_span.is_some() {
            let p = n.parent.unwrap();
            assert(node_wf(nodes@, p as int, text@));
            let psp = nodes[p].name_span.unwrap();
            let ap = n.ann_span.unwrap();
            emitted = Option::Some(
                RawEvent {
                    kind: PatternKind::Composition,
                    subject: slice_bytes(text, psp.start, psp.end),
                    object: Option::Some(slice_bytes(text, ap.start, ap.end)),
                    site: n.span,
                },
            );
        } else if n.kind == NodeKind::VariableBinding && n.ann_span.is_some() {
            let ap = n.ann_span.unwrap();
            emitted = Option::Some(
                RawEvent {
                    kind: PatternKind::TypedBinding,
                    subject: exec_scope_of(nodes, text, i),
                    object: Option::Some(slice_bytes(text, ap.start, ap.end)),
                    site: n.span,
                },
            );
        } else if n.kind == NodeKind::CallExpr && n.name_span.is_some() {
            let sp = n.name_span.unwrap();
            emitted = Option::Some(
                RawEvent {
                    kind: PatternKind::StaticCall,
                    subject: exec_scope_of(nodes, text, i),
                    object: Option::Some(slice_bytes(text, sp.start, sp.end)),
                    site: n.span,
                },
            );
        } else if n.kind == NodeKind::GenericArgSite && n.name_span.is_some()
            && n.ann_span.is_some() {
            let sp = n.name_span.unwrap();
            let ap = n.ann_span.unwrap();
            emitted = Option::Some(
                RawEvent {
                    kind: PatternKind::GenericInstantiation,
                    subject: slice_bytes(text, sp.start, sp.end),
                    object: Option::Some(slice_bytes(text, ap.start, ap.end)),
                    site: n.span,
                },
            );
        }
        match emitted {
            Option::Some(ev) => {
                assert(evs =~= seq![ev@]);
                out.push(ev);
                assert(events_view(out) =~= events_upto(nodes@, text@, i as int) + evs);
            },
            Option::None => {
                assert(evs =~= Seq::<RawEventModel>::empty());
                assert(events_view(out) =~= events_upto(nodes@, text@, i as int) + evs);
            },
        }
        assert(events_upto(nodes@, text@, i + 1 as int) == events_upto(nodes@, text@, i as int)
            + rule_events(nodes@, text@, i as int));
        i = i + 1;
    }
    out
}

/// Which byte strings of an event are claimed to occur at its site: the
/// subject for definitions, implementations and generic argument sites,
/// and the referenced type name for every event that has one.
pub open spec fn site_faithful(text: Seq<u8>, ev: RawEventModel) -> bool {
    &&& ((ev.kind == PatternKind::Definition || ev.kind == PatternKind::TraitImplementation
        || ev.kind == PatternKind::GenericInstantiation) ==> occurs_within(
        text,
        ev.site,
        ev.subject,
    ))
    &&& (match ev.object {
        Option::Some(o) => occurs_within(text, ev.site, o),
        Option::None => true,
    })
}

proof fn lemma_rule_events_faithful(t: Seq<StructuralNode>, text: Seq<u8>, i: int)
    requires
        tree_wf(t, text),
        0 <= i < t.len(),
    ensures
        forall|k: int|
            0 <= k < rule_events(t, text, i).len() ==> site_faithful(
                text,
                #[trigger] rule_events(t, text, i)[k],
            ),
{
    assert(node_wf(t, i, text));
    let n = t[i];
    match n.name_span {
        Option::Some(sp) => {
            assert(text.subrange(sp.start as int, sp.start as int + (sp.end - sp.start))
                == text.subrange(sp.start as int, sp.end as int));
            assert(occurs_within(
                text,
                n.span,
                text.subrange(sp.start as int, sp.end as int),
            ));
        },
        Option::None => {},
    }
    match n.ann_span {
        Option::Some(sp) => {
            assert(text.subrange(sp.start as int, sp.start as int + (sp.end - sp.start))
                == text.subrange(sp.start as int, sp.end as int));
            assert(occurs_within(
                text,
                n.span,
                text.subrange(sp.start as int, sp.end as int),
            ));
        },
        Option::None => {},
    }
}

/// Round trip: every event's site, sliced from the source text, contains
/// the name bytes of the construct that produced it.
pub proof fn lemma_sites_contain_sources(t: Seq<StructuralNode>, text: Seq<u8>, n: int)
    requires
        tree_wf(t, text),
        0 <= n <= t.len(),
    ensures
        forall|k: int|
            0 <= k < events_upto(t, text, n).len() ==> site_faithful(
                text,
                #[trigger] events_upto(t, text, n)[k],
            ),
    decreases n,
{
    if n > 0 {
        lemma_sites_contain_sources(t, text, n - 1);
        lemma_rule_events_faithful(t, text, n - 1);
        assert forall|k: int| 0 <= k < events_upto(t, text, n).len() implies site_faithful(
            text,
            #[trigger] events_upto(t, text, n)[k],
        ) by {
            let pre = events_upto(t, text, n - 1);
            let re = rule_events(t, text, n - 1);
            if k < pre.len() {
                assert(events_upto(t, text, n)[k] == pre[k]);
            } else {
                assert(events_upto(t, text, n)[k] == re[k - pre.len()]);
            }
        }
    }
}

/// The matcher's full output is site-faithful for every well-formed tree.
pub proof fn lemma_match_round_trip(t: Seq<StructuralNode>, text: Seq<u8>)
    requires
        tree_wf(t, text),
    ensures
        forall|k: int|
            0 <= k < match_spec(t, text).len() ==> site_faithful(
                text,
                #[trigger] match_spec(t, text)[k],
            ),
{
    lemma_sites_contain_sources(t, text, t.len() as int);
}

} // verus!
