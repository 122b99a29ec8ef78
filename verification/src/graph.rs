//! The graph builder: resolved usage events accumulated into a directed
//! multigraph of symbols and edges.
//!
//! `merge` registers each symbol definition once per distinct qualified id
//! (the first occurrence wins) and deduplicates edges that agree on kind,
//! subject, object, site and file.  `merge_spec` is the mathematical
//! definition, the executable `merge` is proved to apply exactly it, and
//! `lemma_merge_idempotent` states the law that merging the same events a
//! second time leaves the graph unchanged.

use vstd::prelude::*;
use crate::span::bytes_eq;
use crate::pattern::PatternKind;
use crate::resolve::{Symbol, SymbolModel, EndPoint, EndPointModel, UsagePattern,
    UsagePatternModel, symbols_view, edges_view, ep_view, clone_symbol, has_symbol, add_symbol,
    exec_has_symbol, UnresolvedReason};
use crate::span::slice_bytes;

verus! {

/// The accumulated multigraph: an arena of symbols keyed by qualified id,
/// and the usage edges in discovery order.
#[derive(Clone, PartialEq, Eq, Debug)]
pub struct Graph {
    pub symbols: Vec<Symbol>,
    pub edges: Vec<UsagePattern>,
}

#[verifier::ext_equal]
pub ghost struct GraphModel {
    pub symbols: Seq<SymbolModel>,
    pub edges: Seq<UsagePatternModel>,
}

impl View for Graph {
    type V = GraphModel;

    open spec fn view(&self) -> GraphModel {
        GraphModel { symbols: symbols_view(self.symbols), edges: edges_view(self.edges) }
    }
}

/// The symbol an endpoint contributes, if it is resolved.
pub open spec fn ep_symbol(e: EndPointModel) -> Option<SymbolModel> {
    match e {
        EndPointModel::Resolved(s) => Option::Some(s),
        EndPointModel::Unresolved(_, _) => Option::None,
    }
}

pub open spec fn add_ep(gs: Seq<SymbolModel>, e: EndPointModel) -> Seq<SymbolModel> {
    match ep_symbol(e) {
        Option::Some(s) => add_symbol(gs, s),
        Option::None => gs,
    }
}

/// Register the symbols an event's endpoints mention: subject first.
pub open spec fn add_event_symbols(gs: Seq<SymbolModel>, ev: UsagePatternModel) -> Seq<
    SymbolModel,
> {
    let g1 = add_ep(gs, ev.subject);
    match ev.object {
        Option::Some(o) => add_ep(g1, o),
        Option::None => g1,
    }
}

/// Two endpoints address the same thing: resolved ones by qualified id,
/// unresolved ones by raw name and reason.
pub open spec fn ep_same(a: EndPointModel, b: EndPointModel) -> bool {
    match (a, b) {
        (EndPointModel::Resolved(x), EndPointModel::Resolved(y)) => x.qualified_id
            == y.qualified_id,
        (EndPointModel::Unresolved(n1, r1), EndPointModel::Unresolved(n2, r2)) => n1 == n2 && r1
            == r2,
        _ => false,
    }
}

pub open spec fn opt_ep_same(a: Option<EndPointModel>, b: Option<EndPointModel>) -> bool {
    match (a, b) {
        (Option::Some(x), Option::Some(y)) => ep_same(x, y),
        (Option::None, Option::None) => true,
        _ => false,
    }
}

/// Two edges are duplicates: same kind, subject, object, site and file.
pub open spec fn edge_same(a: UsagePatternModel, b: UsagePatternModel) -> bool {
    &&& a.kind == b.kind
    &&& a.site == b.site
    &&& a.file == b.file
    &&& ep_same(a.subject, b.subject)
    &&& opt_ep_same(a.object, b.object)
}

pub open spec fn has_edge(es: Seq<UsagePatternModel>, e: UsagePatternModel) -> bool {
    exists|k: int| 0 <= k < es.len() && edge_same(#[trigger] es[k], e)
}

/// Merge one event: register its symbols, then append the edge unless a
/// duplicate is already present.
pub open spec fn merge_one(g: GraphModel, e: UsagePatternModel) -> GraphModel {
    let gs = add_event_symbols(g.symbols, e);
    if has_edge(g.edges, e) {
        GraphModel { symbols: gs, edges: g.edges }
    } else {
        GraphModel { symbols: gs, edges: g.edges.push(e) }
    }
}

pub open spec fn merge_upto(g: GraphModel, evs: Seq<UsagePatternModel>, n: int) -> GraphModel
    decreases n when 0 <= n
{
    if n <= 0 {
        g
    } else {
        merge_one(merge_upto(g, evs, n - 1), evs[n - 1])
    }
}

/// The merge of a whole event sequence, in order.
pub open spec fn merge_spec(g: GraphModel, evs: Seq<UsagePatternModel>) -> GraphModel {
    merge_spec_n(g, evs)
}

pub open spec fn merge_spec_n(g: GraphModel, evs: Seq<UsagePatternModel>) -> GraphModel {
    merge_upto(g, evs, evs.len() as int)
}

fn clone_ep(e: &EndPoint) -> (r: EndPoint)
    ensures
        ep_view(r) == ep_view(*e),
{
    match e {
        EndPoint::Resolved(s) => EndPoint::Resolved(clone_symbol(s)),
        EndPoint::Unresolved(n, reason) => EndPoint::Unresolved(
            slice_bytes(n.as_slice(), 0, n.len()),
            *reason,
        ),
    }
}

fn clone_edge(e: &UsagePattern) -> (r: UsagePattern)
    ensures
        r@ == e@,
{
    UsagePattern {
        kind: e.kind,
        subject: clone_ep(&e.subject),
        object: match &e.object {
            Option::Some(o) => Option::Some(clone_ep(o)),
            Option::None => Option::None,
        },
        site: e.site,
        file: slice_bytes(e.file.as_slice(), 0, e.file.len()),
    }
}

fn exec_ep_same(a: &EndPoint, b: &EndPoint) -> (r: bool)
    ensures
        r == ep_same(ep_view(*a), ep_view(*b)),
{
    match (a, b) {
        (EndPoint::Resolved(x), EndPoint::Resolved(y)) => bytes_eq(
            x.qualified_id.as_slice(),
            y.qualified_id.as_slice(),
        ),
        (EndPoint::Unresolved(n1, r1), EndPoint::Unresolved(n2, r2)) => bytes_eq(
            n1.as_slice(),
            n2.as_slice(),
        ) && *r1 == *r2,
        _ => false,
    }
}

fn exec_edge_same(a: &UsagePattern, b: &UsagePattern) -> (r: bool)
    ensures
        r == edge_same(a@, b@),
{
    let eps = exec_ep_same(&a.subject, &b.subject);
    let objs = match (&a.object, &b.object) {
        (Option::Some(x), Option::Some(y)) => exec_ep_same(x, y),
        (Option::None, Option::None) => true,
        _ => false,
    };
    a.kind == b.kind && a.site == b.site && bytes_eq(a.file.as_slice(), b.file.as_slice()) && eps
        && objs
}

fn exec_has_edge(edges: &Vec<UsagePattern>, e: &UsagePattern) -> (r: bool)
    ensures
        r == has_edge(edges_view(*edges), e@),
{
    let mut i: usize = 0;
    while i < edges.len()
        invariant
            i <= edges@.len(),
            forall|k: int| 0 <= k < i ==> !edge_same(#[trigger] edges_view(*edges)[k], e@),
        decreases edges@.len() - i,
    {
        if exec_edge_same(&edges[i], e) {
            assert(edge_same(edges_view(*edges)[i as int], e@));
            return true;
        }
        assert(!edge_same(edges_view(*edges)[i as int], e@));
        i = i + 1;
    }
    false
}

fn exec_add_ep(symbols: &mut Vec<Symbol>, e: &EndPoint)
    ensures
        symbols_view(*final(symbols)) == add_ep(symbols_view(*old(symbols)), ep_view(*e)),
{
    match e {
        EndPoint::Resolved(s) => {
            if !exec_has_symbol(symbols, s.qualified_id.as_slice()) {
                symbols.push(clone_symbol(s));
                assert(symbols_view(*symbols) =~= symbols_view(*old(symbols)).push(s@));
            }
        },
        EndPoint::Unresolved(_, _) => {
        },
    }
}

impl Graph {
    /// The empty graph.
    pub fn new() -> (r: Graph)
        ensures
            r@.symbols.len() == 0,
            r@.edges.len() == 0,
    {
        let g = Graph { symbols: Vec::new(), edges: Vec::new() };
        assert(symbols_view(g.symbols) =~= Seq::<SymbolModel>::empty());
        assert(edges_view(g.edges) =~= Seq::<UsagePatternModel>::empty());
        g
    }

    /// Merge a run of resolved events: each symbol definition is
    /// registered once per qualified id (first occurrence wins), and an
    /// edge is appended only when no duplicate with the same kind,
    /// subject, object, site and file is present.
    pub fn merge(&mut self, events: &Vec<UsagePattern>)
        ensures
            final(self)@ == merge_spec(old(self)@, edges_view(*events)),
    {
        let ghost evm = edges_view(*events);
        let ghost g0 = old(self)@;
        let mut i: usize = 0;
        while i < events.len()
            invariant
                evm == edges_view(*events),
                i <= evm.len(),
                self@ == merge_upto(g0, evm, i as int),
            decreases evm.len() - i,
        {
            let e = &events[i];
            assert(evm[i as int] == e@);
            let ghost pre = self@;
            exec_add_ep(&mut self.symbols, &e.subject);
            match &e.object {
                Option::Some(o) => {
                    exec_add_ep(&mut self.symbols, o);
                },
                Option::None => {
                },
            }
            assert(symbols_view(self.symbols) == add_event_symbols(pre.symbols, e@));
            if !exec_has_edge(&self.edges, e) {
                let c = clone_edge(e);
                self.edges.push(c);
                assert(edges_view(self.edges) =~= pre.edges.push(e@));
            }
            assert(self@ =~= merge_one(pre, evm[i as int]));
            i = i + 1;
        }
    }
}

/// Everything an event contributes is already in the graph: its resolved
/// endpoint symbols and a duplicate of its edge.
pub open spec fn ev_installed(g: GraphModel, e: UsagePatternModel) -> bool {
    &&& (match ep_symbol(e.subject) {
        Option::Some(s) => has_symbol(g.symbols, s.qualified_id),
        Option::None => true,
    })
    &&& (match e.object {
        Option::Some(o) => match ep_symbol(o) {
            Option::Some(s) => has_symbol(g.symbols, s.qualified_id),
            Option::None => true,
        },
        Option::None => true,
    })
    &&& has_edge(g.edges, e)
}

proof fn lemma_add_symbol_keeps(gs: Seq<SymbolModel>, s: SymbolModel, qid: Seq<u8>)
    ensures
        has_symbol(gs, qid) ==> has_symbol(add_symbol(gs, s), qid),
        has_symbol(add_symbol(gs, s), s.qualified_id),
{
    if has_symbol(gs, qid) {
        let k = choose|k: int| 0 <= k < gs.len() && (#[trigger] gs[k]).qualified_id == qid;
        assert(add_symbol(gs, s)[k].qualified_id == qid);
    }
    if !has_symbol(gs, s.qualified_id) {
        assert(add_symbol(gs, s)[gs.len() as int].qualified_id == s.qualified_id);
    }
}

proof fn lemma_add_ep_keeps(gs: Seq<SymbolModel>, e: EndPointModel, qid: Seq<u8>)
    ensures
        has_symbol(gs, qid) ==> has_symbol(add_ep(gs, e), qid),
        match ep_symbol(e) {
            Option::Some(s) => has_symbol(add_ep(gs, e), s.qualified_id),
            Option::None => true,
        },
{
    match ep_symbol(e) {
        Option::Some(s) => {
            lemma_add_symbol_keeps(gs, s, qid);
            lemma_add_symbol_keeps(gs, s, s.qualified_id);
        },
        Option::None => {
        },
    }
}

proof fn lemma_edges_push_keeps(es: Seq<UsagePatternModel>, x: UsagePatternModel, e: UsagePatternModel)
    ensures
        has_edge(es, e) ==> has_edge(es.push(x), e),
{
    if has_edge(es, e) {
        let k = choose|k: int| 0 <= k < es.len() && edge_same(#[trigger] es[k], e);
        assert(edge_same(es.push(x)[k], e));
    }
}

/// Merging an event installs it.
proof fn lemma_merge_one_installs(g: GraphModel, e: UsagePatternModel)
    ensures
        ev_installed(merge_one(g, e), e),
{
    let g1 = add_ep(g.symbols, e.subject);
    lemma_add_ep_keeps(g.symbols, e.subject, Seq::empty());
    match ep_symbol(e.subject) {
        Option::Some(s) => {
            match e.object {
                Option::Some(o) => {
                    lemma_add_ep_keeps(g1, o, s.qualified_id);
                },
                Option::None => {
                },
            }
        },
        Option::None => {
        },
    }
    match e.object {
        Option::Some(o) => {
            lemma_add_ep_keeps(g1, o, Seq::empty());
        },
        Option::None => {
        },
    }
    if !has_edge(g.edges, e) {
        assert(edge_same(g.edges.push(e)[g.edges.len() as int], e));
    }
}

/// Merging one event keeps every already-installed event installed.
proof fn lemma_merge_one_keeps(g: GraphModel, e: UsagePatternModel, e2: UsagePatternModel)
    requires
        ev_installed(g, e2),
    ensures
        ev_installed(merge_one(g, e), e2),
{
    let g1 = add_ep(g.symbols, e.subject);
    match ep_symbol(e2.subject) {
        Option::Some(s) => {
            lemma_add_ep_keeps(g.symbols, e.subject, s.qualified_id);
            match e.object {
                Option::Some(o) => {
                    lemma_add_ep_keeps(g1, o, s.qualified_id);
                },
                Option::None => {
                },
            }
        },
        Option::None => {
        },
    }
    match e2.object {
        Option::Some(o2) => {
            match ep_symbol(o2) {
                Option::Some(s) => {
                    lemma_add_ep_keeps(g.symbols, e.subject, s.qualified_id);
                    match e.object {
                        Option::Some(o) => {
                            lemma_add_ep_keeps(g1, o, s.qualified_id);
                        },
                        Option::None => {
                        },
                    }
                },
                Option::None => {
                },
            }
        },
        Option::None => {
        },
    }
    if !has_edge(g.edges, e) {
        lemma_edges_push_keeps(g.edges, e, e2);
    }
}

/// Merging an already-installed event changes nothing.
proof fn lemma_merge_one_noop(g: GraphModel, e: UsagePatternModel)
    requires
        ev_installed(g, e),
    ensures
        merge_one(g, e) == g,
{
    assert(add_event_symbols(g.symbols, e) == g.symbols);
    assert(merge_one(g, e) =~= g);
}

/// After a merge, every merged event is installed.
proof fn lemma_merge_upto_installs(g: GraphModel, evs: Seq<UsagePatternModel>, n: int, k: int)
    requires
        0 <= k < n <= evs.len(),
    ensures
        ev_installed(merge_upto(g, evs, n), evs[k]),
    decreases n,
{
    if k == n - 1 {
        lemma_merge_one_installs(merge_upto(g, evs, n - 1), evs[k]);
    } else {
        lemma_merge_upto_installs(g, evs, n - 1, k);
        lemma_merge_one_keeps(merge_upto(g, evs, n - 1), evs[n - 1], evs[k]);
    }
}

/// Merging a run of installed events changes nothing.
proof fn lemma_merge_noop_all(g: GraphModel, evs: Seq<UsagePatternModel>, n: int)
    requires
        0 <= n <= evs.len(),
        forall|k: int| 0 <= k < evs.len() ==> ev_installed(g, #[trigger] evs[k]),
    ensures
        merge_upto(g, evs, n) == g,
    decreases n,
{
    if n > 0 {
        lemma_merge_noop_all(g, evs, n - 1);
        lemma_merge_one_noop(g, evs[n - 1]);
    }
}

/// Idempotence: merging the same events a second time yields a graph
/// identical to the one merge produced.
pub proof fn lemma_merge_idempotent(g: GraphModel, evs: Seq<UsagePatternModel>)
    ensures
        merge_spec(merge_spec(g, evs), evs) == merge_spec(g, evs),
{
    let g1 = merge_spec(g, evs);
    assert forall|k: int| 0 <= k < evs.len() implies ev_installed(g1, #[trigger] evs[k]) by {
        lemma_merge_upto_installs(g, evs, evs.len() as int, k);
    }
    lemma_merge_noop_all(g1, evs, evs.len() as int);
}

} // verus!
