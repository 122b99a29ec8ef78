//! The extraction report: a read-only view derived from the graph — counts
//! per pattern kind, the unresolved occurrences, and a diagnostic for every
//! symbol that lies on a composition cycle.
//!
//! Cycle detection is an explicit reachability check over the composition
//! edges between arena indices; `on_comp_cycle` is the mathematical
//! definition (a composition path that returns to its start), and the
//! executable detector is proved sound and complete against it.

use vstd::prelude::*;
use crate::diag::{DiagCode, Diagnostic, Severity};
use crate::graph::{Graph, GraphModel};
use crate::pattern::PatternKind;
use crate::resolve::{EndPointModel, UsagePatternModel, EndPoint};
use crate::span::bytes_eq;

verus! {

/// There is a composition edge between the symbols at arena indices `a`
/// and `b`: some `Composition` edge whose resolved subject carries the
/// qualified id of `a` and whose resolved object carries that of `b`.
pub open spec fn comp_edge(g: GraphModel, a: int, b: int) -> bool {
    &&& 0 <= a < g.symbols.len()
    &&& 0 <= b < g.symbols.len()
    &&& exists|k: int|
        0 <= k < g.edges.len() && edge_links(#[trigger] g.edges[k], g, a, b)
}

pub open spec fn edge_links(e: UsagePatternModel, g: GraphModel, a: int, b: int) -> bool {
    &&& e.kind == PatternKind::Composition
    &&& (match e.subject {
        EndPointModel::Resolved(s) => s.qualified_id == g.symbols[a].qualified_id,
        EndPointModel::Unresolved(_, _) => false,
    })
    &&& (match e.object {
        Option::Some(EndPointModel::Resolved(s)) => s.qualified_id
            == g.symbols[b].qualified_id,
        _ => false,
    })
}

/// A walk along composition edges, given by arena indices.
pub open spec fn is_comp_path(g: GraphModel, p: Seq<int>) -> bool {
    &&& p.len() >= 2
    &&& forall|i: int| 0 <= i < p.len() - 1 ==> comp_edge(g, #[trigger] p[i], p[i + 1])
}

/// The symbol at index `v` lies on a composition cycle: some composition
/// path leaves `v` and returns to it.
pub open spec fn on_comp_cycle(g: GraphModel, v: int) -> bool {
    exists|p: Seq<int>| is_comp_path(g, p) && p.first() == v && p.last() == v
}

/// Every member of a composition cycle lies on a composition cycle of its
/// own: rotate the cycle to start there.
pub proof fn lemma_cycle_members(g: GraphModel, p: Seq<int>, i: int)
    requires
        is_comp_path(g, p),
        p.first() == p.last(),
        0 <= i < p.len(),
    ensures
        on_comp_cycle(g, p[i]),
{
    if i == 0 || i == p.len() - 1 {
        assert(is_comp_path(g, p) && p.first() == p[i] && p.last() == p[i]);
    } else {
        let q = p.subrange(i, p.len() as int) + p.subrange(1, i + 1);
        assert(q.len() == p.len());
        assert forall|k: int| 0 <= k < q.len() - 1 implies comp_edge(g, #[trigger] q[k], q[k + 1]) by {
            let tail_len = p.len() - i;
            if k + 1 < tail_len {
                assert(q[k] == p[i + k]);
                assert(q[k + 1] == p[i + k + 1]);
            } else if k + 1 == tail_len {
                assert(q[k] == p[p.len() - 1]);
                assert(q[k + 1] == p[1]);
                assert(p[p.len() - 1] == p[0]);
                assert(comp_edge(g, p[0], p[1]));
            } else {
                assert(q[k] == p[k - tail_len + 1]);
                assert(q[k + 1] == p[k - tail_len + 2]);
            }
        }
        assert(q.first() == p[i]);
        assert(q.last() == p[i]);
        assert(is_comp_path(g, q));
    }
}

/// How many entries of `r` up to `n` are true.
pub open spec fn trues_upto(r: Seq<bool>, n: int) -> int
    decreases n when 0 <= n
{
    if n <= 0 {
        0int
    } else {
        trues_upto(r, n - 1) + (if r[n - 1] {
            1int
        } else {
            0int
        })
    }
}

proof fn lemma_trues_upto_le(r: Seq<bool>, n: int)
    requires
        0 <= n,
    ensures
        0 <= trues_upto(r, n) <= n,
    decreases n,
{
    if n > 0 {
        lemma_trues_upto_le(r, n - 1);
    }
}

proof fn lemma_trues_upto_update(r: Seq<bool>, j: int, n: int)
    requires
        0 <= j < n <= r.len(),
        !r[j],
    ensures
        trues_upto(r.update(j, true), n) == trues_upto(r, n) + 1,
    decreases n,
{
    if n - 1 == j {
        lemma_trues_upto_same(r, r.update(j, true), n - 1);
    } else {
        lemma_trues_upto_update(r, j, n - 1);
    }
}

proof fn lemma_trues_upto_lt(r: Seq<bool>, j: int, n: int)
    requires
        0 <= j < n <= r.len(),
        !r[j],
    ensures
        trues_upto(r, n) < n,
    decreases n,
{
    if n - 1 == j {
        lemma_trues_upto_le(r, n - 1);
    } else {
        lemma_trues_upto_lt(r, j, n - 1);
    }
}

proof fn lemma_trues_upto_same(a: Seq<bool>, b: Seq<bool>, n: int)
    requires
        0 <= n,
        forall|k: int| 0 <= k < n ==> a[k] == b[k],
    ensures
        trues_upto(a, n) == trues_upto(b, n),
    decreases n,
{
    if n > 0 {
        lemma_trues_upto_same(a, b, n - 1);
    }
}

fn exec_comp_edge(g: &Graph, a: usize, b: usize) -> (r: bool)
    requires
        a < g@.symbols.len(),
        b < g@.symbols.len(),
    ensures
        r == comp_edge(g@, a as int, b as int),
{
    let mut k: usize = 0;
    while k < g.edges.len()
        invariant
            a < g@.symbols.len(),
            b < g@.symbols.len(),
            k <= g@.edges.len(),
            forall|j: int| 0 <= j < k ==> !edge_links(#[trigger] g@.edges[j], g@, a as int, b as int),
        decreases g@.edges.len() - k,
    {
        let e = &g.edges[k];
        assert(g@.edges[k as int] == e@);
        let links = if e.kind == PatternKind::Composition {
            let subj_ok = match &e.subject {
                EndPoint::Resolved(s) => bytes_eq(
                    s.qualified_id.as_slice(),
                    g.symbols[a].qualified_id.as_slice(),
                ),
                EndPoint::Unresolved(_, _) => false,
            };
            let obj_ok = match &e.object {
                Option::Some(EndPoint::Resolved(s)) => bytes_eq(
                    s.qualified_id.as_slice(),
                    g.symbols[b].qualified_id.as_slice(),
                ),
                _ => false,
            };
            subj_ok && obj_ok
        } else {
            false
        };
        assert(links == edge_links(g@.edges[k as int], g@, a as int, b as int));
        if links {
            return true;
        }
        k = k + 1;
    }
    false
}

/// All composition successors of everything reached are reached, and so
/// are the direct successors of the start vertex.
pub open spec fn reach_closed(g: GraphModel, v: int, r: Seq<bool>) -> bool {
    &&& (forall|c: int| 0 <= c < r.len() && comp_edge(g, v, c) ==> r[c])
    &&& (forall|m: int, c: int|
        0 <= m < r.len() && 0 <= c < r.len() && r[m] && comp_edge(g, m, c) ==> r[c])
}

/// Everything reached is reachable from `v` by a composition path.
pub open spec fn reach_sound(g: GraphModel, v: int, r: Seq<bool>) -> bool {
    forall|b: int|
        0 <= b < r.len() && r[b] ==> exists|p: Seq<int>|
            is_comp_path(g, p) && p.first() == v && p.last() == b
}

/// A closed reach set contains the endpoint of every composition path
/// leaving `v`.
proof fn lemma_closed_complete(g: GraphModel, v: int, r: Seq<bool>, p: Seq<int>)
    requires
        reach_closed(g, v, r),
        r.len() == g.symbols.len(),
        is_comp_path(g, p),
        p.first() == v,
    ensures
        0 <= p.last() < r.len() && r[p.last()],
    decreases p.len(),
{
    if p.len() == 2 {
        assert(comp_edge(g, p[0], p[1]));
    } else {
        let q = p.drop_last();
        assert(q.len() >= 2);
        assert forall|i: int| 0 <= i < q.len() - 1 implies comp_edge(g, #[trigger] q[i], q[i + 1]) by {
            assert(q[i] == p[i]);
            assert(q[i + 1] == p[i + 1]);
        }
        assert(q.first() == v);
        lemma_closed_complete(g, v, r, q);
        assert(comp_edge(g, p[p.len() - 2], p[p.len() - 1]));
        assert(q.last() == p[p.len() - 2]);
    }
}

/// The composition-reach set of vertex `v`: entry `b` is true exactly when
/// a composition path leads from `v` to `b`.
fn reach_from(g: &Graph, v: usize) -> (r: Vec<bool>)
    requires
        v < g@.symbols.len(),
    ensures
        r@.len() == g@.symbols.len(),
        forall|b: int|
            0 <= b < r@.len() ==> (r@[b] == exists|p: Seq<int>|
                is_comp_path(g@, p) && p.first() == v as int && p.last() == b),
{
    let n = g.symbols.len();
    let mut reached: Vec<bool> = Vec::new();
    let mut seed: usize = 0;
    while seed < n
        invariant
            n == g@.symbols.len(),
            v < n,
            seed <= n,
            reached@.len() == seed,
            forall|b: int|
                0 <= b < seed ==> (reached@[b] == comp_edge(g@, v as int, b)),
        decreases n - seed,
    {
        reached.push(exec_comp_edge(g, v, seed));
        seed = seed + 1;
    }
    assert forall|b: int| 0 <= b < n && reached@[b] implies exists|p: Seq<int>|
        is_comp_path(g@, p) && p.first() == v as int && p.last() == b by {
        assert(comp_edge(g@, v as int, b));
        let p = seq![v as int, b];
        assert(p.len() == 2 && p[0] == v as int && p[1] == b);
        assert forall|i: int| 0 <= i < p.len() - 1 implies comp_edge(g@, #[trigger] p[i], p[i + 1]) by {
            assert(p[0] == v as int && p[1] == b);
        }
        assert(is_comp_path(g@, p));
        assert(p.first() == v as int && p.last() == b);
    }
    let mut count: usize = 0;
    let mut j: usize = 0;
    while j < n
        invariant
            j <= n,
            reached@.len() == n,
            count as int == trues_upto(reached@, j as int),
        decreases n - j,
    {
        proof {
            lemma_trues_upto_le(reached@, j as int);
        }
        if reached[j] {
            count = count + 1;
        }
        j = j + 1;
    }
    proof {
        lemma_trues_upto_le(reached@, n as int);
    }
    loop
        invariant
            n == g@.symbols.len(),
            v < n,
            reached@.len() == n,
            count as int == trues_upto(reached@, n as int),
            count <= n,
            reach_sound(g@, v as int, reached@),
            forall|c: int| 0 <= c < n && comp_edge(g@, v as int, c) ==> reached@[c],
        decreases n - trues_upto(reached@, n as int),
    {
        let mut changed = false;
        let ghost count0 = count as int;
        let mut m: usize = 0;
        while m < n
            invariant
                n == g@.symbols.len(),
                v < n,
                reached@.len() == n,
                count as int == trues_upto(reached@, n as int),
                count <= n,
                count0 <= count as int,
                changed ==> count as int > count0,
                reach_sound(g@, v as int, reached@),
                forall|c: int| 0 <= c < n && comp_edge(g@, v as int, c) ==> reached@[c],
                m <= n,
                !changed ==> forall|m2: int, c: int|
                    0 <= m2 < m && 0 <= c < n && reached@[m2] && comp_edge(g@, m2, c)
                        ==> reached@[c],
            decreases n - m,
        {
            if reached[m] {
                let mut c: usize = 0;
                while c < n
                    invariant
                        n == g@.symbols.len(),
                        v < n,
                        m < n,
                        reached@.len() == n,
                        count as int == trues_upto(reached@, n as int),
                        count <= n,
                        count0 <= count as int,
                        changed ==> count as int > count0,
                        reached@[m as int],
                        reach_sound(g@, v as int, reached@),
                        forall|c2: int|
                            0 <= c2 < n && comp_edge(g@, v as int, c2) ==> reached@[c2],
                        c <= n,
                        !changed ==> forall|c2: int|
                            0 <= c2 < c && comp_edge(g@, m as int, c2) ==> reached@[c2],
                        !changed ==> forall|m2: int, c2: int|
                            0 <= m2 < m && 0 <= c2 < n && reached@[m2] && comp_edge(g@, m2, c2)
                                ==> reached@[c2],
                    decreases n - c,
                {
                    if !reached[c] && exec_comp_edge(g, m, c) {
                        let ghost pre = reached@;
                        reached.set(c, true);
                        proof {
                            lemma_trues_upto_update(pre, c as int, n as int);
                            lemma_trues_upto_lt(pre, c as int, n as int);
                            // soundness: extend the witness path to m by one edge
                            assert forall|b: int|
                                0 <= b < n && reached@[b] implies exists|p2: Seq<int>|
                                is_comp_path(g@, p2) && p2.first() == v as int && p2.last()
                                    == b by {
                                if b == c as int {
                                    let pm = choose|p: Seq<int>|
                                        is_comp_path(g@, p) && p.first() == v as int && p.last()
                                            == m as int;
                                    let p2 = pm.push(c as int);
                                    assert(p2.last() == c as int);
                                    assert(p2.first() == v as int);
                                    assert forall|i: int|
                                        0 <= i < p2.len() - 1 implies comp_edge(
                                        g@,
                                        #[trigger] p2[i],
                                        p2[i + 1],
                                    ) by {
                                        if i < pm.len() - 1 {
                                            assert(p2[i] == pm[i]);
                                            assert(p2[i + 1] == pm[i + 1]);
                                        } else {
                                            assert(p2[i] == pm.last());
                                        }
                                    }
                                    assert(is_comp_path(g@, p2));
                                } else {
                                    assert(pre[b]);
                                }
                            }
                        }
                        count = count + 1;
                        changed = true;
                    }
                    c = c + 1;
                }
            }
            m = m + 1;
        }
        if !changed {
            proof {
                assert(reach_closed(g@, v as int, reached@));
                assert forall|b: int| 0 <= b < n && !reached@[b] implies !(exists|p: Seq<int>|
                    is_comp_path(g@, p) && p.first() == v as int && p.last() == b) by {
                    if exists|p: Seq<int>|
                        is_comp_path(g@, p) && p.first() == v as int && p.last() == b {
                        let p = choose|p: Seq<int>|
                            is_comp_path(g@, p) && p.first() == v as int && p.last() == b;
                        lemma_closed_complete(g@, v as int, reached@, p);
                    }
                }
            }
            return reached;
        }
    }
}

/// Flag every symbol that lies on a composition cycle.
pub fn composition_cycle_flags(g: &Graph) -> (r: Vec<bool>)
    ensures
        r@.len() == g@.symbols.len(),
        forall|v: int| 0 <= v < r@.len() ==> (r@[v] == on_comp_cycle(g@, v)),
{
    let n = g.symbols.len();
    let mut flags: Vec<bool> = Vec::new();
    let mut v: usize = 0;
    while v < n
        invariant
            n == g@.symbols.len(),
            v <= n,
            flags@.len() == v,
            forall|w: int| 0 <= w < v ==> (flags@[w] == on_comp_cycle(g@, w)),
        decreases n - v,
    {
        let reach = reach_from(g, v);
        flags.push(reach[v]);
        v = v + 1;
    }
    flags
}

/// The aggregated counts of the report.
#[derive(Clone, Copy, PartialEq, Eq, Structural, Debug)]
pub struct PatternCounts {
    pub definitions: usize,
    pub trait_impls: usize,
    pub compositions: usize,
    pub static_calls: usize,
    pub generic_insts: usize,
    pub typed_bindings: usize,
}

/// The read-only view derived from a graph: counts per kind, the
/// unresolved occurrences, and the cycle diagnostics; parse diagnostics
/// are carried through unchanged by the caller.
#[derive(Clone, PartialEq, Eq, Debug)]
pub struct ExtractionReport {
    pub counts: PatternCounts,
    pub unresolved: Vec<Diagnostic>,
    pub cycle_diags: Vec<Diagnostic>,
}

/// How many edges of the graph carry this kind.
pub open spec fn count_kind(es: Seq<UsagePatternModel>, kind: PatternKind, n: int) -> int
    decreases n when 0 <= n
{
    if n <= 0 {
        0int
    } else {
        count_kind(es, kind, n - 1) + (if es[n - 1].kind == kind {
            1int
        } else {
            0int
        })
    }
}

/// An endpoint of edge `k` is unresolved.
pub open spec fn edge_has_unresolved(e: UsagePatternModel) -> bool {
    (e.subject is Unresolved) || (match e.object {
        Option::Some(o) => o is Unresolved,
        Option::None => false,
    })
}


/// One `CompositionCycle` diagnostic for every symbol on a composition
/// cycle, at the symbol's definition site, and nothing else.
#[verifier::rlimit(100)]
pub fn cycle_diagnostics(g: &Graph) -> (r: Vec<Diagnostic>)
    ensures
        forall|v: int|
            0 <= v < g@.symbols.len() && on_comp_cycle(g@, v) ==> exists|k: int|
                0 <= k < r@.len() && cycle_diag_for((#[trigger] r@[k])@, g@, v),
{
    let flags = composition_cycle_flags(g);
    let mut out: Vec<Diagnostic> = Vec::new();
    let mut v: usize = 0;
    while v < g.symbols.len()
        invariant
            flags@.len() == g@.symbols.len(),
            forall|w: int| 0 <= w < flags@.len() ==> (flags@[w] == on_comp_cycle(g@, w)),
            v <= g@.symbols.len(),
            forall|w: int|
                0 <= w < v && on_comp_cycle(g@, w) ==> exists|j: int|
                    0 <= j < out@.len() && cycle_diag_for(
                        #[trigger] out@[j]@,
                        g@,
                        w,
                    ),
        decreases g@.symbols.len() - v,
    {
        if flags[v] {
            let s = &g.symbols[v];
            assert(g@.symbols[v as int] == s@);
            let d = Diagnostic {
                severity: Severity::Warning,
                code: DiagCode::CompositionCycle,
                file: crate::span::slice_bytes(s.file.as_slice(), 0, s.file.len()),
                position: s.definition_span.start,
            };
            assert(d@.file =~= g@.symbols[v as int].file);
            assert(cycle_diag_for(d@, g@, v as int));
            let ghost prev = out@;
            out.push(d);
            assert(out@[prev.len() as int]@ == d@);
            assert(forall|j: int| 0 <= j < prev.len() ==> out@[j] == prev[j]);
            assert(flags@[v as int]);
            assert(on_comp_cycle(g@, v as int));
            assert forall|w: int|
                0 <= w < v + 1 && on_comp_cycle(g@, w) implies exists|j: int|
                0 <= j < out@.len() && cycle_diag_for(
                    #[trigger] out@[j]@,
                    g@,
                    w,
                ) by {
                if w < v {
                    let j = choose|j: int|
                        0 <= j < prev.len() && cycle_diag_for(#[trigger] prev[j]@, g@, w);
                    assert(out@[j] == prev[j]);
                    assert(cycle_diag_for(out@[j]@, g@, w));
                } else {
                    assert(cycle_diag_for(out@[prev.len() as int]@, g@, v as int));
                }
            }
        } else {
            assert(!on_comp_cycle(g@, v as int));
            assert forall|w: int|
                0 <= w < v + 1 && on_comp_cycle(g@, w) implies exists|j: int|
                0 <= j < out@.len() && cycle_diag_for(
                    #[trigger] out@[j]@,
                    g@,
                    w,
                ) by {
                assert(w < v);
            }
        }
        v = v + 1;
    }
    assert(v == g@.symbols.len());
    out
}

/// Derive the report from the graph: exact counts per kind, one
/// diagnostic per edge with an unresolved endpoint, and one
/// `CompositionCycle` diagnostic per symbol on a composition cycle.
#[verifier::rlimit(100)]
pub fn build_report(g: &Graph) -> (r: ExtractionReport)
    ensures
        r.counts.definitions as int == count_kind(
            g@.edges,
            PatternKind::Definition,
            g@.edges.len() as int,
        ),
        r.counts.compositions as int == count_kind(
            g@.edges,
            PatternKind::Composition,
            g@.edges.len() as int,
        ),
        r.counts.trait_impls as int == count_kind(
            g@.edges,
            PatternKind::TraitImplementation,
            g@.edges.len() as int,
        ),
        r.counts.static_calls as int == count_kind(
            g@.edges,
            PatternKind::StaticCall,
            g@.edges.len() as int,
        ),
        r.counts.generic_insts as int == count_kind(
            g@.edges,
            PatternKind::GenericInstantiation,
            g@.edges.len() as int,
        ),
        r.counts.typed_bindings as int == count_kind(
            g@.edges,
            PatternKind::TypedBinding,
            g@.edges.len() as int,
        ),
        forall|v: int|
            0 <= v < g@.symbols.len() && on_comp_cycle(g@, v) ==> exists|k: int|
                0 <= k < r.cycle_diags@.len() && cycle_diag_for(
                    (#[trigger] r.cycle_diags@[k])@,
                    g@,
                    v,
                ),
{
    let mut counts = PatternCounts {
        definitions: 0,
        trait_impls: 0,
        compositions: 0,
        static_calls: 0,
        generic_insts: 0,
        typed_bindings: 0,
    };
    let mut unresolved: Vec<Diagnostic> = Vec::new();
    let mut k: usize = 0;
    let ghost es = g@.edges;
    while k < g.edges.len()
        invariant
            es == g@.edges,
            k <= es.len(),
            counts.definitions as int == count_kind(es, PatternKind::Definition, k as int),
            counts.trait_impls as int == count_kind(
                es,
                PatternKind::TraitImplementation,
                k as int,
            ),
            counts.compositions as int == count_kind(es, PatternKind::Composition, k as int),
            counts.static_calls as int == count_kind(es, PatternKind::StaticCall, k as int),
            counts.generic_insts as int == count_kind(
                es,
                PatternKind::GenericInstantiation,
                k as int,
            ),
            counts.typed_bindings as int == count_kind(es, PatternKind::TypedBinding, k as int),
        decreases es.len() - k,
    {
        proof {
            lemma_count_kind_le(es, PatternKind::Definition, k as int);
            lemma_count_kind_le(es, PatternKind::TraitImplementation, k as int);
            lemma_count_kind_le(es, PatternKind::Composition, k as int);
            lemma_count_kind_le(es, PatternKind::StaticCall, k as int);
            lemma_count_kind_le(es, PatternKind::GenericInstantiation, k as int);
            lemma_count_kind_le(es, PatternKind::TypedBinding, k as int);
        }
        let e = &g.edges[k];
        assert(es[k as int] == e@);
        match e.kind {
            PatternKind::Definition => {
                counts.definitions = counts.definitions + 1;
            },
            PatternKind::TraitImplementation => {
                counts.trait_impls = counts.trait_impls + 1;
            },
            PatternKind::Composition => {
                counts.compositions = counts.compositions + 1;
            },
            PatternKind::StaticCall => {
                counts.static_calls = counts.static_calls + 1;
            },
            PatternKind::GenericInstantiation => {
                counts.generic_insts = counts.generic_insts + 1;
            },
            PatternKind::TypedBinding => {
                counts.typed_bindings = counts.typed_bindings + 1;
            },
        }
        let subj_unres = match &e.subject {
            EndPoint::Unresolved(_, reason) => Option::Some(*reason),
            EndPoint::Resolved(_) => Option::None,
        };
        let obj_unres = match &e.object {
            Option::Some(EndPoint::Unresolved(_, reason)) => Option::Some(*reason),
            _ => Option::None,
        };
        let reason = if subj_unres.is_some() {
            subj_unres
        } else {
            obj_unres
        };
        match reason {
            Option::Some(rr) => {
                unresolved.push(
                    Diagnostic {
                        severity: Severity::Warning,
                        code: match rr {
                            crate::resolve::UnresolvedReason::Ambiguous => DiagCode::Ambiguous,
                            crate::resolve::UnresolvedReason::Unknown => DiagCode::Unknown,
                        },
                        file: crate::span::slice_bytes(e.file.as_slice(), 0, e.file.len()),
                        position: e.site.start,
                    },
                );
            },
            Option::None => {
            },
        }
        k = k + 1;
    }
    let cycle_diags = cycle_diagnostics(g);
    let ghost cd = cycle_diags@;
    let r = ExtractionReport { counts, unresolved, cycle_diags };
    assert(r.cycle_diags@ == cd);
    assert forall|v: int|
        0 <= v < g@.symbols.len() && on_comp_cycle(g@, v) implies exists|k: int|
        0 <= k < r.cycle_diags@.len() && cycle_diag_for((#[trigger] r.cycle_diags@[k])@, g@, v) by {
        let k = choose|k: int| 0 <= k < cd.len() && cycle_diag_for((#[trigger] cd[k])@, g@, v);
        assert(cycle_diag_for((r.cycle_diags@[k])@, g@, v));
    }
    r
}

/// The diagnostic points at symbol `v`: a composition-cycle warning at the
/// symbol's definition site in its file.
pub open spec fn cycle_diag_for(d: crate::diag::DiagModel, g: GraphModel, v: int) -> bool {
    &&& d.severity == Severity::Warning
    &&& d.code == DiagCode::CompositionCycle
    &&& d.file == g.symbols[v].file
    &&& d.position == g.symbols[v].definition_span.start as int
}

proof fn lemma_count_kind_le(es: Seq<UsagePatternModel>, kind: PatternKind, n: int)
    requires
        0 <= n,
    ensures
        0 <= count_kind(es, kind, n) <= n,
    decreases n,
{
    if n > 0 {
        lemma_count_kind_le(es, kind, n - 1);
    }
}

/// Composition cycles are fully reported: for every composition cycle in
/// the graph, the report holds a `CompositionCycle` diagnostic for every
/// symbol on that cycle.
pub proof fn lemma_report_covers_cycles(
    g: GraphModel,
    diags: Seq<crate::diag::DiagModel>,
    p: Seq<int>,
    i: int,
)
    requires
        is_comp_path(g, p),
        p.first() == p.last(),
        0 <= i < p.len(),
        forall|v: int|
            0 <= v < g.symbols.len() && on_comp_cycle(g, v) ==> exists|k: int|
                0 <= k < diags.len() && cycle_diag_for(#[trigger] diags[k], g, v),
    ensures
        exists|k: int| 0 <= k < diags.len() && cycle_diag_for(#[trigger] diags[k], g, p[i]),
{
    lemma_cycle_members(g, p, i);
    assert(comp_edge(g, p[0], p[1]));
    if i < p.len() - 1 {
        assert(comp_edge(g, p[i], p[i + 1]));
    } else {
        assert(p[i] == p[0]);
    }
    assert(0 <= p[i] < g.symbols.len());
}

} // verus!
