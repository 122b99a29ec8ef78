// Tests for the resolver and the graph builder: the two-pass scenario over
// the demo source, resolution outcomes, symbol registration and merge
// idempotence.

use usagegraph::adapter::parse_rust;
use usagegraph::graph::Graph;
use usagegraph::node::check_tree_wf;
use usagegraph::pattern::{match_patterns, PatternKind, RawEvent};
use usagegraph::resolve::{
    collect_declarations, extend_table, resolve_events, EndPoint, Import, Symbol, SymbolKind,
    UnresolvedReason, UsagePattern,
};
use usagegraph::span::Span;
use usagegraph::report::{build_report, composition_cycle_flags};
use usagegraph::diag::DiagCode;

fn demo_source() -> &'static [u8] {
    b"pub struct BaseStruct {
    value: i32,
}

impl BaseStruct {
    pub fn new(value: i32) -> Self {
        BaseStruct { value }
    }

    pub fn static_method() -> String {
        \"static\".to_string()
    }
}

pub trait BaseTrait {
    fn process(&self);
}

impl BaseTrait for BaseStruct {
    fn process(&self) {
        println!(\"Processing\");
    }
}

pub struct ExtendedStruct {
    base: BaseStruct,
}

impl ExtendedStruct {
    pub fn new(param: BaseStruct) -> Self {
        let local = BaseStruct { value: 42 };
        let _result = BaseStruct::static_method();
        ExtendedStruct { base: param }
    }

    pub fn process_base(&self, input: BaseStruct) -> BaseStruct {
        input
    }

    pub fn get_vec(&self) -> Vec<BaseStruct> {
        vec![BaseStruct::new(1)]
    }
}

pub fn use_base() {
    let my_base: BaseStruct = BaseStruct::new(10);
}
"
}

fn sym(name: &[u8], qid: &[u8]) -> Symbol {
    Symbol {
        name: name.to_vec(),
        local_path: name.to_vec(),
        qualified_id: qid.to_vec(),
        kind: SymbolKind::Type,
        file: b"".to_vec(),
        definition_span: Span { start: 0, end: 1 },
    }
}

fn raw_event(subject: &[u8], object: &[u8]) -> RawEvent {
    RawEvent {
        kind: PatternKind::TypedBinding,
        subject: subject.to_vec(),
        object: Some(object.to_vec()),
        site: Span { start: 0, end: 1 },
    }
}

/// Run the two-pass pipeline over one file with the given ambient symbols.
fn run_pipeline(src: &[u8], file: &[u8], ambient: Vec<Symbol>) -> (Graph, Vec<UsagePattern>) {
    let (tree, diags) = parse_rust(src, file).expect("parses");
    assert!(diags.is_empty());
    assert!(check_tree_wf(&tree, src));
    // pass 1: declaration collection
    let decls = collect_declarations(&tree, src, file);
    let mut table = ambient;
    extend_table(&mut table, &decls);
    // pass 2: reference resolution against the complete table
    let events = match_patterns(&tree, src);
    let imports: Vec<Import> = Vec::new();
    let resolved = resolve_events(&events, &decls, &imports, &table, file);
    let mut graph = Graph::new();
    graph.merge(&resolved);
    (graph, resolved)
}

fn ambient_vec() -> Vec<Symbol> {
    vec![sym(b"Vec", b"alloc::vec::Vec")]
}

fn count_edges(g: &Graph, kind: PatternKind) -> usize {
    g.edges.iter().filter(|e| e.kind == kind).count()
}

fn has_symbol_qid(g: &Graph, qid: &[u8]) -> bool {
    g.symbols.iter().any(|s| s.qualified_id == qid)
}

#[test]
fn scenario_counts() {
    let (g, _) = run_pipeline(demo_source(), b"demo.rs", ambient_vec());
    assert_eq!(count_edges(&g, PatternKind::Definition), 3);
    assert_eq!(count_edges(&g, PatternKind::TraitImplementation), 1);
    assert_eq!(count_edges(&g, PatternKind::Composition), 1);
    assert!(count_edges(&g, PatternKind::StaticCall) >= 2);
    assert!(count_edges(&g, PatternKind::GenericInstantiation) >= 1);
    assert!(count_edges(&g, PatternKind::TypedBinding) >= 1);
}

#[test]
fn scenario_no_unresolved() {
    let (_, resolved) = run_pipeline(demo_source(), b"demo.rs", ambient_vec());
    for e in &resolved {
        assert!(matches!(e.subject, EndPoint::Resolved(_)));
        if let Some(o) = &e.object {
            assert!(matches!(o, EndPoint::Resolved(_)));
        }
    }
}

#[test]
fn scenario_symbols_registered() {
    let (g, _) = run_pipeline(demo_source(), b"demo.rs", ambient_vec());
    assert!(has_symbol_qid(&g, b"demo.rs::BaseStruct"));
    assert!(has_symbol_qid(&g, b"demo.rs::BaseTrait"));
    assert!(has_symbol_qid(&g, b"demo.rs::ExtendedStruct"));
    assert!(has_symbol_qid(&g, b"demo.rs::ExtendedStruct::new"));
    assert!(has_symbol_qid(&g, b"demo.rs::use_base"));
    assert!(has_symbol_qid(&g, b"alloc::vec::Vec"));
}

#[test]
fn merge_is_idempotent() {
    let (mut g, resolved) = run_pipeline(demo_source(), b"demo.rs", ambient_vec());
    let before = g.clone();
    g.merge(&resolved);
    assert_eq!(g, before);
}

#[test]
fn merge_deduplicates_edges() {
    let (g, resolved) = run_pipeline(demo_source(), b"demo.rs", ambient_vec());
    let mut doubled = Graph::new();
    doubled.merge(&resolved);
    doubled.merge(&resolved);
    assert_eq!(g, doubled);
    assert_eq!(g.edges.len(), resolved.len());
}

#[test]
fn first_definition_span_wins() {
    let mut a = sym(b"Thing", b"lib.rs::Thing");
    a.definition_span = Span { start: 0, end: 5 };
    let mut b = sym(b"Thing", b"lib.rs::Thing");
    b.definition_span = Span { start: 9, end: 14 };
    let e1 = UsagePattern {
        kind: PatternKind::Definition,
        subject: EndPoint::Resolved(a),
        object: None,
        site: Span { start: 0, end: 5 },
        file: b"lib.rs".to_vec(),
    };
    let e2 = UsagePattern {
        kind: PatternKind::Definition,
        subject: EndPoint::Resolved(b),
        object: None,
        site: Span { start: 9, end: 14 },
        file: b"lib.rs".to_vec(),
    };
    let mut g = Graph::new();
    g.merge(&vec![e1, e2]);
    assert_eq!(g.symbols.len(), 1);
    assert_eq!(g.symbols[0].definition_span, Span { start: 0, end: 5 });
    // distinct sites: both definition edges are kept
    assert_eq!(g.edges.len(), 2);
}

#[test]
fn unknown_name_stays_unresolved() {
    let events = vec![raw_event(b"f", b"Missing")];
    let decls: Vec<Symbol> = Vec::new();
    let imports: Vec<Import> = Vec::new();
    let table: Vec<Symbol> = Vec::new();
    let resolved = resolve_events(&events, &decls, &imports, &table, b"x.rs");
    match &resolved[0].object {
        Some(EndPoint::Unresolved(name, reason)) => {
            assert_eq!(name, b"Missing");
            assert_eq!(*reason, UnresolvedReason::Unknown);
        }
        other => panic!("expected an unknown outcome, got {:?}", other),
    }
}

#[test]
fn ambiguous_name_stays_unresolved() {
    let events = vec![raw_event(b"f", b"Thing")];
    let decls: Vec<Symbol> = Vec::new();
    let imports: Vec<Import> = Vec::new();
    let table = vec![sym(b"Thing", b"a.rs::Thing"), sym(b"Thing", b"b.rs::Thing")];
    let resolved = resolve_events(&events, &decls, &imports, &table, b"x.rs");
    match &resolved[0].object {
        Some(EndPoint::Unresolved(_, reason)) => {
            assert_eq!(*reason, UnresolvedReason::Ambiguous);
        }
        other => panic!("expected an ambiguous outcome, got {:?}", other),
    }
}

#[test]
fn unique_table_match_resolves() {
    let events = vec![raw_event(b"f", b"Thing")];
    let decls: Vec<Symbol> = Vec::new();
    let imports: Vec<Import> = Vec::new();
    let table = vec![sym(b"Thing", b"a.rs::Thing")];
    let resolved = resolve_events(&events, &decls, &imports, &table, b"x.rs");
    match &resolved[0].object {
        Some(EndPoint::Resolved(s)) => {
            assert_eq!(s.qualified_id, b"a.rs::Thing");
        }
        other => panic!("expected a resolved outcome, got {:?}", other),
    }
}

#[test]
fn local_declaration_beats_table() {
    let events = vec![raw_event(b"f", b"Thing")];
    let decls = vec![sym(b"Thing", b"x.rs::Thing")];
    let imports: Vec<Import> = Vec::new();
    let table = vec![sym(b"Thing", b"a.rs::Thing"), sym(b"Thing", b"x.rs::Thing")];
    let resolved = resolve_events(&events, &decls, &imports, &table, b"x.rs");
    match &resolved[0].object {
        Some(EndPoint::Resolved(s)) => {
            assert_eq!(s.qualified_id, b"x.rs::Thing");
        }
        other => panic!("expected the local declaration, got {:?}", other),
    }
}

#[test]
fn import_alias_resolves_through_table() {
    let events = vec![raw_event(b"f", b"Alias")];
    let decls: Vec<Symbol> = Vec::new();
    let imports = vec![Import { alias: b"Alias".to_vec(), target: b"a.rs::Thing".to_vec() }];
    let table = vec![sym(b"Thing", b"a.rs::Thing")];
    let resolved = resolve_events(&events, &decls, &imports, &table, b"x.rs");
    match &resolved[0].object {
        Some(EndPoint::Resolved(s)) => {
            assert_eq!(s.qualified_id, b"a.rs::Thing");
        }
        other => panic!("expected the imported symbol, got {:?}", other),
    }
}

#[test]
fn table_extension_keeps_first_entry() {
    let mut table = vec![sym(b"Thing", b"a.rs::Thing")];
    let mut later = sym(b"Thing", b"a.rs::Thing");
    later.definition_span = Span { start: 7, end: 8 };
    let decls = vec![later, sym(b"Other", b"b.rs::Other")];
    extend_table(&mut table, &decls);
    assert_eq!(table.len(), 2);
    assert_eq!(table[0].definition_span, Span { start: 0, end: 1 });
    assert_eq!(table[1].qualified_id, b"b.rs::Other");
}

fn comp_edge_between(a: &Symbol, b: &Symbol, site: Span) -> UsagePattern {
    UsagePattern {
        kind: PatternKind::Composition,
        subject: EndPoint::Resolved(a.clone()),
        object: Some(EndPoint::Resolved(b.clone())),
        site,
        file: b"cyc.rs".to_vec(),
    }
}

#[test]
fn composition_cycle_is_reported_for_all_members() {
    let mut a = sym(b"A", b"cyc.rs::A");
    let mut b = sym(b"B", b"cyc.rs::B");
    let mut c = sym(b"C", b"cyc.rs::C");
    a.file = b"cyc.rs".to_vec();
    b.file = b"cyc.rs".to_vec();
    c.file = b"cyc.rs".to_vec();
    let mut g = Graph::new();
    g.merge(&vec![
        comp_edge_between(&a, &b, Span { start: 0, end: 1 }),
        comp_edge_between(&b, &a, Span { start: 2, end: 3 }),
        comp_edge_between(&a, &c, Span { start: 4, end: 5 }),
    ]);
    let flags = composition_cycle_flags(&g);
    assert_eq!(g.symbols.len(), 3);
    // A and B lie on the two-step cycle; C is only reachable, not cyclic
    assert_eq!(flags, vec![true, true, false]);
    let report = build_report(&g);
    assert_eq!(report.counts.compositions, 3);
    assert_eq!(report.cycle_diags.len(), 2);
    for d in &report.cycle_diags {
        assert_eq!(d.code, DiagCode::CompositionCycle);
        assert_eq!(d.file, b"cyc.rs".to_vec());
    }
    assert!(report.unresolved.is_empty());
}

#[test]
fn acyclic_composition_has_no_cycle_diagnostics() {
    let a = sym(b"A", b"cyc.rs::A");
    let b = sym(b"B", b"cyc.rs::B");
    let mut g = Graph::new();
    g.merge(&vec![comp_edge_between(&a, &b, Span { start: 0, end: 1 })]);
    let report = build_report(&g);
    assert!(report.cycle_diags.is_empty());
    assert_eq!(report.counts.compositions, 1);
}

#[test]
fn report_counts_and_unresolved() {
    let (g, _) = run_pipeline(demo_source(), b"demo.rs", ambient_vec());
    let report = build_report(&g);
    assert_eq!(report.counts.definitions, 3);
    assert_eq!(report.counts.trait_impls, 1);
    assert_eq!(report.counts.compositions, 1);
    assert!(report.counts.static_calls >= 2);
    assert!(report.counts.generic_insts >= 1);
    assert!(report.counts.typed_bindings >= 1);
    assert!(report.unresolved.is_empty());
    assert!(report.cycle_diags.is_empty());
}

#[test]
fn unresolved_edges_are_listed() {
    let (_, resolved) = {
        let events = vec![raw_event(b"f", b"Missing")];
        let decls: Vec<Symbol> = Vec::new();
        let imports: Vec<Import> = Vec::new();
        let table: Vec<Symbol> = Vec::new();
        ((), resolve_events(&events, &decls, &imports, &table, b"x.rs"))
    };
    let mut g = Graph::new();
    g.merge(&resolved);
    let report = build_report(&g);
    assert_eq!(report.unresolved.len(), 1);
    assert_eq!(report.unresolved[0].code, DiagCode::Unknown);
}
