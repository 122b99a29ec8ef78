// Integration tests: run the adapter and matcher over a source unit that
// declares the same shapes as the sample module, and check the extracted
// events, the recovery behaviour, and the sample items themselves.

use usagegraph::adapter::parse_rust;
use usagegraph::node::check_tree_wf;
use usagegraph::pattern::{match_patterns, PatternKind, RawEvent};
use usagegraph::sample::{BaseStruct, BaseTrait, ExtendedStruct};
use usagegraph::diag::{DiagCode, Severity};

fn demo_source() -> &'static [u8] {
    b"/// Demo unit covering the recognized usage patterns.

pub struct BaseStruct {
    value: i32,
}

impl BaseStruct {
    pub fn new(value: i32) -> Self {
        BaseStruct { value }
    }

    pub fn static_method() -> String {
        \"static\".to_string()
    }
}

pub trait BaseTrait {
    fn process(&self);
}

impl BaseTrait for BaseStruct {
    fn process(&self) {
        println!(\"Processing\");
    }
}

pub struct ExtendedStruct {
    base: BaseStruct,
}

impl ExtendedStruct {
    pub fn new(param: BaseStruct) -> Self {
        let local = BaseStruct { value: 42 };
        let _result = BaseStruct::static_method();
        ExtendedStruct { base: param }
    }

    pub fn process_base(&self, input: BaseStruct) -> BaseStruct {
        input
    }

    pub fn get_vec(&self) -> Vec<BaseStruct> {
        vec![BaseStruct::new(1)]
    }
}

pub fn use_base() {
    let my_base: BaseStruct = BaseStruct::new(10);
}
"
}

fn extract(src: &[u8]) -> Vec<RawEvent> {
    let (tree, diags) = parse_rust(src, b"demo.rs").expect("source parses");
    assert!(diags.is_empty(), "no recovery diagnostics expected");
    assert!(check_tree_wf(&tree, src));
    match_patterns(&tree, src)
}

fn count(events: &[RawEvent], kind: PatternKind) -> usize {
    events.iter().filter(|e| e.kind == kind).count()
}

fn has_edge(events: &[RawEvent], kind: PatternKind, subject: &[u8], object: &[u8]) -> bool {
    events.iter().any(|e| {
        e.kind == kind && e.subject == subject
            && e.object.as_deref() == Some(object)
    })
}

fn contains_bytes(hay: &[u8], needle: &[u8]) -> bool {
    if needle.is_empty() {
        return true;
    }
    if hay.len() < needle.len() {
        return false;
    }
    (0..=hay.len() - needle.len()).any(|i| &hay[i..i + needle.len()] == needle)
}

#[test]
fn demo_definitions() {
    let events = extract(demo_source());
    assert_eq!(count(&events, PatternKind::Definition), 3);
    let subjects: Vec<&[u8]> = events
        .iter()
        .filter(|e| e.kind == PatternKind::Definition)
        .map(|e| e.subject.as_slice())
        .collect();
    assert_eq!(
        subjects,
        vec![b"BaseStruct".as_slice(), b"BaseTrait".as_slice(), b"ExtendedStruct".as_slice()]
    );
}

#[test]
fn demo_trait_implementation() {
    let events = extract(demo_source());
    assert_eq!(count(&events, PatternKind::TraitImplementation), 1);
    assert!(has_edge(
        &events,
        PatternKind::TraitImplementation,
        b"BaseStruct",
        b"BaseTrait"
    ));
}

#[test]
fn demo_composition() {
    let events = extract(demo_source());
    // the i32 field is primitive-typed and yields no composition edge
    assert_eq!(count(&events, PatternKind::Composition), 1);
    assert!(has_edge(
        &events,
        PatternKind::Composition,
        b"ExtendedStruct",
        b"BaseStruct"
    ));
}

#[test]
fn demo_static_calls() {
    let events = extract(demo_source());
    assert!(count(&events, PatternKind::StaticCall) >= 2);
    assert!(has_edge(
        &events,
        PatternKind::StaticCall,
        b"ExtendedStruct::new",
        b"BaseStruct"
    ));
    assert!(has_edge(
        &events,
        PatternKind::StaticCall,
        b"ExtendedStruct::get_vec",
        b"BaseStruct"
    ));
    assert!(has_edge(&events, PatternKind::StaticCall, b"use_base", b"BaseStruct"));
}

#[test]
fn demo_generic_instantiation() {
    let events = extract(demo_source());
    assert!(count(&events, PatternKind::GenericInstantiation) >= 1);
    assert!(has_edge(
        &events,
        PatternKind::GenericInstantiation,
        b"Vec",
        b"BaseStruct"
    ));
}

#[test]
fn demo_typed_binding() {
    let events = extract(demo_source());
    assert!(count(&events, PatternKind::TypedBinding) >= 1);
    assert!(has_edge(&events, PatternKind::TypedBinding, b"use_base", b"BaseStruct"));
}

#[test]
fn matching_is_deterministic() {
    let a = extract(demo_source());
    let b = extract(demo_source());
    assert_eq!(a, b);
}

#[test]
fn sites_slice_back_to_sources() {
    let src = demo_source();
    let events = extract(src);
    assert!(!events.is_empty());
    for e in &events {
        assert!(e.site.start < e.site.end && e.site.end <= src.len());
        let slice = &src[e.site.start..e.site.end];
        match e.kind {
            PatternKind::Definition
            | PatternKind::TraitImplementation
            | PatternKind::GenericInstantiation => {
                assert!(contains_bytes(slice, &e.subject));
            }
            _ => {}
        }
        if let Some(o) = &e.object {
            assert!(contains_bytes(slice, o));
        }
    }
}

#[test]
fn unterminated_string_fails() {
    let src = b"pub fn broken() { let x = \"oops; }";
    let err = parse_rust(src, b"bad.rs").expect_err("lexical failure expected");
    assert_eq!(err.file, b"bad.rs".to_vec());
    assert_eq!(err.position, 26);
}

#[test]
fn unbalanced_braces_fail() {
    let src = b"struct Open { value: i32,";
    let err = parse_rust(src, b"open.rs").expect_err("unclosed scope expected");
    assert_eq!(err.position, src.len());
}

#[test]
fn stray_closing_brace_recovers() {
    let src = b"} struct Late { field: Other, }";
    let (tree, diags) = parse_rust(src, b"stray.rs").expect("recoverable");
    assert_eq!(diags.len(), 1);
    assert_eq!(diags[0].code, DiagCode::ParseError);
    assert_eq!(diags[0].severity, Severity::Warning);
    assert_eq!(diags[0].position, 0);
    assert!(check_tree_wf(&tree, src));
    let events = match_patterns(&tree, src);
    assert_eq!(count(&events, PatternKind::Definition), 1);
    assert!(has_edge(&events, PatternKind::Composition, b"Late", b"Other"));
}

#[test]
fn malformed_header_recovers() {
    let src = b"struct 42 struct Good { }";
    let (_, diags) = parse_rust(src, b"mixed.rs").expect("recoverable");
    assert_eq!(diags.len(), 1);
    let events = extract_ok(src);
    assert_eq!(count(&events, PatternKind::Definition), 1);
}

fn extract_ok(src: &[u8]) -> Vec<RawEvent> {
    let (tree, _) = parse_rust(src, b"any.rs").expect("parses");
    assert!(check_tree_wf(&tree, src));
    match_patterns(&tree, src)
}

#[test]
fn comments_and_strings_are_skipped() {
    let src = b"// struct NotReal { }\n/* struct AlsoNot { } */\nstruct Real { tag: Label, }\nfn f() { let s: Name = make(\"struct Fake {\"); }";
    let events = extract_ok(src);
    assert_eq!(count(&events, PatternKind::Definition), 1);
    assert!(has_edge(&events, PatternKind::Composition, b"Real", b"Label"));
    assert!(has_edge(&events, PatternKind::TypedBinding, b"f", b"Name"));
}

#[test]
fn base_struct_new_holds_value() {
    let b = BaseStruct::new(5);
    assert_eq!(b.value, 5);
}

#[test]
fn base_struct_static_method_tag() {
    assert_eq!(BaseStruct::static_method(), "static");
}

#[test]
fn base_trait_process_runs() {
    let b = BaseStruct::new(1);
    b.process();
}

#[test]
fn extended_struct_wraps_base() {
    let e = ExtendedStruct::new(BaseStruct::new(7));
    assert_eq!(e.base.value, 7);
}

#[test]
fn extended_struct_process_base_is_identity() {
    let e = ExtendedStruct::new(BaseStruct::new(0));
    let out = e.process_base(BaseStruct::new(9));
    assert_eq!(out.value, 9);
}

#[test]
fn extended_struct_get_vec_single_element() {
    let e = ExtendedStruct::new(BaseStruct::new(0));
    let v = e.get_vec();
    assert_eq!(v.len(), 1);
    assert_eq!(v[0].value, 1);
}

#[test]
fn use_base_runs() {
    usagegraph::sample::use_base();
}
