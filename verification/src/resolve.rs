//! The symbol resolver: raw textual names to uniquely addressable symbols.
//!
//! Resolution policy, checked in strict order: a declaration of the same
//! file (innermost path match first, by declaration order), then an
//! explicit import alias, then a unique simple-name match in the cross-file
//! symbol table.  Ambiguity and unknown names are first-class outcomes,
//! never errors.
//!
//! `resolve_spec` is the mathematical definition; the executable
//! `resolve_events` is proved to return exactly that, so resolution is a
//! function of the events and the context alone.

use vstd::prelude::*;
use crate::span::{Span, bytes_eq, slice_bytes};
use crate::node::{NodeKind, StructuralNode, StructuralTree, tree_wf, node_wf};
use crate::pattern::{PatternKind, RawEvent, RawEventModel, events_view, own_name, path_of,
    path_sep, parents_before, exec_path_of};

verus! {

#[derive(Clone, Copy, PartialEq, Eq, Structural, Debug)]
pub enum SymbolKind {
    Type,
    Trait,
    Function,
}

/// A resolved, uniquely addressable declaration.  The qualified id is the
/// file tag joined to the declaration's path within the file; the local
/// path and simple name are kept alongside for scope matching.
#[derive(Clone, PartialEq, Eq, Debug)]
pub struct Symbol {
    pub name: Vec<u8>,
    pub local_path: Vec<u8>,
    pub qualified_id: Vec<u8>,
    pub kind: SymbolKind,
    pub file: Vec<u8>,
    pub definition_span: Span,
}

#[verifier::ext_equal]
pub ghost struct SymbolModel {
    pub name: Seq<u8>,
    pub local_path: Seq<u8>,
    pub qualified_id: Seq<u8>,
    pub kind: SymbolKind,
    pub file: Seq<u8>,
    pub definition_span: Span,
}

impl View for Symbol {
    type V = SymbolModel;

    open spec fn view(&self) -> SymbolModel {
        SymbolModel {
            name: self.name@,
            local_path: self.local_path@,
            qualified_id: self.qualified_id@,
            kind: self.kind,
            file: self.file@,
            definition_span: self.definition_span,
        }
    }
}

pub open spec fn symbols_view(v: Vec<Symbol>) -> Seq<SymbolModel> {
    Seq::new(v@.len(), |i: int| v@[i]@)
}

#[derive(Clone, Copy, PartialEq, Eq, Structural, Debug)]
pub enum UnresolvedReason {
    /// The name matched two or more candidates.
    Ambiguous,
    /// The name matched none.
    Unknown,
}

/// One endpoint of a usage edge: a symbol, or the raw name with the reason
/// it could not be bound.
#[derive(Clone, PartialEq, Eq, Debug)]
pub enum EndPoint {
    Resolved(Symbol),
    Unresolved(Vec<u8>, UnresolvedReason),
}

#[verifier::ext_equal]
pub ghost enum EndPointModel {
    Resolved(SymbolModel),
    Unresolved(Seq<u8>, UnresolvedReason),
}

pub open spec fn ep_view(e: EndPoint) -> EndPointModel {
    match e {
        EndPoint::Resolved(s) => EndPointModel::Resolved(s@),
        EndPoint::Unresolved(n, r) => EndPointModel::Unresolved(n@, r),
    }
}

pub open spec fn opt_ep_view(e: Option<EndPoint>) -> Option<EndPointModel> {
    match e {
        Option::Some(x) => Option::Some(ep_view(x)),
        Option::None => Option::None,
    }
}

/// A resolved usage edge.
#[derive(Clone, PartialEq, Eq, Debug)]
pub struct UsagePattern {
    pub kind: PatternKind,
    pub subject: EndPoint,
    pub object: Option<EndPoint>,
    pub site: Span,
    pub file: Vec<u8>,
}

#[verifier::ext_equal]
pub ghost struct UsagePatternModel {
    pub kind: PatternKind,
    pub subject: EndPointModel,
    pub object: Option<EndPointModel>,
    pub site: Span,
    pub file: Seq<u8>,
}

impl View for UsagePattern {
    type V = UsagePatternModel;

    open spec fn view(&self) -> UsagePatternModel {
        UsagePatternModel {
            kind: self.kind,
            subject: ep_view(self.subject),
            object: opt_ep_view(self.object),
            site: self.site,
            file: self.file@,
        }
    }
}

pub open spec fn edges_view(v: Vec<UsagePattern>) -> Seq<UsagePatternModel> {
    Seq::new(v@.len(), |i: int| v@[i]@)
}

/// An explicit import: an alias bound to a qualified id.
#[derive(Clone, PartialEq, Eq, Debug)]
pub struct Import {
    pub alias: Vec<u8>,
    pub target: Vec<u8>,
}

#[verifier::ext_equal]
pub ghost struct ImportModel {
    pub alias: Seq<u8>,
    pub target: Seq<u8>,
}

impl View for Import {
    type V = ImportModel;

    open spec fn view(&self) -> ImportModel {
        ImportModel { alias: self.alias@, target: self.target@ }
    }
}

pub open spec fn imports_view(v: Vec<Import>) -> Seq<ImportModel> {
    Seq::new(v@.len(), |i: int| v@[i]@)
}

/// The symbol a declaration node yields, if it declares one.
pub open spec fn decl_of(t: Seq<StructuralNode>, text: Seq<u8>, file: Seq<u8>, i: int) -> Option<
    SymbolModel,
> {
    let n = t[i];
    let kind = if n.kind == NodeKind::TypeDef {
        Option::Some(SymbolKind::Type)
    } else if n.kind == NodeKind::TraitDef {
        Option::Some(SymbolKind::Trait)
    } else if n.kind == NodeKind::FunctionDef {
        Option::Some(SymbolKind::Function)
    } else {
        Option::None
    };
    match kind {
        Option::Some(k) => {
            if n.name_span is Some {
                Option::Some(
                    SymbolModel {
                        name: own_name(t, text, i),
                        local_path: path_of(t, text, i),
                        qualified_id: file + path_sep() + path_of(t, text, i),
                        kind: k,
                        file,
                        definition_span: n.span,
                    },
                )
            } else {
                Option::None
            }
        },
        Option::None => Option::None,
    }
}

pub open spec fn decls_upto(t: Seq<StructuralNode>, text: Seq<u8>, file: Seq<u8>, n: int) -> Seq<
    SymbolModel,
>
    decreases n when 0 <= n
{
    if n <= 0 {
        Seq::empty()
    } else {
        match decl_of(t, text, file, n - 1) {
            Option::Some(s) => decls_upto(t, text, file, n - 1).push(s),
            Option::None => decls_upto(t, text, file, n - 1),
        }
    }
}

/// The declarations of one file's tree, in declaration order.
pub open spec fn decls_spec(t: Seq<StructuralNode>, text: Seq<u8>, file: Seq<u8>) -> Seq<
    SymbolModel,
> {
    decls_upto(t, text, file, t.len() as int)
}

/// Collect the type, trait and function declarations of one file, in
/// declaration order, as symbols keyed by their qualified ids.
pub fn collect_declarations(tree: &StructuralTree, text: &[u8], file: &[u8]) -> (r: Vec<Symbol>)
    requires
        tree_wf(tree.nodes@, text@),
    ensures
        symbols_view(r) == decls_spec(tree.nodes@, text@, file@),
{
    let nodes = &tree.nodes;
    proof {
        assert forall|j: int| 0 <= j < nodes@.len() implies (match (#[trigger] nodes@[j]).parent {
            Option::Some(p) => p < j,
            Option::None => true,
        }) by {
            assert(node_wf(nodes@, j, text@));
        }
        assert(parents_before(nodes@));
    }
    let mut out: Vec<Symbol> = Vec::new();
    let mut i: usize = 0;
    assert(symbols_view(out) =~= decls_upto(nodes@, text@, file@, 0));
    while i < nodes.len()
        invariant
            tree_wf(nodes@, text@),
            parents_before(nodes@),
            i <= nodes@.len(),
            symbols_view(out) == decls_upto(nodes@, text@, file@, i as int),
        decreases nodes@.len() - i,
    {
        assert(node_wf(nodes@, i as int, text@));
        let n = nodes[i];
        let kind: Option<SymbolKind> = if n.kind == NodeKind::TypeDef {
            Option::Some(SymbolKind::Type)
        } else if n.kind == NodeKind::TraitDef {
            Option::Some(SymbolKind::Trait)
        } else if n.kind == NodeKind::FunctionDef {
            Option::Some(SymbolKind::Function)
        } else {
            Option::None
        };
        match (kind, n.name_span) {
            (Option::Some(k), Option::Some(sp)) => {
                let name = slice_bytes(text, sp.start, sp.end);
                let lp = exec_path_of(nodes, text, i);
                let mut qid = slice_bytes(file, 0, file.len());
                qid.push(58);
                qid.push(58);
                let mut j: usize = 0;
                while j < lp.len()
                    invariant
                        j <= lp@.len(),
                        qid@ == file@ + path_sep() + lp@.take(j as int),
                    decreases lp@.len() - j,
                {
                    qid.push(lp[j]);
                    assert(lp@.take(j + 1 as int) =~= lp@.take(j as int).push(lp@[j as int]));
                    assert(qid@ =~= file@ + path_sep() + lp@.take(j + 1 as int));
                    j = j + 1;
                }
                assert(lp@.take(lp@.len() as int) =~= lp@);
                let sym = Symbol {
                    name,
                    local_path: lp,
                    qualified_id: qid,
                    kind: k,
                    file: slice_bytes(file, 0, file.len()),
                    definition_span: n.span,
                };
                assert(decl_of(nodes@, text@, file@, i as int) == Option::Some(sym@));
                out.push(sym);
                assert(symbols_view(out) =~= decls_upto(nodes@, text@, file@, i as int).push(
                    sym@,
                ));
            },
            _ => {
                assert(decl_of(nodes@, text@, file@, i as int) is None);
            },
        }
        i = i + 1;
    }
    out
}

pub fn clone_symbol(s: &Symbol) -> (r: Symbol)
    ensures
        r@ == s@,
{
    Symbol {
        name: slice_bytes(s.name.as_slice(), 0, s.name.len()),
        local_path: slice_bytes(s.local_path.as_slice(), 0, s.local_path.len()),
        qualified_id: slice_bytes(s.qualified_id.as_slice(), 0, s.qualified_id.len()),
        kind: s.kind,
        file: slice_bytes(s.file.as_slice(), 0, s.file.len()),
        definition_span: s.definition_span,
    }
}

fn clone_import(s: &Import) -> (r: Import)
    ensures
        r@ == s@,
{
    Import {
        alias: slice_bytes(s.alias.as_slice(), 0, s.alias.len()),
        target: slice_bytes(s.target.as_slice(), 0, s.target.len()),
    }
}

/// First same-file declaration whose local path or simple name matches.
pub open spec fn find_decl(decls: Seq<SymbolModel>, name: Seq<u8>) -> Option<SymbolModel>
    decreases decls.len(),
{
    if decls.len() == 0 {
        Option::None
    } else if decls[0].local_path == name || decls[0].name == name {
        Option::Some(decls[0])
    } else {
        find_decl(decls.drop_first(), name)
    }
}

/// First import whose alias matches.
pub open spec fn find_import(imports: Seq<ImportModel>, name: Seq<u8>) -> Option<ImportModel>
    decreases imports.len(),
{
    if imports.len() == 0 {
        Option::None
    } else if imports[0].alias == name {
        Option::Some(imports[0])
    } else {
        find_import(imports.drop_first(), name)
    }
}

/// First table symbol with the given qualified id.
pub open spec fn find_qualified(table: Seq<SymbolModel>, qid: Seq<u8>) -> Option<SymbolModel>
    decreases table.len(),
{
    if table.len() == 0 {
        Option::None
    } else if table[0].qualified_id == qid {
        Option::Some(table[0])
    } else {
        find_qualified(table.drop_first(), qid)
    }
}

/// How many table symbols carry the given simple name.
pub open spec fn count_by_name(table: Seq<SymbolModel>, name: Seq<u8>) -> int
    decreases table.len(),
{
    if table.len() == 0 {
        0int
    } else {
        (if table[0].name == name {
            1int
        } else {
            0int
        }) + count_by_name(table.drop_first(), name)
    }
}

/// First table symbol with the given simple name.
pub open spec fn find_by_name(table: Seq<SymbolModel>, name: Seq<u8>) -> Option<SymbolModel>
    decreases table.len(),
{
    if table.len() == 0 {
        Option::None
    } else if table[0].name == name {
        Option::Some(table[0])
    } else {
        find_by_name(table.drop_first(), name)
    }
}

/// Resolve one raw name: same-file declarations first, then imports, then
/// a unique simple-name match in the cross-file table; otherwise the name
/// stays unresolved, as ambiguous or unknown.
pub open spec fn resolve_name(
    name: Seq<u8>,
    decls: Seq<SymbolModel>,
    imports: Seq<ImportModel>,
    table: Seq<SymbolModel>,
) -> EndPointModel {
    match find_decl(decls, name) {
        Option::Some(d) => EndPointModel::Resolved(d),
        Option::None => match find_import(imports, name) {
            Option::Some(im) => match find_qualified(table, im.target) {
                Option::Some(s) => EndPointModel::Resolved(s),
                Option::None => EndPointModel::Unresolved(name, UnresolvedReason::Unknown),
            },
            Option::None => {
                let c = count_by_name(table, name);
                if c == 1 {
                    match find_by_name(table, name) {
                        Option::Some(s) => EndPointModel::Resolved(s),
                        Option::None => EndPointModel::Unresolved(
                            name,
                            UnresolvedReason::Unknown,
                        ),
                    }
                } else if c == 0 {
                    EndPointModel::Unresolved(name, UnresolvedReason::Unknown)
                } else {
                    EndPointModel::Unresolved(name, UnresolvedReason::Ambiguous)
                }
            },
        },
    }
}

/// The resolution of one raw event.
pub open spec fn resolve_event(
    ev: RawEventModel,
    decls: Seq<SymbolModel>,
    imports: Seq<ImportModel>,
    table: Seq<SymbolModel>,
    file: Seq<u8>,
) -> UsagePatternModel {
    UsagePatternModel {
        kind: ev.kind,
        subject: resolve_name(ev.subject, decls, imports, table),
        object: match ev.object {
            Option::Some(o) => Option::Some(resolve_name(o, decls, imports, table)),
            Option::None => Option::None,
        },
        site: ev.site,
        file,
    }
}

/// The resolution of a whole event sequence, in order.
pub open spec fn resolve_spec(
    evs: Seq<RawEventModel>,
    decls: Seq<SymbolModel>,
    imports: Seq<ImportModel>,
    table: Seq<SymbolModel>,
    file: Seq<u8>,
) -> Seq<UsagePatternModel> {
    Seq::new(evs.len(), |i: int| resolve_event(evs[i], decls, imports, table, file))
}

fn exec_find_decl(decls: &Vec<Symbol>, name: &[u8]) -> (r: Option<Symbol>)
    ensures
        match r {
            Option::Some(d) => find_decl(symbols_view(*decls), name@) == Option::Some(d@),
            Option::None => find_decl(symbols_view(*decls), name@) is None,
        },
{
    let mut i: usize = 0;
    assert(symbols_view(*decls).skip(0) =~= symbols_view(*decls));
    while i < decls.len()
        invariant
            i <= decls@.len(),
            find_decl(symbols_view(*decls), name@) == find_decl(
                symbols_view(*decls).skip(i as int),
                name@,
            ),
        decreases decls@.len() - i,
    {
        let ghost rest = symbols_view(*decls).skip(i as int);
        assert(rest[0] == decls@[i as int]@);
        if bytes_eq(decls[i].local_path.as_slice(), name) || bytes_eq(
            decls[i].name.as_slice(),
            name,
        ) {
            return Option::Some(clone_symbol(&decls[i]));
        }
        assert(rest.drop_first() =~= symbols_view(*decls).skip(i + 1 as int));
        i = i + 1;
    }
    assert(symbols_view(*decls).skip(decls@.len() as int) =~= Seq::<SymbolModel>::empty());
    Option::None
}

fn exec_find_qualified(table: &Vec<Symbol>, qid: &[u8]) -> (r: Option<Symbol>)
    ensures
        match r {
            Option::Some(d) => find_qualified(symbols_view(*table), qid@) == Option::Some(d@),
            Option::None => find_qualified(symbols_view(*table), qid@) is None,
        },
{
    let mut i: usize = 0;
    assert(symbols_view(*table).skip(0) =~= symbols_view(*table));
    while i < table.len()
        invariant
            i <= table@.len(),
            find_qualified(symbols_view(*table), qid@) == find_qualified(
                symbols_view(*table).skip(i as int),
                qid@,
            ),
        decreases table@.len() - i,
    {
        let ghost rest = symbols_view(*table).skip(i as int);
        assert(rest[0] == table@[i as int]@);
        if bytes_eq(table[i].qualified_id.as_slice(), qid) {
            return Option::Some(clone_symbol(&table[i]));
        }
        assert(rest.drop_first() =~= symbols_view(*table).skip(i + 1 as int));
        i = i + 1;
    }
    assert(symbols_view(*table).skip(table@.len() as int) =~= Seq::<SymbolModel>::empty());
    Option::None
}

fn exec_find_import(imports: &Vec<Import>, name: &[u8]) -> (r: Option<Import>)
    ensures
        match r {
            Option::Some(d) => find_import(imports_view(*imports), name@) == Option::Some(d@),
            Option::None => find_import(imports_view(*imports), name@) is None,
        },
{
    let mut i: usize = 0;
    assert(imports_view(*imports).skip(0) =~= imports_view(*imports));
    while i < imports.len()
        invariant
            i <= imports@.len(),
            find_import(imports_view(*imports), name@) == find_import(
                imports_view(*imports).skip(i as int),
                name@,
            ),
        decreases imports@.len() - i,
    {
        let ghost rest = imports_view(*imports).skip(i as int);
        assert(rest[0] == imports@[i as int]@);
        if bytes_eq(imports[i].alias.as_slice(), name) {
            return Option::Some(clone_import(&imports[i]));
        }
        assert(rest.drop_first() =~= imports_view(*imports).skip(i + 1 as int));
        i = i + 1;
    }
    assert(imports_view(*imports).skip(imports@.len() as int) =~= Seq::<ImportModel>::empty());
    Option::None
}

fn exec_count_and_find(table: &Vec<Symbol>, name: &[u8]) -> (r: (usize, Option<Symbol>))
    ensures
        r.0 as int == count_by_name(symbols_view(*table), name@),
        match r.1 {
            Option::Some(d) => find_by_name(symbols_view(*table), name@) == Option::Some(d@),
            Option::None => find_by_name(symbols_view(*table), name@) is None,
        },
{
    let mut i: usize = 0;
    let mut c: usize = 0;
    let mut first: Option<Symbol> = Option::None;
    assert(symbols_view(*table).skip(0) =~= symbols_view(*table));
    while i < table.len()
        invariant
            i <= table@.len(),
            c <= i,
            c as int == count_upto(symbols_view(*table), name@, i as int),
            match first {
                Option::Some(d) => find_by_name(symbols_view(*table), name@) == Option::Some(
                    d@,
                ),
                Option::None => find_by_name(symbols_view(*table), name@) == find_by_name(
                    symbols_view(*table).skip(i as int),
                    name@,
                ),
            },
        decreases table@.len() - i,
    {
        let ghost rest = symbols_view(*table).skip(i as int);
        assert(rest[0] == table@[i as int]@);
        if bytes_eq(table[i].name.as_slice(), name) {
            c = c + 1;
            if first.is_none() {
                first = Option::Some(clone_symbol(&table[i]));
            }
        }
        proof {
            lemma_count_upto_step(symbols_view(*table), name@, i as int);
            if first is None {
                assert(rest.drop_first() =~= symbols_view(*table).skip(i + 1 as int));
            }
        }
        i = i + 1;
    }
    proof {
        lemma_count_upto_full(symbols_view(*table), name@, table@.len() as int);
        if first is None {
            assert(symbols_view(*table).skip(table@.len() as int) =~= Seq::<
                SymbolModel,
            >::empty());
        }
    }
    (c, first)
}

/// The matches for `name` among the first `n` table entries.
pub open spec fn count_upto(table: Seq<SymbolModel>, name: Seq<u8>, n: int) -> int
    decreases n when 0 <= n
{
    if n <= 0 {
        0int
    } else {
        count_upto(table, name, n - 1) + (if table[n - 1].name == name {
            1int
        } else {
            0int
        })
    }
}

proof fn lemma_count_upto_step(table: Seq<SymbolModel>, name: Seq<u8>, i: int)
    requires
        0 <= i,
    ensures
        count_upto(table, name, i + 1) == count_upto(table, name, i) + (if table[i].name == name {
            1int
        } else {
            0int
        }),
{
    reveal_with_fuel(count_upto, 2);
}

proof fn lemma_count_push(s: Seq<SymbolModel>, x: SymbolModel, name: Seq<u8>)
    ensures
        count_by_name(s.push(x), name) == count_by_name(s, name) + (if x.name == name {
            1int
        } else {
            0int
        }),
    decreases s.len(),
{
    if s.len() == 0 {
        assert(s.push(x)[0] == x);
        assert(s.push(x).drop_first() =~= Seq::<SymbolModel>::empty());
        assert(count_by_name(Seq::<SymbolModel>::empty(), name) == 0);
    } else {
        assert(s.push(x)[0] == s[0]);
        assert(s.push(x).drop_first() =~= s.drop_first().push(x));
        lemma_count_push(s.drop_first(), x, name);
    }
}

proof fn lemma_count_upto_full(table: Seq<SymbolModel>, name: Seq<u8>, n: int)
    requires
        0 <= n <= table.len(),
    ensures
        count_upto(table, name, n) == count_by_name(table.take(n), name),
        n == table.len() ==> count_upto(table, name, n) == count_by_name(table, name),
    decreases n,
{
    if n > 0 {
        lemma_count_upto_full(table, name, n - 1);
        assert(table.take(n) =~= table.take(n - 1).push(table[n - 1]));
        lemma_count_push(table.take(n - 1), table[n - 1], name);
    } else {
        assert(table.take(0) =~= Seq::<SymbolModel>::empty());
    }
    if n == table.len() {
        assert(table.take(table.len() as int) =~= table);
    }
}

fn exec_resolve_name(
    name: &[u8],
    decls: &Vec<Symbol>,
    imports: &Vec<Import>,
    table: &Vec<Symbol>,
) -> (r: EndPoint)
    ensures
        ep_view(r) == resolve_name(
            name@,
            symbols_view(*decls),
            imports_view(*imports),
            symbols_view(*table),
        ),
{
    match exec_find_decl(decls, name) {
        Option::Some(d) => EndPoint::Resolved(d),
        Option::None => match exec_find_import(imports, name) {
            Option::Some(im) => match exec_find_qualified(table, im.target.as_slice()) {
                Option::Some(s) => EndPoint::Resolved(s),
                Option::None => EndPoint::Unresolved(
                    crate::span::slice_bytes(name, 0, name.len()),
                    UnresolvedReason::Unknown,
                ),
            },
            Option::None => {
                let (c, first) = exec_count_and_find(table, name);
                if c == 1 {
                    match first {
                        Option::Some(s) => EndPoint::Resolved(s),
                        Option::None => EndPoint::Unresolved(
                            crate::span::slice_bytes(name, 0, name.len()),
                            UnresolvedReason::Unknown,
                        ),
                    }
                } else if c == 0 {
                    EndPoint::Unresolved(
                        crate::span::slice_bytes(name, 0, name.len()),
                        UnresolvedReason::Unknown,
                    )
                } else {
                    EndPoint::Unresolved(
                        crate::span::slice_bytes(name, 0, name.len()),
                        UnresolvedReason::Ambiguous,
                    )
                }
            },
        },
    }
}

/// Resolve a file's raw events against its own declarations, its imports
/// and the cross-file symbol table, in order.  The result is exactly
/// `resolve_spec`, so resolution is deterministic and independent of
/// file-processing order once the table is fixed.
pub fn resolve_events(
    events: &Vec<RawEvent>,
    decls: &Vec<Symbol>,
    imports: &Vec<Import>,
    table: &Vec<Symbol>,
    file: &[u8],
) -> (r: Vec<UsagePattern>)
    ensures
        edges_view(r) == resolve_spec(
            events_view(*events),
            symbols_view(*decls),
            imports_view(*imports),
            symbols_view(*table),
            file@,
        ),
{
    let ghost evm = events_view(*events);
    let ghost dm = symbols_view(*decls);
    let ghost im = imports_view(*imports);
    let ghost tm = symbols_view(*table);
    let mut out: Vec<UsagePattern> = Vec::new();
    let mut i: usize = 0;
    while i < events.len()
        invariant
            evm == events_view(*events),
            dm == symbols_view(*decls),
            im == imports_view(*imports),
            tm == symbols_view(*table),
            i <= evm.len(),
            out@.len() == i,
            forall|k: int|
                0 <= k < i ==> #[trigger] out@[k]@ == resolve_event(evm[k], dm, im, tm, file@),
        decreases evm.len() - i,
    {
        let ev = &events[i];
        let subject = exec_resolve_name(ev.subject.as_slice(), decls, imports, table);
        let object: Option<EndPoint> = match &ev.object {
            Option::Some(o) => Option::Some(
                exec_resolve_name(o.as_slice(), decls, imports, table),
            ),
            Option::None => Option::None,
        };
        let up = UsagePattern {
            kind: ev.kind,
            subject,
            object,
            site: ev.site,
            file: crate::span::slice_bytes(file, 0, file.len()),
        };
        assert(evm[i as int] == events@[i as int]@);
        assert(up@.file =~= file@);
        assert(up@ =~~= resolve_event(evm[i as int], dm, im, tm, file@));
        out.push(up);
        i = i + 1;
    }
    assert(edges_view(out) =~= resolve_spec(evm, dm, im, tm, file@));
    out
}


/// Some table entry already carries this qualified id.
pub open spec fn has_symbol(gs: Seq<SymbolModel>, qid: Seq<u8>) -> bool {
    exists|k: int| 0 <= k < gs.len() && (#[trigger] gs[k]).qualified_id == qid
}

/// Register a symbol unless its qualified id is already taken: the first
/// occurrence wins.
pub open spec fn add_symbol(gs: Seq<SymbolModel>, s: SymbolModel) -> Seq<SymbolModel> {
    if has_symbol(gs, s.qualified_id) {
        gs
    } else {
        gs.push(s)
    }
}

/// Register a run of symbols in order, first occurrence winning.
pub open spec fn add_symbols(gs: Seq<SymbolModel>, ds: Seq<SymbolModel>, n: int) -> Seq<
    SymbolModel,
>
    decreases n when 0 <= n
{
    if n <= 0 {
        gs
    } else {
        add_symbol(add_symbols(gs, ds, n - 1), ds[n - 1])
    }
}

pub fn exec_has_symbol(table: &Vec<Symbol>, qid: &[u8]) -> (r: bool)
    ensures
        r == has_symbol(symbols_view(*table), qid@),
{
    let mut i: usize = 0;
    while i < table.len()
        invariant
            i <= table@.len(),
            forall|k: int|
                0 <= k < i ==> (#[trigger] symbols_view(*table)[k]).qualified_id != qid@,
        decreases table@.len() - i,
    {
        if bytes_eq(table[i].qualified_id.as_slice(), qid) {
            assert(symbols_view(*table)[i as int].qualified_id == qid@);
            return true;
        }
        assert(symbols_view(*table)[i as int].qualified_id != qid@);
        i = i + 1;
    }
    false
}

/// Append the declarations to the cross-file symbol table, keeping the
/// first symbol registered under each qualified id.
pub fn extend_table(table: &mut Vec<Symbol>, decls: &Vec<Symbol>)
    ensures
        symbols_view(*final(table)) == add_symbols(
            symbols_view(*old(table)),
            symbols_view(*decls),
            decls@.len() as int,
        ),
{
    let ghost ds = symbols_view(*decls);
    let ghost t0 = symbols_view(*old(table));
    let mut i: usize = 0;
    while i < decls.len()
        invariant
            ds == symbols_view(*decls),
            i <= ds.len(),
            symbols_view(*table) == add_symbols(t0, ds, i as int),
        decreases ds.len() - i,
    {
        let s = &decls[i];
        assert(ds[i as int] == s@);
        if !exec_has_symbol(table, s.qualified_id.as_slice()) {
            let c = clone_symbol(s);
            table.push(c);
            assert(symbols_view(*table) =~= add_symbols(t0, ds, i as int).push(s@));
        }
        assert(symbols_view(*table) =~= add_symbols(t0, ds, i + 1 as int));
        i = i + 1;
    }
}

} // verus!
