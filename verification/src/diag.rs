//! Diagnostics reported alongside the graph: parse recoveries, unresolved
//! references and composition cycles.

use vstd::prelude::*;

verus! {

#[derive(Clone, Copy, PartialEq, Eq, Structural, Debug)]
pub enum Severity {
    Error,
    Warning,
}

#[derive(Clone, Copy, PartialEq, Eq, Structural, Debug)]
pub enum DiagCode {
    ParseError,
    Ambiguous,
    Unknown,
    CompositionCycle,
}

/// One reportable occurrence, ordered as discovered.
#[derive(Clone, PartialEq, Eq, Debug)]
pub struct Diagnostic {
    pub severity: Severity,
    pub code: DiagCode,
    pub file: Vec<u8>,
    /// Byte position in the file the diagnostic points at.
    pub position: usize,
}

#[verifier::ext_equal]
pub ghost struct DiagModel {
    pub severity: Severity,
    pub code: DiagCode,
    pub file: Seq<u8>,
    pub position: int,
}

impl View for Diagnostic {
    type V = DiagModel;

    open spec fn view(&self) -> DiagModel {
        DiagModel {
            severity: self.severity,
            code: self.code,
            file: self.file@,
            position: self.position as int,
        }
    }
}

pub open spec fn diags_view(v: Vec<Diagnostic>) -> Seq<DiagModel> {
    Seq::new(v@.len(), |i: int| v@[i]@)
}

} // verus!
