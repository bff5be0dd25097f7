//! Findings: the renderer-neutral model and the editor-facing diagnostic
//! every rule emits.
use vstd::prelude::*;

use crate::text::to_owned;
pub use crate::types::{DiagnosticTags, FixKind, Range, Severity};

verus! {

/// A byte-offset span in a source file.
#[derive(Clone, Copy, Debug, Default, PartialEq, Eq, Structural)]
pub struct ByteRange {
    pub start: usize,
    pub end: usize,
}

impl ByteRange {
    pub fn new(start: usize, end: usize) -> (r: Self)
        ensures
            r.start == start,
            r.end == end,
    {
        ByteRange { start, end }
    }
}

/// The stable `SQLA-<SEV><CLASS><NN>` code plus its category name.
#[derive(Clone, Debug)]
pub struct DiagnosticCode {
    pub code: String,
    pub category: String,
}

impl DiagnosticCode {
    pub fn new(code: &str, category: &str) -> (r: Self)
        ensures
            r.code@ == code@,
            r.category@ == category@,
    {
        DiagnosticCode { code: to_owned(code), category: to_owned(category) }
    }
}

/// The severities the editor protocol distinguishes.
#[derive(Clone, Copy, Debug, PartialEq, Eq, Structural)]
pub enum LspSeverity {
    Error,
    Warning,
    Information,
    Hint,
}

/// The tags the editor protocol knows.
#[derive(Clone, Copy, Debug, PartialEq, Eq, Structural)]
pub enum LspTag {
    Deprecated,
    Unnecessary,
}

impl Severity {
    /// The protocol severity with the same meaning.
    pub fn to_lsp(self) -> (r: LspSeverity)
        ensures
            self == Severity::Error ==> r == LspSeverity::Error,
            self == Severity::Warning ==> r == LspSeverity::Warning,
            self == Severity::Info ==> r == LspSeverity::Information,
            self == Severity::Hint ==> r == LspSeverity::Hint,
    {
        match self {
            Severity::Error => LspSeverity::Error,
            Severity::Warning => LspSeverity::Warning,
            Severity::Info => LspSeverity::Information,
            Severity::Hint => LspSeverity::Hint,
        }
    }
}

/// The protocol tags for a set of flags: `fixable` has none.
pub open spec fn tags_lsp(t: DiagnosticTags) -> Seq<LspTag> {
    (if t.deprecated { seq![LspTag::Deprecated] } else { Seq::empty() }) + (if t.unnecessary {
        seq![LspTag::Unnecessary]
    } else {
        Seq::empty()
    })
}

impl DiagnosticTags {
    /// Convert to the protocol tag list.
    pub fn to_lsp(self) -> (r: Vec<LspTag>)
        ensures
            r@ == tags_lsp(self),
    {
        let mut tags: Vec<LspTag> = Vec::new();
        if self.deprecated {
            tags.push(LspTag::Deprecated);
        }
        if self.unnecessary {
            tags.push(LspTag::Unnecessary);
        }
        assert(tags@ =~= tags_lsp(self));
        tags
    }
}

/// A file URI plus a byte-offset span pinning a finding to its source.
#[derive(Clone, Debug)]
pub struct Location {
    pub uri: String,
    pub range: ByteRange,
}

/// Structured detail attached to a finding.
#[derive(Clone, Debug)]
pub enum Advice {
    /// A source excerpt with a caret span marking the exact characters.
    CodeFrame { source: ByteRange, caret: ByteRange },
    /// A plain explanatory remark.
    Note(String),
    /// A before/after pair showing the change a fix would make.
    Diff { before: String, after: String },
    /// A recommended next step phrased for the developer.
    Suggestion(String),
}

/// A single finding — the unified model every renderer consumes.
#[derive(Clone, Debug)]
pub struct Diagnostic {
    pub code: DiagnosticCode,
    pub severity: Severity,
    pub message: String,
    pub location: Location,
    pub advices: Vec<Advice>,
    pub tags: DiagnosticTags,
}

/// A diagnostic as the editor receives it: span, severity, code, source,
/// message, and whether it is struck through as deprecated.
#[derive(Clone, Debug)]
pub struct LspDiagnostic {
    pub range: Range,
    pub severity: Severity,
    pub code: String,
    pub source: String,
    pub message: String,
    pub deprecated: bool,
}

/// What an `LspDiagnostic` holds, strings taken as characters.
pub struct DiagView {
    pub range: Range,
    pub severity: Severity,
    pub code: Seq<char>,
    pub source: Seq<char>,
    pub message: Seq<char>,
    pub deprecated: bool,
}

impl View for LspDiagnostic {
    type V = DiagView;

    open spec fn view(&self) -> DiagView {
        DiagView {
            range: self.range,
            severity: self.severity,
            code: self.code@,
            source: self.source@,
            message: self.message@,
            deprecated: self.deprecated,
        }
    }
}

/// The views of a list of diagnostics.
pub open spec fn dviews(v: Seq<LspDiagnostic>) -> Seq<DiagView> {
    v.map_values(|d: LspDiagnostic| d@)
}

/// A finding of this server: source `sqlalchemy-lsp`, not deprecated.
pub open spec fn dv(code: Seq<char>, severity: Severity, message: Seq<char>, range: Range) -> DiagView {
    DiagView { range, severity, code, source: "sqlalchemy-lsp"@, message, deprecated: false }
}

/// A deprecated finding of this server.
pub open spec fn dv_deprecated(
    code: Seq<char>,
    severity: Severity,
    message: Seq<char>,
    range: Range,
) -> DiagView {
    DiagView { range, severity, code, source: "sqlalchemy-lsp"@, message, deprecated: true }
}

/// Build a finding of this server.
pub fn make_diag(code: &str, severity: Severity, message: String, range: Range) -> (d: LspDiagnostic)
    ensures
        d@ == dv(code@, severity, message@, range),
{
    LspDiagnostic {
        range,
        severity,
        code: to_owned(code),
        source: to_owned("sqlalchemy-lsp"),
        message,
        deprecated: false,
    }
}

/// Build a deprecated finding of this server.
pub fn make_diag_deprecated(code: &str, severity: Severity, message: String, range: Range) -> (d:
    LspDiagnostic)
    ensures
        d@ == dv_deprecated(code@, severity, message@, range),
{
    LspDiagnostic {
        range,
        severity,
        code: to_owned(code),
        source: to_owned("sqlalchemy-lsp"),
        message,
        deprecated: true,
    }
}

/// An exact copy of a diagnostic.
pub fn copy_diag(d: &LspDiagnostic) -> (r: LspDiagnostic)
    ensures
        r == *d,
{
    LspDiagnostic {
        range: d.range,
        severity: d.severity,
        code: d.code.clone(),
        source: d.source.clone(),
        message: d.message.clone(),
        deprecated: d.deprecated,
    }
}

/// An exact copy of a list of diagnostics.
pub fn copy_diags(v: &Vec<LspDiagnostic>) -> (r: Vec<LspDiagnostic>)
    ensures
        r@ == v@,
{
    let mut out: Vec<LspDiagnostic> = Vec::new();
    let mut i: usize = 0;
    while i < v.len()
        invariant
            i <= v@.len(),
            out@ == v@.take(i as int),
        decreases v@.len() - i,
    {
        out.push(copy_diag(&v[i]));
        i = i + 1;
        assert(out@ =~= v@.take(i as int));
    }
    assert(v@.take(v@.len() as int) =~= v@);
    out
}

pub proof fn lemma_dviews_push(v: Seq<LspDiagnostic>, d: LspDiagnostic)
    ensures
        dviews(v.push(d)) == dviews(v).push(d@),
{
    assert(dviews(v.push(d)) =~= dviews(v).push(d@));
}

} // verus!
