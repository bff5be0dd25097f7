use sqlalchemy_lsp::diagnostics::{Advice, ByteRange, Diagnostic, DiagnosticCode, Location, LspSeverity, LspTag};
use sqlalchemy_lsp::types::{DiagnosticTags, FixKind, Severity};

#[test]
fn diagnostic_code_new() {
    let c = DiagnosticCode::new("SQLA-E101", "correctness");
    assert_eq!(c.code, "SQLA-E101");
    assert_eq!(c.category, "correctness");
}

#[test]
fn diagnostic_tags_is_empty() {
    assert!(DiagnosticTags::default().is_empty());
    assert!(!DiagnosticTags { fixable: true, ..Default::default() }.is_empty());
    assert!(!DiagnosticTags { deprecated: true, ..Default::default() }.is_empty());
    assert!(!DiagnosticTags { unnecessary: true, ..Default::default() }.is_empty());
}

#[test]
fn fix_kind_default_is_none() {
    assert_eq!(FixKind::default(), FixKind::NoFix);
}

fn code(c: &str) -> DiagnosticCode {
    DiagnosticCode::new(c, "correctness")
}

fn loc() -> Location {
    Location { uri: "file:///tmp/models.py".to_string(), range: ByteRange::new(10, 25) }
}

#[test]
fn diagnostic_tags_to_lsp_mapping() {
    let tags = DiagnosticTags { deprecated: true, unnecessary: true, ..Default::default() };
    let lsp = tags.to_lsp();
    assert!(lsp.contains(&LspTag::Deprecated));
    assert!(lsp.contains(&LspTag::Unnecessary));
    let fixable_only = DiagnosticTags { fixable: true, ..Default::default() };
    assert!(fixable_only.to_lsp().is_empty(), "fixable has no LSP DiagnosticTag");
}

#[test]
fn severity_to_lsp() {
    assert_eq!(Severity::Error.to_lsp(), LspSeverity::Error);
    assert_eq!(Severity::Warning.to_lsp(), LspSeverity::Warning);
    assert_eq!(Severity::Info.to_lsp(), LspSeverity::Information);
    assert_eq!(Severity::Hint.to_lsp(), LspSeverity::Hint);
}

#[test]
fn diagnostic_construction() {
    let d = Diagnostic {
        code: code("SQLA-W101"),
        severity: Severity::Warning,
        message: "missing __tablename__".to_string(),
        location: loc(),
        advices: vec![Advice::Note("Add a __tablename__ attribute.".to_string())],
        tags: DiagnosticTags { fixable: true, ..Default::default() },
    };
    assert_eq!(d.severity, Severity::Warning);
    assert!(d.tags.fixable);
    assert_eq!(d.advices.len(), 1);
}
