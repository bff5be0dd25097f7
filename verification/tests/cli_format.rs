use sqlalchemy_lsp::format::{Finding, Reporter};
use sqlalchemy_lsp::report::render_text;
use sqlalchemy_lsp::types::{FixKind, Severity};

fn sample() -> Finding {
    Finding {
        rel_path: "models/post.py".to_string(),
        code: "SQLA-W303".to_string(),
        message: "FK type mismatch: `author_id` is Mapped[str] but `users.id` is Integer".to_string(),
        severity: Severity::Warning,
        line: 14,
        col: 5,
        end_line: 14,
        end_col: 14,
        fix_kind: FixKind::NoFix,
        source_line: Some("    author_id: Mapped[str] = mapped_column(ForeignKey(\"users.id\"))".to_string()),
    }
}

fn with_fix(kind: FixKind) -> Finding {
    let mut f = sample();
    f.fix_kind = kind;
    f
}

fn render_to_string(findings: &[Finding], reporter: Reporter) -> String {
    render_text(findings, reporter, 42, None, false).unwrap_or_default()
}

#[test]
fn req_cli_08_concise_line_format() {
    let out = render_to_string(&[sample()], Reporter::Concise);
    assert!(out.contains("models/post.py:14:5: SQLA-W303"), "concise line: {out}");
}

#[test]
fn req_cli_09_summary_clean() {
    let out = render_to_string(&[], Reporter::Concise);
    assert_eq!(out.trim(), "All checks passed! (checked 42 files)");
}

#[test]
fn req_cli_09_summary_with_findings() {
    let out = render_to_string(&[sample()], Reporter::Concise);
    assert!(out.contains("Found 1 problem"), "summary: {out}");
    assert!(out.contains("1 warnings"), "severity: {out}");
    assert!(out.contains("checked 42 files"), "files: {out}");
}

#[test]
fn req_cli_09_summary_fixable_hints() {
    let findings = vec![with_fix(FixKind::Safe), with_fix(FixKind::Unsafe)];
    let out = render_to_string(&findings, Reporter::Concise);
    assert!(out.contains("[*] 1 fixable with the `--fix` option."), "safe hint: {out}");
    assert!(out.contains("[*] 1 fixable with `--fix --unsafe`."), "unsafe hint: {out}");
}

#[test]
fn req_cli_09_machine_formats_no_summary() {
    let out = render_to_string(&[sample()], Reporter::Json);
    assert!(!out.contains("Found"), "json no summary: {out}");
    let out = render_to_string(&[sample()], Reporter::Github);
    assert!(!out.contains("Found"), "github no summary: {out}");
}

#[test]
fn machine_text_reporters_print_no_summary_phrase() {
    let mut fixable = sample();
    fixable.fix_kind = FixKind::Safe;
    fixable.message = "a <b> & \"c\"".to_string();
    for reporter in [Reporter::Github, Reporter::Junit] {
        for use_color in [false, true] {
            let out = render_text(&[sample(), fixable.clone()], reporter, 7, None, use_color).unwrap();
            for phrase in ["Found", "All checks passed", "fixable with"] {
                assert!(!out.contains(phrase), "{phrase}: {out}");
            }
        }
    }
    let empty = render_text(&[], Reporter::Junit, 0, None, false).unwrap();
    assert!(!empty.contains("All checks passed"), "{empty}");
    let human = render_text(&[], Reporter::Concise, 0, None, false).unwrap();
    assert!(human.contains("All checks passed"), "{human}");
}

#[test]
fn req_cli_07_full_reporter() {
    let out = render_to_string(&[sample()], Reporter::Full);
    assert!(out.contains("SQLA-W303: FK type mismatch"), "full header: {out}");
    assert!(out.contains("--> models/post.py:14:5"), "full location: {out}");
    assert!(out.contains("# noqa: SQLA-W303"), "full note: {out}");
}

#[test]
fn req_cli_07_grouped_reporter() {
    let out = render_to_string(&[sample()], Reporter::Grouped);
    assert!(out.contains("models/post.py"), "file header: {out}");
    assert!(out.contains("  14:5: SQLA-W303"), "indented finding: {out}");
}

#[test]
fn req_cli_07_github_reporter() {
    let out = render_to_string(&[sample()], Reporter::Github);
    assert!(out.starts_with("::warning title=sqlalchemy-lsp (SQLA-W303)"), "github: {out}");
    assert!(out.contains("file=models/post.py,line=14,col=5"), "github loc: {out}");
}

#[test]
fn req_cli_07_junit_reporter() {
    let out = render_to_string(&[sample()], Reporter::Junit);
    assert!(out.contains(r#"<?xml version="1.0""#), "xml header: {out}");
    assert!(out.contains("<testsuite"), "testsuite: {out}");
    assert!(out.contains("<failure"), "failure: {out}");
}

#[test]
fn req_cli_07_pylint_reporter() {
    let out = render_to_string(&[sample()], Reporter::Pylint);
    assert!(out.contains("models/post.py:14: [SQLA-W303]"), "pylint: {out}");
}

#[test]
fn json_reporters_have_no_text_rendering() {
    assert!(render_text(&[sample()], Reporter::Json, 1, None, false).is_none());
    assert!(render_text(&[sample()], Reporter::JsonLines, 1, None, false).is_none());
    assert!(render_text(&[sample()], Reporter::Gitlab, 1, None, false).is_none());
}
