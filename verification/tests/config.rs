use sqlalchemy_lsp::config::{code_matches_class_token, Config, DiagnosticsConfig, NoqaMarker};

#[test]
fn class_token_matches_same_class() {
    assert!(code_matches_class_token("SQLA-W303", "SQLA-3xx"));
    assert!(code_matches_class_token("SQLA-H416", "SQLA-4xx"));
    assert!(code_matches_class_token("SQLA-I207", "SQLA-2xx"));
}

#[test]
fn class_token_rejects_different_class() {
    assert!(!code_matches_class_token("SQLA-W303", "SQLA-4xx"));
    assert!(!code_matches_class_token("SQLA-H416", "SQLA-3xx"));
}

#[test]
fn class_token_rejects_severity_tokens() {
    assert!(!code_matches_class_token("SQLA-W303", "SQLA-W3xx"));
    assert!(!code_matches_class_token("SQLA-E301", "SQLA-E3xx"));
    assert!(!code_matches_class_token("SQLA-W303", "SQLA-Wxx"));
}

#[test]
fn noqa_bare() {
    assert!(matches!(NoqaMarker::parse("x = 1  # noqa"), Some(NoqaMarker::Bare)));
}

#[test]
fn noqa_file() {
    assert!(matches!(NoqaMarker::parse("# noqa: file"), Some(NoqaMarker::File)));
}

#[test]
fn noqa_single_code() {
    match NoqaMarker::parse("x = 1  # noqa: SQLA-W303") {
        Some(NoqaMarker::Codes(c)) => assert_eq!(c, vec!["SQLA-W303".to_string()]),
        other => panic!("unexpected {:?}", other),
    }
}

#[test]
fn noqa_multiple_codes() {
    let m = NoqaMarker::parse("x = 1  # noqa: SQLA-W303, SQLA-W402").unwrap();
    match m {
        NoqaMarker::Codes(c) => {
            assert_eq!(c, vec!["SQLA-W303".to_string(), "SQLA-W402".to_string()])
        }
        other => panic!("unexpected {:?}", other),
    }
}

#[test]
fn noqa_bare_suppresses_sqla_only() {
    assert!(NoqaMarker::Bare.suppresses("SQLA-W303"));
    assert!(!NoqaMarker::Bare.suppresses("E501"), "foreign namespace not suppressed");
}

#[test]
fn noqa_codes_suppresses_only_listed() {
    let m = NoqaMarker::Codes(vec!["SQLA-W303".to_string()]);
    assert!(m.suppresses("SQLA-W303"));
    assert!(!m.suppresses("SQLA-W402"));
    assert!(!m.suppresses("E501"));
}

#[test]
fn noqa_absent_returns_none() {
    assert!(NoqaMarker::parse("x = 1  # a normal comment").is_none());
    assert!(NoqaMarker::parse("x = 1").is_none());
}

#[test]
fn merge_scalar_overlay_wins() {
    let base = Config { target_dialect: Some("sqlite".to_string()), ..Default::default() };
    let overlay = Config { target_dialect: Some("postgresql".to_string()), ..Default::default() };
    let merged = base.merge(overlay);
    assert_eq!(merged.target_dialect.as_deref(), Some("postgresql"));
}

#[test]
fn merge_ignore_accumulates() {
    let base = Config {
        diagnostics: DiagnosticsConfig {
            ignore: vec!["SQLA-H205".to_string()],
            ..Default::default()
        },
        ..Default::default()
    };
    let overlay = Config {
        diagnostics: DiagnosticsConfig {
            ignore: vec!["SQLA-W303".to_string()],
            ..Default::default()
        },
        ..Default::default()
    };
    let merged = base.merge(overlay);
    assert_eq!(merged.diagnostics.ignore.len(), 2);
}
