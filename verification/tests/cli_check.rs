use sqlalchemy_lsp::check::{apply_filter, is_valid_filter_token, matches_filter, noqa_suppresses};
use sqlalchemy_lsp::cli::{check_exit_code, validate_check_args, CheckArgs, UsageError};
use sqlalchemy_lsp::format::{Finding, Reporter};
use sqlalchemy_lsp::types::{FixKind, Severity};

#[test]
fn req_cli_04_unknown_token_rejected() {
    assert!(!is_valid_filter_token("SQLA-NOPE"));
    assert!(!is_valid_filter_token("not-a-code"));
    assert!(is_valid_filter_token("all"));
    assert!(is_valid_filter_token("SQLA-3xx"));
    assert!(is_valid_filter_token("SQLA-W303"));
}

#[test]
fn req_cli_05_noqa_specific_code() {
    assert!(noqa_suppresses("    x = 1  # noqa: SQLA-W303", "SQLA-W303"));
    assert!(!noqa_suppresses("    x = 1  # noqa: SQLA-W303", "SQLA-W402"));
}

#[test]
fn req_cli_05_bare_noqa() {
    assert!(noqa_suppresses("    x = 1  # noqa", "SQLA-W303"));
    assert!(noqa_suppresses("    x = 1  # noqa", "SQLA-W999"));
}

#[test]
fn req_cli_05_noqa_multiple_codes() {
    assert!(noqa_suppresses("    x = 1  # noqa: SQLA-W303, SQLA-W402", "SQLA-W402"));
}

fn args(exit_zero: bool) -> CheckArgs {
    CheckArgs {
        paths: vec![],
        select: vec![],
        ignore: vec![],
        reporter: Reporter::Concise,
        fix: false,
        apply_unsafe: false,
        exit_zero,
    }
}

#[test]
fn req_cli_10_exit_zero_forced() {
    let args = args(true);
    assert!(args.exit_zero);
    assert_eq!(check_exit_code(args.exit_zero, 0), 0);
    assert_eq!(check_exit_code(args.exit_zero, 3), 0);
}

#[test]
fn exit_code_one_when_findings_remain() {
    assert_eq!(check_exit_code(false, 0), 0);
    assert_eq!(check_exit_code(false, 2), 1);
}

#[test]
fn unsafe_without_fix_is_a_usage_error() {
    let mut a = args(false);
    a.apply_unsafe = true;
    assert_eq!(validate_check_args(&a), Err(UsageError::UnsafeWithoutFix));
    a.fix = true;
    assert_eq!(validate_check_args(&a), Ok(()));
}

#[test]
fn first_unknown_token_is_reported() {
    let mut a = args(false);
    a.select = vec!["SQLA-3xx".to_string(), "bogus".to_string()];
    a.ignore = vec!["nope".to_string()];
    assert_eq!(validate_check_args(&a), Err(UsageError::UnknownToken("bogus".to_string())));
    a.select = vec!["all".to_string()];
    assert_eq!(validate_check_args(&a), Err(UsageError::UnknownToken("nope".to_string())));
    a.ignore = vec!["SQLA-W303".to_string()];
    assert_eq!(validate_check_args(&a), Ok(()));
}

fn finding(code: &str) -> Finding {
    Finding {
        rel_path: "x.py".to_string(),
        code: code.to_string(),
        message: String::new(),
        severity: Severity::Warning,
        line: 1,
        col: 1,
        end_line: 1,
        end_col: 5,
        fix_kind: FixKind::NoFix,
        source_line: None,
    }
}

#[test]
fn req_cli_04_select_specific_code() {
    let mut findings = vec![finding("SQLA-W303"), finding("SQLA-W402")];
    apply_filter(&mut findings, &vec!["SQLA-W303".to_string()], &vec![]);
    assert_eq!(findings.len(), 1);
    assert_eq!(findings[0].code, "SQLA-W303");
}

#[test]
fn req_cli_04_class_token() {
    let mut findings = vec![finding("SQLA-W303"), finding("SQLA-W402"), finding("SQLA-W101")];
    apply_filter(&mut findings, &vec!["SQLA-3xx".to_string()], &vec![]);
    assert_eq!(findings.len(), 1);
    assert_eq!(findings[0].code, "SQLA-W303");
}

#[test]
fn req_cli_04_ignore_class_token() {
    let mut findings = vec![finding("SQLA-W303"), finding("SQLA-W402")];
    apply_filter(&mut findings, &vec![], &vec!["SQLA-4xx".to_string()]);
    assert_eq!(findings.len(), 1);
    assert_eq!(findings[0].code, "SQLA-W303");
}

#[test]
fn req_cli_04_select_all() {
    let mut findings = vec![finding("SQLA-W303"), finding("SQLA-W402")];
    apply_filter(&mut findings, &vec!["all".to_string()], &vec![]);
    assert_eq!(findings.len(), 2);
}

#[test]
fn severity_class_token_from_the_readme_is_accepted() {
    assert!(is_valid_filter_token("SQLA-E3xx"));
    assert!(is_valid_filter_token("SQLA-H4xx"));
    assert!(!is_valid_filter_token("SQLA-X3xx"));
    assert!(!is_valid_filter_token("SQLA-Exxx"));
}

#[test]
fn severity_class_token_matches_letter_and_class() {
    assert!(matches_filter("SQLA-E301", "SQLA-E3xx"));
    assert!(!matches_filter("SQLA-W303", "SQLA-E3xx"));
    assert!(!matches_filter("SQLA-E401", "SQLA-E3xx"));
    let mut findings = vec![finding("SQLA-E301"), finding("SQLA-W303"), finding("SQLA-E401")];
    apply_filter(&mut findings, &vec!["SQLA-E3xx".to_string()], &vec![]);
    assert_eq!(findings.len(), 1);
    assert_eq!(findings[0].code, "SQLA-E301");
}

#[test]
fn noqa_followed_by_another_comment_is_no_marker() {
    assert!(!noqa_suppresses("x  # noqa # why", "SQLA-W303"));
}

#[test]
fn bare_noqa_leaves_foreign_codes() {
    assert!(!noqa_suppresses("x = 1  # noqa", "E501"));
    assert!(noqa_suppresses("x = 1  # noqa: E501", "E501"));
}
