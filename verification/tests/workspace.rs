use sqlalchemy_lsp::alembic::{DownRevision, MigrationFile};
use sqlalchemy_lsp::alembic_diag::compute_head_set;
use sqlalchemy_lsp::config::{apply_noqa_to_diagnostics, filter_diagnostics, DiagnosticsConfig};
use sqlalchemy_lsp::diagnostics::make_diag;
use sqlalchemy_lsp::parse::parse_python;
use sqlalchemy_lsp::schema::run_schema;
use sqlalchemy_lsp::stats::compute_stats;
use sqlalchemy_lsp::state::WorkspaceState;
use sqlalchemy_lsp::strmap::StrMap;
use sqlalchemy_lsp::types::{Range, Severity};
use sqlalchemy_lsp::workspace::{index_workspace, tree_ok_exec};

const MODELS: &str = "from sqlalchemy.orm import DeclarativeBase, Mapped, mapped_column\n\nclass Base(DeclarativeBase):\n    pass\n\nclass User(Base):\n    __tablename__ = \"users\"\n    id: Mapped[int] = mapped_column(primary_key=True)\n";

fn line(l: u32) -> Range {
    Range { start_line: l, start_col: 0, end_line: l, end_col: 1 }
}

#[test]
fn parse_python_gives_the_module_tree() {
    let tree = parse_python("x = 1\n").unwrap();
    assert_eq!(tree.kind, "module");
    assert_eq!(tree.text, "x = 1\n");
    assert_eq!(tree.children.len(), 1);
    assert_eq!(tree.children[0].kind, "expression_statement");
    assert!(tree_ok_exec(&tree));
}

#[test]
fn index_workspace_indexes_models_and_skips_plain_files() {
    let files = vec![
        ("file:///app/models.py".to_string(), MODELS.to_string()),
        ("file:///app/util.py".to_string(), "def f():\n    return 1\n".to_string()),
    ];
    let state = index_workspace(&files);
    let models = state.file_models.get("file:///app/models.py").unwrap();
    assert_eq!(models.len(), 1);
    assert_eq!(models[0].name, "User");
    assert_eq!(models[0].table_name.as_deref(), Some("users"));
    assert!(state.file_models.get("file:///app/util.py").is_none());
    assert!(state.file_sources.get("file:///app/models.py").is_some());
    assert!(state.diagnostics.get("file:///app/models.py").is_some());
    let (code, text) = run_schema(&state);
    assert_eq!(code, 0);
    assert!(text.contains("User (users)"), "{text}");
}

fn migration(rev: &str, down: DownRevision) -> MigrationFile {
    MigrationFile {
        revision: Some(rev.to_string()),
        down_revision: down,
        message: None,
        revision_range: None,
        down_revision_range: None,
        op_calls: vec![],
    }
}

#[test]
fn a_revision_its_own_file_names_as_parent_is_still_a_head() {
    let mut state = WorkspaceState::new();
    state.update_migration(&"file:///m/a.py".to_string(), migration("a1", DownRevision::Single("a1".to_string())));
    assert_eq!(compute_head_set(&state), vec!["a1".to_string()]);
}

#[test]
fn a_revision_another_file_names_as_parent_is_no_head() {
    let mut state = WorkspaceState::new();
    state.update_migration(&"file:///m/a.py".to_string(), migration("a1", DownRevision::Root));
    state.update_migration(&"file:///m/b.py".to_string(), migration("b2", DownRevision::Single("a1".to_string())));
    assert_eq!(compute_head_set(&state), vec!["b2".to_string()]);
}

#[test]
fn file_marker_keeps_foreign_codes() {
    let d1 = make_diag("SQLA-W303", Severity::Warning, "m".to_string(), line(0));
    let d2 = make_diag("E501", Severity::Warning, "m".to_string(), line(0));
    let kept = apply_noqa_to_diagnostics(vec![d1, d2], "x = 1\n# noqa: file\n");
    assert_eq!(kept.len(), 1);
    assert_eq!(kept[0].code, "E501");
}

#[test]
fn line_marker_suppresses_on_its_line_only() {
    let d1 = make_diag("SQLA-W303", Severity::Warning, "m".to_string(), line(0));
    let d2 = make_diag("SQLA-W303", Severity::Warning, "m".to_string(), line(1));
    let kept = apply_noqa_to_diagnostics(vec![d1, d2], "x = 1  # noqa\ny = 2\n");
    assert_eq!(kept.len(), 1);
    assert_eq!(kept[0].range.start_line, 1);
}

#[test]
fn severity_override_is_applied() {
    let mut severity = StrMap::new();
    severity.insert("SQLA-W303".to_string(), "error".to_string());
    severity.insert("SQLA-W402".to_string(), "bogus".to_string());
    let cfg = DiagnosticsConfig { select: vec!["recommended".to_string()], ignore: vec!["SQLA-H406".to_string()], severity };
    let diags = vec![
        make_diag("SQLA-W303", Severity::Warning, "m".to_string(), line(0)),
        make_diag("SQLA-W402", Severity::Warning, "m".to_string(), line(1)),
        make_diag("SQLA-H406", Severity::Hint, "m".to_string(), line(2)),
    ];
    let out = filter_diagnostics(diags, &cfg);
    assert_eq!(out.len(), 2);
    assert_eq!(out[0].severity, Severity::Error);
    assert_eq!(out[1].severity, Severity::Warning);
}

#[test]
fn stats_count_heads_that_no_other_migration_names() {
    let mut state = WorkspaceState::new();
    state.update_migration(&"file:///m/a.py".to_string(), migration("a1", DownRevision::Single("a1".to_string())));
    assert_eq!(compute_stats(&state).migration_heads, 1);
    state.update_migration(&"file:///m/b.py".to_string(), migration("b2", DownRevision::Single("a1".to_string())));
    assert_eq!(compute_stats(&state).migration_heads, 1);
}
