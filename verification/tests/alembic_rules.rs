#![allow(unused_mut)]
use sqlalchemy_lsp::alembic::{DownRevision, MigrationFile, OpCall, TableRef};
use sqlalchemy_lsp::alembic_diag::check_migration;
use sqlalchemy_lsp::diagnostics::LspDiagnostic;
use sqlalchemy_lsp::migration::extract_migration;
use sqlalchemy_lsp::parse::parse_python;
use sqlalchemy_lsp::state::WorkspaceState;
use sqlalchemy_lsp::strmap::StrMap;
use sqlalchemy_lsp::types::{Model, Range as MRange};

fn def_range() -> MRange {
    MRange { start_line: 0, start_col: 0, end_line: 0, end_col: 10 }
}

fn dr(line: u32, start: u32, end: u32) -> MRange {
    MRange { start_line: line, start_col: start, end_line: line, end_col: end }
}

fn code(d: &LspDiagnostic) -> &str {
    d.code.as_str()
}

fn mf_base(revision: &str, down: DownRevision) -> MigrationFile {
    MigrationFile {
        revision: Some(revision.to_string()),
        down_revision: down,
        message: None,
        revision_range: Some(def_range()),
        down_revision_range: Some(def_range()),
        op_calls: vec![],
    }
}

fn bare_model(name: &str, table: &str) -> Model {
    Model {
        name: name.to_string(),
        table_name: Some(table.to_string()),
        bases: vec![],
        columns: StrMap::new(),
        relationships: StrMap::new(),
        table_args: vec![],
        duplicate_columns: vec![],
        docstring: None,
        name_range: def_range(),
        full_range: def_range(),
    }
}

fn op_call(operation: &str, table: Option<&str>) -> OpCall {
    OpCall {
        operation: operation.to_string(),
        full_range: def_range(),
        table_name: table.map(|t| TableRef { name: t.to_string(), range: def_range() }),
        column_name: None,
        null_constraint_name_range: None,
    }
}

fn constraint_op_null(operation: &str, table: Option<&str>) -> OpCall {
    OpCall {
        operation: operation.to_string(),
        full_range: def_range(),
        table_name: table.map(|t| TableRef { name: t.to_string(), range: def_range() }),
        column_name: None,
        null_constraint_name_range: Some(def_range()),
    }
}

// ── W701 ──────────────────────────────────────────────────────────────────

#[test]
fn req_alm_03_broken_chain_fires_w701() {
    let mut state = WorkspaceState::new();
    // revision_index has "a1" but not "b2"
    state
        .revision_index
        .insert("a1".to_string(), "file:///a.py".to_string());
    let mf = MigrationFile {
        down_revision: DownRevision::Single("b2".to_string()),
        down_revision_range: Some(dr(1, 16, 18)),
        ..mf_base("c3", DownRevision::Root)
    };
    let heads: Vec<String> = Vec::new();
    let diags = check_migration(&mf, &state, &heads);
    assert!(diags.iter().any(|d| code(d) == "SQLA-W701"), "{diags:?}");
}

#[test]
fn req_alm_03_base_migration_silent() {
    let mut state = WorkspaceState::new();
    let mf = mf_base("a1", DownRevision::Root);
    let heads: Vec<String> = Vec::new();
    let diags = check_migration(&mf, &state, &heads);
    assert!(!diags.iter().any(|d| code(d) == "SQLA-W701"), "{diags:?}");
}

#[test]
fn req_alm_03_valid_single_parent_silent() {
    let mut state = WorkspaceState::new();
    state
        .revision_index
        .insert("a1".to_string(), "file:///a.py".to_string());
    let mf = mf_base("b2", DownRevision::Single("a1".to_string()));
    let heads: Vec<String> = Vec::new();
    let diags = check_migration(&mf, &state, &heads);
    assert!(!diags.iter().any(|d| code(d) == "SQLA-W701"), "{diags:?}");
}

#[test]
fn req_alm_03_merge_one_missing_fires_once() {
    let mut state = WorkspaceState::new();
    state
        .revision_index
        .insert("a1".to_string(), "file:///a.py".to_string());
    let mf = mf_base(
        "c3",
        DownRevision::Multiple(vec!["a1".to_string(), "b2".to_string()]),
    );
    let heads: Vec<String> = Vec::new();
    let diags = check_migration(&mf, &state, &heads);
    let w701_count = diags.iter().filter(|d| code(d) == "SQLA-W701").count();
    assert_eq!(w701_count, 1, "one missing parent → one finding");
}

// ── W702 ──────────────────────────────────────────────────────────────────

#[test]
fn req_alm_04_multiple_heads_fire_w702() {
    let mut state = WorkspaceState::new();
    state
        .revision_index
        .insert("h1".to_string(), "file:///h1.py".to_string());
    state
        .revision_index
        .insert("h2".to_string(), "file:///h2.py".to_string());
    // Neither h1 nor h2 is in any down_revision → both are heads
    let mf = mf_base("h1", DownRevision::Root);
    let heads: Vec<String> = ["h1", "h2"].iter().map(|s| s.to_string()).collect();
    let diags = check_migration(&mf, &state, &heads);
    assert!(diags.iter().any(|d| code(d) == "SQLA-W702"), "{diags:?}");
}

#[test]
fn req_alm_04_single_head_silent() {
    let mut state = WorkspaceState::new();
    let mf = mf_base("h1", DownRevision::Root);
    let heads: Vec<String> = ["h1"].iter().map(|s| s.to_string()).collect();
    let diags = check_migration(&mf, &state, &heads);
    assert!(!diags.iter().any(|d| code(d) == "SQLA-W702"), "{diags:?}");
}

#[test]
fn req_alm_04_w702_silent_when_not_a_head() {
    // File whose revision is not in the head set should not fire
    let mut state = WorkspaceState::new();
    let mf = mf_base("old", DownRevision::Single("base".to_string()));
    let heads: Vec<String> = ["h1", "h2"].iter().map(|s| s.to_string()).collect();
    let diags = check_migration(&mf, &state, &heads);
    assert!(!diags.iter().any(|d| code(d) == "SQLA-W702"), "{diags:?}");
}

// ── H703 ──────────────────────────────────────────────────────────────────

#[test]
fn req_alm_05_unknown_table_fires_h703() {
    let mut state = WorkspaceState::new();
    let u: String = "file:///models.py".to_string();
    state.update_file(&u, vec![bare_model("Post", "posts")]);
    let mut mf = mf_base("a1", DownRevision::Root);
    mf.op_calls = vec![op_call("add_column", Some("typo_posts"))];
    let heads: Vec<String> = Vec::new();
    let diags = check_migration(&mf, &state, &heads);
    assert!(diags.iter().any(|d| code(d) == "SQLA-H703"), "{diags:?}");
}

#[test]
fn req_alm_05_known_table_silent() {
    let mut state = WorkspaceState::new();
    let u: String = "file:///models.py".to_string();
    state.update_file(&u, vec![bare_model("Post", "posts")]);
    let mut mf = mf_base("a1", DownRevision::Root);
    mf.op_calls = vec![op_call("add_column", Some("posts"))];
    let heads: Vec<String> = Vec::new();
    let diags = check_migration(&mf, &state, &heads);
    assert!(!diags.iter().any(|d| code(d) == "SQLA-H703"), "{diags:?}");
}

#[test]
fn req_alm_05_create_table_skipped() {
    let mut state = WorkspaceState::new();
    // "new_table" doesn't exist in the index but create_table is exempt
    let mut mf = mf_base("a1", DownRevision::Root);
    mf.op_calls = vec![op_call("create_table", Some("new_table"))];
    let heads: Vec<String> = Vec::new();
    let diags = check_migration(&mf, &state, &heads);
    assert!(!diags.iter().any(|d| code(d) == "SQLA-H703"), "{diags:?}");
}

// ── W704 ──────────────────────────────────────────────────────────────────

#[test]
fn req_alm_11_null_constraint_name_fires_w704() {
    let mut state = WorkspaceState::new();
    let mut mf = mf_base("a1", DownRevision::Root);
    mf.op_calls = vec![constraint_op_null("drop_constraint", Some("posts"))];
    let heads: Vec<String> = Vec::new();
    let diags = check_migration(&mf, &state, &heads);
    assert!(diags.iter().any(|d| code(d) == "SQLA-W704"), "{diags:?}");
}

#[test]
fn req_alm_11_named_constraint_is_silent() {
    let mut state = WorkspaceState::new();
    let mut mf = mf_base("a1", DownRevision::Root);
    // null_constraint_name_range is None → named → silent
    mf.op_calls = vec![op_call("drop_constraint", Some("posts"))];
    let heads: Vec<String> = Vec::new();
    let diags = check_migration(&mf, &state, &heads);
    assert!(!diags.iter().any(|d| code(d) == "SQLA-W704"), "{diags:?}");
}

// ── REQ-ALM-01/02: extraction coverage (using extractor module) ───────────

#[test]
fn req_alm_01_migration_extracts_and_indexes_revision() {
    let src = r#"
revision = "abc123"
down_revision = None
def upgrade(): pass
def downgrade(): pass
"#;
    let tree = parse_python(src).unwrap();
    let mf = extract_migration(&tree).unwrap();
    assert_eq!(mf.revision.as_deref(), Some("abc123"));

    let mut state = WorkspaceState::new();
    let u: String = "file:///v1.py".to_string();
    state.update_migration(&u, mf);
    assert!(state.revision_index.get("abc123").is_some());
}

#[test]
fn req_alm_02_opcall_carries_table_and_column() {
    let src = r#"
revision = "abc123"
down_revision = None
def upgrade():
    op.add_column("posts", "title")
def downgrade(): pass
"#;
    let tree = parse_python(src).unwrap();
    let mf = extract_migration(&tree).unwrap();
    let op = mf
        .op_calls
        .iter()
        .find(|o| o.operation == "add_column")
        .unwrap();
    assert_eq!(
        op.table_name.as_ref().map(|t| t.name.as_str()),
        Some("posts")
    );
    assert_eq!(
        op.column_name.as_ref().map(|c| c.name.as_str()),
        Some("title")
    );
}

// ── W704 via extractor ────────────────────────────────────────────────────

#[test]
fn req_alm_11_extractor_detects_none_constraint_name() {
    let src = r#"
revision = "abc123"
down_revision = None
def upgrade():
    op.drop_constraint(None, "posts", type_="unique")
def downgrade(): pass
"#;
    let tree = parse_python(src).unwrap();
    let mf = extract_migration(&tree).unwrap();
    let op = mf
        .op_calls
        .iter()
        .find(|o| o.operation == "drop_constraint")
        .unwrap();
    assert!(
        op.null_constraint_name_range.is_some(),
        "None constraint should be detected"
    );
}

#[test]
fn req_alm_11_extractor_named_constraint_not_flagged() {
    let src = r#"
revision = "abc123"
down_revision = None
def upgrade():
    op.drop_constraint("uq_posts_slug", "posts", type_="unique")
def downgrade(): pass
"#;
    let tree = parse_python(src).unwrap();
    let mf = extract_migration(&tree).unwrap();
    let op = mf
        .op_calls
        .iter()
        .find(|o| o.operation == "drop_constraint")
        .unwrap();
    assert!(
        op.null_constraint_name_range.is_none(),
        "named constraint should not be flagged"
    );
}

