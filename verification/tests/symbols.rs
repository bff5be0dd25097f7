use sqlalchemy_lsp::alembic::{DownRevision, MigrationFile};
use sqlalchemy_lsp::state::WorkspaceState;
use sqlalchemy_lsp::symbols::provide_symbols;
use sqlalchemy_lsp::types::Range;

fn rng(sl: u32, sc: u32, el: u32, ec: u32) -> Range {
    Range { start_line: sl, start_col: sc, end_line: el, end_col: ec }
}

fn migration(rev: &str, msg: Option<&str>, rev_rng: Range) -> MigrationFile {
    MigrationFile {
        revision: Some(rev.to_string()),
        down_revision: DownRevision::Root,
        message: msg.map(|m| m.to_string()),
        revision_range: Some(rev_rng),
        down_revision_range: None,
        op_calls: vec![],
    }
}

fn seed(state: &mut WorkspaceState) {
    state.update_migration(&"file:///v1.py".to_string(), migration("a1b2c3d4", Some("add user table"), rng(0, 11, 0, 21)));
    state.update_migration(&"file:///v2.py".to_string(), migration("f9e8d7c6", Some("add audit table"), rng(0, 11, 0, 21)));
    state.update_migration(&"file:///v3.py".to_string(), migration("00112233", Some("init schema"), rng(0, 11, 0, 21)));
}

#[test]
fn req_sym_01_revisions_emitted_as_symbols() {
    let mut state = WorkspaceState::new();
    seed(&mut state);
    let syms = provide_symbols("", &state);
    assert_eq!(syms.len(), 3);
    assert!(syms.iter().any(|s| s.name.contains("a1b2c3d4") && s.name.contains("add user table")));
}

#[test]
fn req_sym_02_match_by_revision_id() {
    let mut state = WorkspaceState::new();
    seed(&mut state);
    let syms = provide_symbols("a1b2", &state);
    assert_eq!(syms.len(), 1);
    assert!(syms[0].name.contains("a1b2c3d4"));
}

#[test]
fn req_sym_02_match_by_message_case_insensitive() {
    let mut state = WorkspaceState::new();
    seed(&mut state);
    let syms = provide_symbols("AUDIT", &state);
    assert_eq!(syms.len(), 1);
    assert!(syms[0].name.contains("add audit table"));
}

#[test]
fn req_sym_03_empty_query_returns_all() {
    let mut state = WorkspaceState::new();
    seed(&mut state);
    assert_eq!(provide_symbols("", &state).len(), 3);
}

#[test]
fn req_sym_03_no_match_returns_empty() {
    let mut state = WorkspaceState::new();
    seed(&mut state);
    assert!(provide_symbols("ghost_query_xyz", &state).is_empty());
}

#[test]
fn req_sym_04_no_migrations_no_symbols() {
    let state = WorkspaceState::new();
    assert!(provide_symbols("", &state).is_empty());
}

#[test]
fn symbol_name_joins_revision_and_message() {
    let mut state = WorkspaceState::new();
    state.update_migration(&"file:///v1.py".to_string(), migration("a1b2c3d4", Some("add user table"), rng(2, 11, 2, 21)));
    let mut child = migration("b2", None, rng(1, 0, 1, 4));
    child.down_revision = DownRevision::Single("a1b2c3d4".to_string());
    state.update_migration(&"file:///v2.py".to_string(), child);
    let syms = provide_symbols("", &state);
    assert_eq!(syms[0].name, "a1b2c3d4 · add user table");
    assert_eq!(syms[0].uri, "file:///v1.py");
    assert_eq!(syms[0].range, rng(2, 11, 2, 21));
    assert_eq!(syms[0].container_name, None);
    assert_eq!(syms[1].name, "b2");
    assert_eq!(syms[1].container_name, Some("a1b2c3d4".to_string()));
}
