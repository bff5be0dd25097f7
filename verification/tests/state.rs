#![allow(dead_code, unused_imports)]
use sqlalchemy_lsp::state::WorkspaceState;
use sqlalchemy_lsp::strmap::StrMap;
use sqlalchemy_lsp::syntax::SyntaxNode;
use sqlalchemy_lsp::types::{Column, ColumnArgs, ForeignKeyRef, MappedType, Model, Position, Range, Relationship};

fn uri(s: &str) -> String {
    s.to_string()
}

fn rng(sl: u32, sc: u32, el: u32, ec: u32) -> Range {
    Range { start_line: sl, start_col: sc, end_line: el, end_col: ec }
}

fn pos(line: u32, character: u32) -> Position {
    Position { line, character }
}

fn simple_col(name: &str, r: Range) -> Column {
    Column {
        name: name.to_string(),
        key: None,
        mapped_type: MappedType::Int,
        args: ColumnArgs::default(),
        foreign_key: None,
        doc: None,
        name_range: r,
        full_range: r,
    }
}

fn fk_col(name: &str, r: Range, table: &str, column: &str, fk_r: Range) -> Column {
    let mut c = simple_col(name, r);
    c.foreign_key = Some(ForeignKeyRef {
        table: table.to_string(),
        column: column.to_string(),
        raw_text: format!("{table}.{column}"),
        range: fk_r,
    });
    c
}

fn model(name: &str, table: Option<&str>, name_r: Range) -> Model {
    Model {
        name: name.to_string(),
        table_name: table.map(|t| t.to_string()),
        bases: vec![],
        columns: StrMap::new(),
        relationships: StrMap::new(),
        table_args: vec![],
        duplicate_columns: vec![],
        docstring: None,
        name_range: name_r,
        full_range: rng(0, 0, 30, 0),
    }
}

fn rel(name: &str, target: &str, name_r: Range) -> Relationship {
    Relationship {
        name: name.to_string(),
        target_model: target.to_string(),
        explicit_target: None,
        back_populates: None,
        lazy: None,
        uselist: None,
        secondary: None,
        cascade: None,
        is_list: false,
        backref: None,
        remote_side: false,
        has_foreign_keys: false,
        viewonly: None,
        name_range: name_r,
        full_range: name_r,
        target_range: None,
        back_populates_range: None,
        cascade_range: None,
    }
}

fn to_syntax(node: tree_sitter::Node, source: &[u8], field: Option<&str>) -> SyntaxNode {
    let mut children = Vec::new();
    for i in 0..node.child_count() {
        if let Some(child) = node.child(i) {
            children.push(to_syntax(child, source, node.field_name_for_child(i as u32)));
        }
    }
    SyntaxNode {
        kind: node.kind().to_string(),
        field: field.map(|f| f.to_string()),
        named: node.is_named(),
        text: std::str::from_utf8(&source[node.start_byte()..node.end_byte()]).unwrap_or("").to_string(),
        range: Range {
            start_line: node.start_position().row as u32,
            start_col: node.start_position().column as u32,
            end_line: node.end_position().row as u32,
            end_col: node.end_position().column as u32,
        },
        start_byte: node.start_byte(),
        end_byte: node.end_byte(),
        children,
    }
}

fn parse(source: &str) -> SyntaxNode {
    let mut parser = tree_sitter::Parser::new();
    parser.set_language(&tree_sitter_python::LANGUAGE.into()).unwrap();
    let tree = parser.parse(source, None).unwrap();
    to_syntax(tree.root_node(), source.as_bytes(), None)
}

fn add(state: &mut WorkspaceState, u: &str, models: Vec<Model>) {
    state.update_file(&u.to_string(), models);
}

use sqlalchemy_lsp::alembic::{DownRevision, MigrationFile};

fn make_model(name: &str, table: &str) -> Model {
    model(name, Some(table), Range::default())
}

fn make_migration(revision: &str, down: Option<&str>) -> MigrationFile {
    MigrationFile {
        revision: Some(revision.to_string()),
        down_revision: match down {
            Some(r) => DownRevision::Single(r.to_string()),
            None => DownRevision::Root,
        },
        message: None,
        revision_range: None,
        down_revision_range: None,
        op_calls: vec![],
    }
}

#[test]
fn small_workspace_totals_fit() {
    let mut state = WorkspaceState::new();
    add(&mut state, "file:///tmp/models.py", vec![make_model("User", "users")]);
    assert!(sqlalchemy_lsp::stats::totals_fit_exec(&state));
}

#[test]
fn update_file_populates_reverse_indexes() {
    let mut state = WorkspaceState::new();
    let u = uri("file:///tmp/models.py");
    add(&mut state, &u, vec![make_model("User", "users")]);
    assert!(state.model_index.contains_key("User"));
    assert_eq!(state.table_index.get("users").map(String::as_str), Some("User"));
    assert_eq!(state.file_models.get(&u).map(|m| m.len()), Some(1));
}

#[test]
fn update_file_purges_old_reverse_index_entries() {
    let mut state = WorkspaceState::new();
    let u = uri("file:///tmp/models.py");
    add(&mut state, &u, vec![make_model("User", "users")]);
    add(&mut state, &u, vec![make_model("Post", "posts")]);
    assert!(!state.model_index.contains_key("User"), "old model must be purged");
    assert!(!state.table_index.contains_key("users"), "old table must be purged");
    assert!(state.model_index.contains_key("Post"));
    assert!(state.table_index.contains_key("posts"));
}

#[test]
fn remove_file_clears_all_entries() {
    let mut state = WorkspaceState::new();
    let u = uri("file:///tmp/models.py");
    add(&mut state, &u, vec![make_model("User", "users")]);
    state.remove_file(&u);
    assert!(!state.file_models.contains_key(&u));
    assert!(!state.model_index.contains_key("User"));
    assert!(!state.table_index.contains_key("users"));
}

#[test]
fn update_migration_tracks_revision_index() {
    let mut state = WorkspaceState::new();
    let u = uri("file:///tmp/v1.py");
    state.update_migration(&u, make_migration("abc123", None));
    assert_eq!(state.revision_index.get("abc123"), Some(&u));
}

#[test]
fn update_migration_purges_old_revision() {
    let mut state = WorkspaceState::new();
    let u = uri("file:///tmp/v1.py");
    state.update_migration(&u, make_migration("abc123", None));
    state.update_migration(&u, make_migration("def456", Some("abc123")));
    assert!(!state.revision_index.contains_key("abc123"), "old revision must be purged");
    assert!(state.revision_index.contains_key("def456"));
}

#[test]
fn remove_file_clears_migration_revision() {
    let mut state = WorkspaceState::new();
    let u = uri("file:///tmp/v1.py");
    state.update_migration(&u, make_migration("abc123", None));
    state.remove_file(&u);
    assert!(!state.migration_files.contains_key(&u));
    assert!(!state.revision_index.contains_key("abc123"));
}

#[test]
fn remove_file_forgets_tree_and_diagnostics() {
    let mut state = WorkspaceState::new();
    let u = uri("file:///tmp/models.py");
    state.parse_trees.insert(u.clone(), parse("x = 1\n"));
    state.file_sources.insert(u.clone(), "x = 1\n".to_string());
    state.diagnostics.insert(u.clone(), vec![]);
    state.remove_file(&u);
    assert!(!state.parse_trees.contains_key(&u));
    assert!(!state.file_sources.contains_key(&u));
    assert!(!state.diagnostics.contains_key(&u));
}
