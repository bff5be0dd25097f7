#![allow(dead_code, unused_imports)]
use sqlalchemy_lsp::state::WorkspaceState;
use sqlalchemy_lsp::strmap::StrMap;
use sqlalchemy_lsp::syntax::SyntaxNode;
use sqlalchemy_lsp::types::{Column, ColumnArgs, ForeignKeyRef, MappedType, Model, Position, Range, Relationship};

fn uri(s: &str) -> String {
    s.to_string()
}

fn rng(sl: u32, sc: u32, el: u32, ec: u32) -> Range {
    Range { start_line: sl, start_col: sc, end_line: el, end_col: ec }
}

fn pos(line: u32, character: u32) -> Position {
    Position { line, character }
}

fn simple_col(name: &str, r: Range) -> Column {
    Column {
        name: name.to_string(),
        key: None,
        mapped_type: MappedType::Int,
        args: ColumnArgs::default(),
        foreign_key: None,
        doc: None,
        name_range: r,
        full_range: r,
    }
}

fn fk_col(name: &str, r: Range, table: &str, column: &str, fk_r: Range) -> Column {
    let mut c = simple_col(name, r);
    c.foreign_key = Some(ForeignKeyRef {
        table: table.to_string(),
        column: column.to_string(),
        raw_text: format!("{table}.{column}"),
        range: fk_r,
    });
    c
}

fn model(name: &str, table: Option<&str>, name_r: Range) -> Model {
    Model {
        name: name.to_string(),
        table_name: table.map(|t| t.to_string()),
        bases: vec![],
        columns: StrMap::new(),
        relationships: StrMap::new(),
        table_args: vec![],
        duplicate_columns: vec![],
        docstring: None,
        name_range: name_r,
        full_range: rng(0, 0, 30, 0),
    }
}

fn rel(name: &str, target: &str, name_r: Range) -> Relationship {
    Relationship {
        name: name.to_string(),
        target_model: target.to_string(),
        explicit_target: None,
        back_populates: None,
        lazy: None,
        uselist: None,
        secondary: None,
        cascade: None,
        is_list: false,
        backref: None,
        remote_side: false,
        has_foreign_keys: false,
        viewonly: None,
        name_range: name_r,
        full_range: name_r,
        target_range: None,
        back_populates_range: None,
        cascade_range: None,
    }
}

fn to_syntax(node: tree_sitter::Node, source: &[u8], field: Option<&str>) -> SyntaxNode {
    let mut children = Vec::new();
    for i in 0..node.child_count() {
        if let Some(child) = node.child(i) {
            children.push(to_syntax(child, source, node.field_name_for_child(i as u32)));
        }
    }
    SyntaxNode {
        kind: node.kind().to_string(),
        field: field.map(|f| f.to_string()),
        named: node.is_named(),
        text: std::str::from_utf8(&source[node.start_byte()..node.end_byte()]).unwrap_or("").to_string(),
        range: Range {
            start_line: node.start_position().row as u32,
            start_col: node.start_position().column as u32,
            end_line: node.end_position().row as u32,
            end_col: node.end_position().column as u32,
        },
        start_byte: node.start_byte(),
        end_byte: node.end_byte(),
        children,
    }
}

fn parse(source: &str) -> SyntaxNode {
    let mut parser = tree_sitter::Parser::new();
    parser.set_language(&tree_sitter_python::LANGUAGE.into()).unwrap();
    let tree = parser.parse(source, None).unwrap();
    to_syntax(tree.root_node(), source.as_bytes(), None)
}

fn add(state: &mut WorkspaceState, u: &str, models: Vec<Model>) {
    state.update_file(&u.to_string(), models);
}

use sqlalchemy_lsp::alembic::{DownRevision, MigrationFile};
use sqlalchemy_lsp::completion::{provide_completions, CompletionItem};

fn parse_and_store(src: &str, u: &str, state: &mut WorkspaceState) {
    state.parse_trees.insert(u.to_string(), parse(src));
    state.file_sources.insert(u.to_string(), src.to_string());
}

fn make_model_with_cols(state: &mut WorkspaceState, u: &str, name: &str, table: &str, cols: &[&str]) {
    let mut m = model(name, Some(table), rng(0, 0, 0, 0));
    m.full_range = rng(0, 0, 0, 0);
    for c in cols {
        let mut col = simple_col(c, rng(0, 0, 0, 0));
        col.mapped_type = MappedType::Str;
        m.columns.insert(c.to_string(), col);
    }
    add(state, u, vec![m]);
}

fn complete(u: &str, src: &str, line: u32, character: u32, state: &WorkspaceState) -> Option<Vec<CompletionItem>> {
    provide_completions(u, src, pos(line, character), state)
}

#[test]
fn req_cmp_03_op_dot_in_migration_returns_ops() {
    let mut state = WorkspaceState::new();
    let u = uri("file:///v1.py");
    let src = "from alembic import op\nrevision = 'a1'\ndef upgrade():\n    op.";
    parse_and_store(src, &u, &mut state);
    state.migration_files.insert(
        u.clone(),
        MigrationFile {
            revision: Some("a1".to_string()),
            down_revision: DownRevision::Root,
            message: None,
            revision_range: None,
            down_revision_range: None,
            op_calls: vec![],
        },
    );
    let items = complete(&u, src, 3, 7, &state).unwrap();
    assert!(items.iter().any(|i| i.label == "add_column"), "{items:?}");
    assert!(items.iter().any(|i| i.label == "create_table"), "{items:?}");
}

#[test]
fn req_cmp_03_op_dot_outside_migration_returns_none() {
    let mut state = WorkspaceState::new();
    let u = uri("file:///models.py");
    let src = "op.";
    parse_and_store(src, &u, &mut state);
    assert!(complete(&u, src, 0, 3, &state).is_none());
}

#[test]
fn req_cmp_05_fk_string_returns_table_dot_col() {
    let mut state = WorkspaceState::new();
    make_model_with_cols(&mut state, "file:///user.py", "User", "users", &["id", "email"]);
    let u = uri("file:///post.py");
    let src = "from sqlalchemy import ForeignKey\nauthor_id = mapped_column(ForeignKey(\"us\"))";
    parse_and_store(src, &u, &mut state);
    let items = complete(&u, src, 1, 39, &state).unwrap_or_default();
    assert!(items.iter().any(|i| i.label.starts_with("users.")), "expected users.* items, got {items:?}");
}

#[test]
fn req_cmp_06_relationship_kwarg_at_empty() {
    let mut state = WorkspaceState::new();
    let u = uri("file:///post.py");
    let src = "from sqlalchemy.orm import relationship\nauthor = relationship(";
    parse_and_store(src, &u, &mut state);
    let items = complete(&u, src, 1, src.lines().nth(1).unwrap().len() as u32, &state).unwrap_or_default();
    assert!(items.iter().any(|i| i.label == "back_populates"), "{items:?}");
    assert!(items.iter().any(|i| i.label == "lazy"), "{items:?}");
}

#[test]
fn req_cmp_07_lazy_value_completions() {
    let mut state = WorkspaceState::new();
    let u = uri("file:///post.py");
    let src = "from sqlalchemy.orm import relationship\nauthor = relationship(lazy=\"";
    parse_and_store(src, &u, &mut state);
    let items = complete(&u, src, 1, src.lines().nth(1).unwrap().len() as u32, &state).unwrap_or_default();
    assert!(items.iter().any(|i| i.label == "joined"), "{items:?}");
    assert!(items.iter().any(|i| i.label == "selectin"), "{items:?}");
}

#[test]
fn req_cmp_08_cascade_value_completions() {
    let mut state = WorkspaceState::new();
    let u = uri("file:///post.py");
    let src = "from sqlalchemy.orm import relationship\nauthor = relationship(cascade=\"";
    parse_and_store(src, &u, &mut state);
    let items = complete(&u, src, 1, src.lines().nth(1).unwrap().len() as u32, &state).unwrap_or_default();
    assert!(items.iter().any(|i| i.label == "all, delete-orphan"), "{items:?}");
    assert!(items.iter().any(|i| i.label == "delete-orphan"), "{items:?}");
}

#[test]
fn req_cmp_08_cascade_after_existing_token() {
    let mut state = WorkspaceState::new();
    let u = uri("file:///post.py");
    let src = "from sqlalchemy.orm import relationship\nauthor = relationship(\n    back_populates=\"bp\",\n    cascade=\"all, \"\n)";
    parse_and_store(src, &u, &mut state);
    let line3 = src.lines().nth(3).unwrap();
    let char_pos = line3.find("all, ").unwrap() as u32 + "all, ".len() as u32;
    let items = complete(&u, src, 3, char_pos, &state).unwrap_or_default();
    assert!(
        items.iter().any(|i| i.label == "delete-orphan"),
        "multi-line cascade after existing token should offer delete-orphan; got {items:?}"
    );
}

#[test]
fn req_cmp_11_mapped_column_kwargs() {
    let mut state = WorkspaceState::new();
    let u = uri("file:///post.py");
    let src = "from sqlalchemy.orm import mapped_column\nid = mapped_column(";
    parse_and_store(src, &u, &mut state);
    let items = complete(&u, src, 1, src.lines().nth(1).unwrap().len() as u32, &state).unwrap_or_default();
    assert!(items.iter().any(|i| i.label == "primary_key"), "{items:?}");
    assert!(items.iter().any(|i| i.label == "nullable"), "{items:?}");
}

#[test]
fn req_cmp_14_samodel_at_file_root() {
    let mut state = WorkspaceState::new();
    let u = uri("file:///new_model.py");
    let src = "samodel";
    parse_and_store(src, &u, &mut state);
    let items = complete(&u, src, 0, 7, &state).unwrap_or_default();
    assert!(items.iter().any(|i| i.label == "samodel"), "{items:?}");
}

#[test]
fn multiline_fk_string_completions() {
    let mut state = WorkspaceState::new();
    make_model_with_cols(&mut state, "file:///user.py", "User", "users", &["id"]);
    let u = uri("file:///post.py");
    let src = "from sqlalchemy import ForeignKey\nauthor_id = mapped_column(\n    ForeignKey(\n        \"us\"\n    )\n)";
    parse_and_store(src, &u, &mut state);
    let items = complete(&u, src, 3, 10, &state).unwrap_or_default();
    assert!(items.iter().any(|i| i.label.starts_with("users.")), "multi-line ForeignKey should offer FK targets; got {items:?}");
}

#[test]
fn multiline_mapped_column_kwargs() {
    let mut state = WorkspaceState::new();
    let u = uri("file:///post.py");
    let src = "from sqlalchemy.orm import mapped_column\nid = mapped_column(\n    nullable=False\n)";
    parse_and_store(src, &u, &mut state);
    let items = complete(&u, src, 2, 4, &state).unwrap_or_default();
    assert!(items.iter().any(|i| i.label == "primary_key"), "multi-line mapped_column should offer kwargs; got {items:?}");
}

#[test]
fn multiline_relationship_positional_string() {
    let mut state = WorkspaceState::new();
    make_model_with_cols(&mut state, "file:///user.py", "User", "users", &["id"]);
    let u = uri("file:///post.py");
    let src = "from sqlalchemy.orm import relationship\nauthor = relationship(\n    \"Us\"\n)";
    parse_and_store(src, &u, &mut state);
    let items = complete(&u, src, 2, 7, &state).unwrap_or_default();
    assert!(items.iter().any(|i| i.label == "User"), "multi-line relationship positional string should offer model names; got {items:?}");
}

#[test]
fn req_cmp_15_plain_python_returns_none() {
    let mut state = WorkspaceState::new();
    let u = uri("file:///plain.py");
    let src = "def slugify(title):\n    return title.lower()";
    parse_and_store(src, &u, &mut state);
    assert!(complete(&u, src, 1, 18, &state).is_none());
}

#[test]
fn table_args_column_string_offers_model_columns() {
    let mut state = WorkspaceState::new();
    let u = uri("file:///user.py");
    let src = "class User(Base):\n    __tablename__ = \"users\"\n    __table_args__ = (Index(\"ix_email\", \"id\", \"em\"),)\n";
    make_model_with_cols(&mut state, &u, "User", "users", &["email", "id"]);
    parse_and_store(src, &u, &mut state);
    let items = complete(&u, src, 2, 48, &state).unwrap_or_default();
    assert!(items.iter().any(|i| i.label == "email"), "{items:?}");
    assert!(!items.iter().any(|i| i.label == "id"), "{items:?}");
}

#[test]
fn model_constructor_offers_column_keywords() {
    let mut state = WorkspaceState::new();
    make_model_with_cols(&mut state, "file:///user.py", "User", "users", &["email", "name"]);
    let u = uri("file:///app.py");
    let src = "u = User(em)";
    parse_and_store(src, &u, &mut state);
    let items = complete(&u, src, 0, 11, &state).unwrap_or_default();
    assert!(items.iter().any(|i| i.label == "email"), "{items:?}");
    assert!(!items.iter().any(|i| i.label == "name"), "{items:?}");
}
