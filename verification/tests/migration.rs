#![allow(dead_code, unused_imports)]
use sqlalchemy_lsp::state::WorkspaceState;
use sqlalchemy_lsp::strmap::StrMap;
use sqlalchemy_lsp::syntax::SyntaxNode;
use sqlalchemy_lsp::types::{Column, ColumnArgs, ForeignKeyRef, MappedType, Model, Position, Range, Relationship};

fn uri(s: &str) -> String {
    s.to_string()
}

fn rng(sl: u32, sc: u32, el: u32, ec: u32) -> Range {
    Range { start_line: sl, start_col: sc, end_line: el, end_col: ec }
}

fn pos(line: u32, character: u32) -> Position {
    Position { line, character }
}

fn simple_col(name: &str, r: Range) -> Column {
    Column {
        name: name.to_string(),
        key: None,
        mapped_type: MappedType::Int,
        args: ColumnArgs::default(),
        foreign_key: None,
        doc: None,
        name_range: r,
        full_range: r,
    }
}

fn fk_col(name: &str, r: Range, table: &str, column: &str, fk_r: Range) -> Column {
    let mut c = simple_col(name, r);
    c.foreign_key = Some(ForeignKeyRef {
        table: table.to_string(),
        column: column.to_string(),
        raw_text: format!("{table}.{column}"),
        range: fk_r,
    });
    c
}

fn model(name: &str, table: Option<&str>, name_r: Range) -> Model {
    Model {
        name: name.to_string(),
        table_name: table.map(|t| t.to_string()),
        bases: vec![],
        columns: StrMap::new(),
        relationships: StrMap::new(),
        table_args: vec![],
        duplicate_columns: vec![],
        docstring: None,
        name_range: name_r,
        full_range: rng(0, 0, 30, 0),
    }
}

fn rel(name: &str, target: &str, name_r: Range) -> Relationship {
    Relationship {
        name: name.to_string(),
        target_model: target.to_string(),
        explicit_target: None,
        back_populates: None,
        lazy: None,
        uselist: None,
        secondary: None,
        cascade: None,
        is_list: false,
        backref: None,
        remote_side: false,
        has_foreign_keys: false,
        viewonly: None,
        name_range: name_r,
        full_range: name_r,
        target_range: None,
        back_populates_range: None,
        cascade_range: None,
    }
}

fn to_syntax(node: tree_sitter::Node, source: &[u8], field: Option<&str>) -> SyntaxNode {
    let mut children = Vec::new();
    for i in 0..node.child_count() {
        if let Some(child) = node.child(i) {
            children.push(to_syntax(child, source, node.field_name_for_child(i as u32)));
        }
    }
    SyntaxNode {
        kind: node.kind().to_string(),
        field: field.map(|f| f.to_string()),
        named: node.is_named(),
        text: std::str::from_utf8(&source[node.start_byte()..node.end_byte()]).unwrap_or("").to_string(),
        range: Range {
            start_line: node.start_position().row as u32,
            start_col: node.start_position().column as u32,
            end_line: node.end_position().row as u32,
            end_col: node.end_position().column as u32,
        },
        start_byte: node.start_byte(),
        end_byte: node.end_byte(),
        children,
    }
}

fn parse(source: &str) -> SyntaxNode {
    let mut parser = tree_sitter::Parser::new();
    parser.set_language(&tree_sitter_python::LANGUAGE.into()).unwrap();
    let tree = parser.parse(source, None).unwrap();
    to_syntax(tree.root_node(), source.as_bytes(), None)
}

fn add(state: &mut WorkspaceState, u: &str, models: Vec<Model>) {
    state.update_file(&u.to_string(), models);
}

use sqlalchemy_lsp::alembic::DownRevision;
use sqlalchemy_lsp::migration::extract_migration;

const MIGRATION_A: &str = r#"
"""initial schema"""
from alembic import op
import sqlalchemy as sa

revision = "a1b2c3d4"
down_revision = None
branch_labels = None
depends_on = None

def upgrade() -> None:
    op.create_table(
        "users",
        sa.Column("id", sa.Integer, primary_key=True),
        sa.Column("email", sa.String(200), nullable=False),
    )

def downgrade() -> None:
    op.drop_table("users")
"#;

const MIGRATION_B: &str = r#"
"""add posts

Revision ID: b2c3d4e5
"""
from alembic import op
import sqlalchemy as sa

revision = "b2c3d4e5"
down_revision = "a1b2c3d4"

def upgrade() -> None:
    op.create_table("posts",
        sa.Column("id", sa.Integer, primary_key=True),
    )
    op.add_column("posts", sa.Column("title", sa.String))

def downgrade() -> None:
    op.drop_table("posts")
"#;

const MERGE_MIGRATION: &str = r#"
"""merge heads"""
from alembic import op

revision = "c1c1c1c1"
down_revision = ("a1b2c3d4", "b2c3d4e5")

def upgrade() -> None:
    pass

def downgrade() -> None:
    pass
"#;

#[test]
fn extract_revision_and_message() {
    let mf = extract_migration(&parse(MIGRATION_A)).expect("migration extracted");
    assert_eq!(mf.revision.as_deref(), Some("a1b2c3d4"));
    assert_eq!(mf.message.as_deref(), Some("initial schema"));
}

#[test]
fn extract_down_revision_none() {
    let mf = extract_migration(&parse(MIGRATION_A)).unwrap();
    assert!(matches!(mf.down_revision, DownRevision::Root));
}

#[test]
fn extract_down_revision_single() {
    let mf = extract_migration(&parse(MIGRATION_B)).unwrap();
    assert!(matches!(mf.down_revision, DownRevision::Single(ref s) if s == "a1b2c3d4"));
}

#[test]
fn extract_down_revision_multiple() {
    let mf = extract_migration(&parse(MERGE_MIGRATION)).unwrap();
    assert!(matches!(mf.down_revision, DownRevision::Multiple(ref v) if v.len() == 2));
}

#[test]
fn extract_op_calls() {
    let mf = extract_migration(&parse(MIGRATION_A)).unwrap();
    assert!(!mf.op_calls.is_empty());
    let create = mf.op_calls.iter().find(|o| o.operation == "create_table");
    assert!(create.is_some());
    assert_eq!(create.unwrap().table_name.as_ref().map(|t| t.name.as_str()), Some("users"));
}

#[test]
fn extract_drop_table() {
    let mf = extract_migration(&parse(MIGRATION_A)).unwrap();
    let drop = mf.op_calls.iter().find(|o| o.operation == "drop_table");
    assert!(drop.is_some());
    assert_eq!(drop.unwrap().table_name.as_ref().map(|t| t.name.as_str()), Some("users"));
}

#[test]
fn message_first_line_only() {
    let mf = extract_migration(&parse(MIGRATION_B)).unwrap();
    assert_eq!(mf.message.as_deref(), Some("add posts"));
}

#[test]
fn none_returns_for_plain_python() {
    assert!(extract_migration(&parse("x = 1\ndef foo(): pass\n")).is_none());
}

#[test]
fn add_column_records_table_and_column() {
    let mf = extract_migration(&parse(MIGRATION_B)).unwrap();
    let add = mf.op_calls.iter().find(|o| o.operation == "add_column").unwrap();
    assert_eq!(add.table_name.as_ref().map(|t| t.name.as_str()), Some("posts"));
    assert_eq!(mf.revision_range, Some(rng(8, 11, 8, 21)));
}
