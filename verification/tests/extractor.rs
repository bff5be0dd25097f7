#![allow(dead_code, unused_imports)]
use sqlalchemy_lsp::state::WorkspaceState;
use sqlalchemy_lsp::strmap::StrMap;
use sqlalchemy_lsp::syntax::SyntaxNode;
use sqlalchemy_lsp::types::{Column, ColumnArgs, ForeignKeyRef, MappedType, Model, Position, Range, Relationship};

fn uri(s: &str) -> String {
    s.to_string()
}

fn rng(sl: u32, sc: u32, el: u32, ec: u32) -> Range {
    Range { start_line: sl, start_col: sc, end_line: el, end_col: ec }
}

fn pos(line: u32, character: u32) -> Position {
    Position { line, character }
}

fn simple_col(name: &str, r: Range) -> Column {
    Column {
        name: name.to_string(),
        key: None,
        mapped_type: MappedType::Int,
        args: ColumnArgs::default(),
        foreign_key: None,
        doc: None,
        name_range: r,
        full_range: r,
    }
}

fn fk_col(name: &str, r: Range, table: &str, column: &str, fk_r: Range) -> Column {
    let mut c = simple_col(name, r);
    c.foreign_key = Some(ForeignKeyRef {
        table: table.to_string(),
        column: column.to_string(),
        raw_text: format!("{table}.{column}"),
        range: fk_r,
    });
    c
}

fn model(name: &str, table: Option<&str>, name_r: Range) -> Model {
    Model {
        name: name.to_string(),
        table_name: table.map(|t| t.to_string()),
        bases: vec![],
        columns: StrMap::new(),
        relationships: StrMap::new(),
        table_args: vec![],
        duplicate_columns: vec![],
        docstring: None,
        name_range: name_r,
        full_range: rng(0, 0, 30, 0),
    }
}

fn rel(name: &str, target: &str, name_r: Range) -> Relationship {
    Relationship {
        name: name.to_string(),
        target_model: target.to_string(),
        explicit_target: None,
        back_populates: None,
        lazy: None,
        uselist: None,
        secondary: None,
        cascade: None,
        is_list: false,
        backref: None,
        remote_side: false,
        has_foreign_keys: false,
        viewonly: None,
        name_range: name_r,
        full_range: name_r,
        target_range: None,
        back_populates_range: None,
        cascade_range: None,
    }
}

fn to_syntax(node: tree_sitter::Node, source: &[u8], field: Option<&str>) -> SyntaxNode {
    let mut children = Vec::new();
    for i in 0..node.child_count() {
        if let Some(child) = node.child(i) {
            children.push(to_syntax(child, source, node.field_name_for_child(i as u32)));
        }
    }
    SyntaxNode {
        kind: node.kind().to_string(),
        field: field.map(|f| f.to_string()),
        named: node.is_named(),
        text: std::str::from_utf8(&source[node.start_byte()..node.end_byte()]).unwrap_or("").to_string(),
        range: Range {
            start_line: node.start_position().row as u32,
            start_col: node.start_position().column as u32,
            end_line: node.end_position().row as u32,
            end_col: node.end_position().column as u32,
        },
        start_byte: node.start_byte(),
        end_byte: node.end_byte(),
        children,
    }
}

fn parse(source: &str) -> SyntaxNode {
    let mut parser = tree_sitter::Parser::new();
    parser.set_language(&tree_sitter_python::LANGUAGE.into()).unwrap();
    let tree = parser.parse(source, None).unwrap();
    to_syntax(tree.root_node(), source.as_bytes(), None)
}

fn add(state: &mut WorkspaceState, u: &str, models: Vec<Model>) {
    state.update_file(&u.to_string(), models);
}

use sqlalchemy_lsp::extract::{build_symbol_table, extract_models};

#[test]
fn symbol_table_bare_import() {
    let st = build_symbol_table(&parse("import sqlalchemy\n"));
    assert_eq!(st.alias_module("sqlalchemy"), Some("sqlalchemy"));
}

#[test]
fn symbol_table_aliased_module() {
    let st = build_symbol_table(&parse("import sqlalchemy as sa\n"));
    assert_eq!(st.alias_module("sa"), Some("sqlalchemy"));
}

#[test]
fn symbol_table_from_import() {
    let st = build_symbol_table(&parse("from sqlalchemy.orm import relationship, Mapped\n"));
    assert!(st.is_relationship("relationship"));
    assert!(st.is_mapped("Mapped"));
}

#[test]
fn symbol_table_aliased_from_import() {
    let st = build_symbol_table(&parse("from sqlalchemy.orm import relationship as rel\n"));
    assert!(st.is_relationship("rel"));
    assert!(!st.is_relationship("relationship"), "unimported name must not match");
}

#[test]
fn symbol_table_module_attr_resolve() {
    let st = build_symbol_table(&parse("import sqlalchemy as sa\n"));
    assert_eq!(st.resolve("sa.String").as_deref(), Some("sqlalchemy.String"));
}

#[test]
fn symbol_table_type_checking_block() {
    let src = "from __future__ import annotations\nif TYPE_CHECKING:\n    from .users import User as SomeUser\n";
    let st = build_symbol_table(&parse(src));
    assert_eq!(st.resolve("SomeUser").as_deref(), Some(".users.User"));
}

const SIMPLE_MODEL: &str = r#"
from sqlalchemy.orm import DeclarativeBase, Mapped, mapped_column
from sqlalchemy import Integer, String

class Base(DeclarativeBase):
    pass

class User(Base):
    __tablename__ = "users"
    id: Mapped[int] = mapped_column(Integer, primary_key=True)
    name: Mapped[str] = mapped_column(String(120))
"#;

#[test]
fn extract_simple_model() {
    let models = extract_models(&parse(SIMPLE_MODEL));
    assert_eq!(models.len(), 1);
    let m = &models[0];
    assert_eq!(m.name, "User");
    assert_eq!(m.table_name.as_deref(), Some("users"));
    assert!(m.columns.contains_key("id"));
    assert!(m.columns.contains_key("name"));
}

#[test]
fn extract_base_not_a_model() {
    let models = extract_models(&parse(SIMPLE_MODEL));
    assert!(!models.iter().any(|m| m.name == "Base"));
}

#[test]
fn column_primary_key_flag() {
    let models = extract_models(&parse(SIMPLE_MODEL));
    let col = models[0].columns.get("id").unwrap();
    assert!(col.args.primary_key);
}

#[test]
fn column_nullability_inferred() {
    let src = r#"
from sqlalchemy.orm import DeclarativeBase, Mapped, mapped_column
from sqlalchemy import Integer, String
class Base(DeclarativeBase): pass
class Post(Base):
    __tablename__ = "posts"
    id: Mapped[int] = mapped_column(Integer, primary_key=True)
    title: Mapped[str] = mapped_column(String)
    body: Mapped[Optional[str]] = mapped_column(String)
"#;
    let models = extract_models(&parse(src));
    let m = &models[0];
    assert!(!m.columns.get("id").unwrap().args.nullable, "int is non-nullable");
    assert!(!m.columns.get("title").unwrap().args.nullable, "str is non-nullable");
    assert!(m.columns.get("body").unwrap().args.nullable, "Optional[str] is nullable");
}

#[test]
fn relationship_extracted() {
    let src = r#"
from sqlalchemy.orm import DeclarativeBase, Mapped, mapped_column, relationship
from typing import List
class Base(DeclarativeBase): pass
class User(Base):
    __tablename__ = "users"
    id: Mapped[int] = mapped_column(primary_key=True)
    posts: Mapped[List["Post"]] = relationship("Post", back_populates="author")
"#;
    let models = extract_models(&parse(src));
    let r = models[0].relationships.get("posts").expect("posts relationship");
    assert_eq!(r.target_model, "Post");
    assert_eq!(r.back_populates.as_deref(), Some("author"));
    assert!(r.is_list);
}

#[test]
fn foreign_key_extracted() {
    let src = r#"
from sqlalchemy.orm import DeclarativeBase, Mapped, mapped_column
from sqlalchemy import Integer, ForeignKey
class Base(DeclarativeBase): pass
class Post(Base):
    __tablename__ = "posts"
    author_id: Mapped[int] = mapped_column(Integer, ForeignKey("users.id"))
"#;
    let models = extract_models(&parse(src));
    let col = models[0].columns.get("author_id").unwrap();
    let fk = col.foreign_key.as_ref().expect("foreign key");
    assert_eq!(fk.table, "users");
    assert_eq!(fk.column, "id");
}

#[test]
fn duplicate_column_tracked() {
    let src = r#"
from sqlalchemy.orm import DeclarativeBase, Mapped, mapped_column
from sqlalchemy import String
class Base(DeclarativeBase): pass
class Post(Base):
    __tablename__ = "posts"
    title: Mapped[str] = mapped_column(String)
    title: Mapped[str] = mapped_column(String(200))
"#;
    let models = extract_models(&parse(src));
    assert_eq!(models[0].duplicate_columns.len(), 1);
    assert_eq!(models[0].duplicate_columns[0].0, "title");
}

#[test]
fn no_models_on_plain_python() {
    let models = extract_models(&parse("x = 1\ndef foo(): pass\n"));
    assert!(models.is_empty());
}

#[test]
fn extracted_ranges_follow_the_source() {
    let models = extract_models(&parse(SIMPLE_MODEL));
    let m = &models[0];
    assert_eq!(m.name_range, rng(7, 6, 7, 10));
    assert_eq!(m.columns.get("id").unwrap().name_range, rng(9, 4, 9, 6));
    assert_eq!(m.bases, vec!["Base".to_string()]);
}
