#![allow(dead_code, unused_imports)]
use sqlalchemy_lsp::state::WorkspaceState;
use sqlalchemy_lsp::strmap::StrMap;
use sqlalchemy_lsp::syntax::SyntaxNode;
use sqlalchemy_lsp::types::{Column, ColumnArgs, ForeignKeyRef, MappedType, Model, Position, Range, Relationship};

fn uri(s: &str) -> String {
    s.to_string()
}

fn rng(sl: u32, sc: u32, el: u32, ec: u32) -> Range {
    Range { start_line: sl, start_col: sc, end_line: el, end_col: ec }
}

fn pos(line: u32, character: u32) -> Position {
    Position { line, character }
}

fn simple_col(name: &str, r: Range) -> Column {
    Column {
        name: name.to_string(),
        key: None,
        mapped_type: MappedType::Int,
        args: ColumnArgs::default(),
        foreign_key: None,
        doc: None,
        name_range: r,
        full_range: r,
    }
}

fn fk_col(name: &str, r: Range, table: &str, column: &str, fk_r: Range) -> Column {
    let mut c = simple_col(name, r);
    c.foreign_key = Some(ForeignKeyRef {
        table: table.to_string(),
        column: column.to_string(),
        raw_text: format!("{table}.{column}"),
        range: fk_r,
    });
    c
}

fn model(name: &str, table: Option<&str>, name_r: Range) -> Model {
    Model {
        name: name.to_string(),
        table_name: table.map(|t| t.to_string()),
        bases: vec![],
        columns: StrMap::new(),
        relationships: StrMap::new(),
        table_args: vec![],
        duplicate_columns: vec![],
        docstring: None,
        name_range: name_r,
        full_range: rng(0, 0, 30, 0),
    }
}

fn rel(name: &str, target: &str, name_r: Range) -> Relationship {
    Relationship {
        name: name.to_string(),
        target_model: target.to_string(),
        explicit_target: None,
        back_populates: None,
        lazy: None,
        uselist: None,
        secondary: None,
        cascade: None,
        is_list: false,
        backref: None,
        remote_side: false,
        has_foreign_keys: false,
        viewonly: None,
        name_range: name_r,
        full_range: name_r,
        target_range: None,
        back_populates_range: None,
        cascade_range: None,
    }
}

fn to_syntax(node: tree_sitter::Node, source: &[u8], field: Option<&str>) -> SyntaxNode {
    let mut children = Vec::new();
    for i in 0..node.child_count() {
        if let Some(child) = node.child(i) {
            children.push(to_syntax(child, source, node.field_name_for_child(i as u32)));
        }
    }
    SyntaxNode {
        kind: node.kind().to_string(),
        field: field.map(|f| f.to_string()),
        named: node.is_named(),
        text: std::str::from_utf8(&source[node.start_byte()..node.end_byte()]).unwrap_or("").to_string(),
        range: Range {
            start_line: node.start_position().row as u32,
            start_col: node.start_position().column as u32,
            end_line: node.end_position().row as u32,
            end_col: node.end_position().column as u32,
        },
        start_byte: node.start_byte(),
        end_byte: node.end_byte(),
        children,
    }
}

fn parse(source: &str) -> SyntaxNode {
    let mut parser = tree_sitter::Parser::new();
    parser.set_language(&tree_sitter_python::LANGUAGE.into()).unwrap();
    let tree = parser.parse(source, None).unwrap();
    to_syntax(tree.root_node(), source.as_bytes(), None)
}

fn add(state: &mut WorkspaceState, u: &str, models: Vec<Model>) {
    state.update_file(&u.to_string(), models);
}

use sqlalchemy_lsp::alembic::{ColumnRef, DownRevision, MigrationFile, OpCall, TableRef};
use sqlalchemy_lsp::definition::resolve_definition;
use sqlalchemy_lsp::types::TableArg;

#[test]
fn req_def_01_fk_resolves_to_column() {
    let mut state = WorkspaceState::new();
    let user_u = uri("file:///user.py");
    let mut user = model("User", Some("users"), rng(0, 6, 0, 10));
    user.columns.insert("id".into(), simple_col("id", rng(5, 4, 5, 6)));
    add(&mut state, &user_u, vec![user]);
    let post_u = uri("file:///post.py");
    let mut post = model("Post", Some("posts"), rng(0, 6, 0, 10));
    post.columns.insert("author_id".into(), fk_col("author_id", rng(3, 4, 3, 13), "users", "id", rng(3, 30, 3, 45)));
    add(&mut state, &post_u, vec![post]);
    let loc = resolve_definition(&post_u, "", pos(3, 35), &state).unwrap();
    assert_eq!(loc.uri, user_u);
    assert_eq!(loc.range.start_line, 5);
}

#[test]
fn req_def_02_fk_column_missing_falls_back_to_model() {
    let mut state = WorkspaceState::new();
    let user_u = uri("file:///user.py");
    add(&mut state, &user_u, vec![model("User", Some("users"), rng(0, 6, 0, 10))]);
    let post_u = uri("file:///post.py");
    let mut post = model("Post", Some("posts"), rng(0, 6, 0, 10));
    post.columns.insert("x_id".into(), fk_col("x_id", rng(3, 4, 3, 8), "users", "missing_col", rng(3, 30, 3, 50)));
    add(&mut state, &post_u, vec![post]);
    let loc = resolve_definition(&post_u, "", pos(3, 35), &state).unwrap();
    assert_eq!(loc.uri, user_u);
    assert_eq!(loc.range.start_line, 0);
}

#[test]
fn req_def_03_relationship_target_resolves_to_model() {
    let mut state = WorkspaceState::new();
    let user_u = uri("file:///user.py");
    add(&mut state, &user_u, vec![model("User", Some("users"), rng(0, 6, 0, 10))]);
    let post_u = uri("file:///post.py");
    let mut r = rel("author", "User", rng(6, 4, 6, 10));
    r.full_range = rng(6, 0, 6, 50);
    r.target_range = Some(rng(6, 22, 6, 28));
    let mut post = model("Post", Some("posts"), rng(0, 6, 0, 10));
    post.relationships.insert("author".into(), r);
    add(&mut state, &post_u, vec![post]);
    let loc = resolve_definition(&post_u, "", pos(6, 24), &state).unwrap();
    assert_eq!(loc.uri, user_u);
}

#[test]
fn req_def_04_back_populates_resolves_to_counterpart() {
    let mut state = WorkspaceState::new();
    let user_u = uri("file:///user.py");
    let mut user = model("User", Some("users"), rng(0, 6, 0, 10));
    let mut posts = rel("posts", "Post", rng(8, 4, 8, 9));
    posts.back_populates = Some("author".into());
    posts.is_list = true;
    posts.full_range = rng(8, 0, 8, 50);
    user.relationships.insert("posts".into(), posts);
    add(&mut state, &user_u, vec![user]);
    let post_u = uri("file:///post.py");
    let mut r = rel("author", "User", rng(6, 4, 6, 10));
    r.back_populates = Some("posts".into());
    r.full_range = rng(6, 0, 6, 60);
    r.back_populates_range = Some(rng(6, 30, 6, 38));
    let mut post = model("Post", Some("posts"), rng(0, 6, 0, 10));
    post.relationships.insert("author".into(), r);
    add(&mut state, &post_u, vec![post]);
    let loc = resolve_definition(&post_u, "", pos(6, 34), &state).unwrap();
    assert_eq!(loc.uri, user_u);
    assert_eq!(loc.range.start_line, 8);
}

#[test]
fn req_def_05_table_arg_col_string_resolves_to_column() {
    let mut state = WorkspaceState::new();
    let u = uri("file:///user.py");
    let ta = TableArg {
        kind: "Index".into(),
        columns: vec!["email".into()],
        column_ranges: vec![rng(3, 30, 3, 36)],
        full_range: rng(10, 0, 10, 50),
        name: Some("ix_users_email".into()),
    };
    let mut m = model("User", Some("users"), rng(0, 6, 0, 10));
    m.columns.insert("email".into(), simple_col("email", rng(4, 4, 4, 9)));
    m.table_args = vec![ta];
    add(&mut state, &u, vec![m]);
    let loc = resolve_definition(&u, "", pos(3, 32), &state).unwrap();
    assert_eq!(loc.uri, u);
    assert_eq!(loc.range.start_line, 4);
}

#[test]
fn req_def_09_unresolved_fk_returns_none() {
    let mut state = WorkspaceState::new();
    let post_u = uri("file:///post.py");
    let mut post = model("Post", Some("posts"), rng(0, 6, 0, 10));
    post.columns.insert("ref_id".into(), fk_col("ref_id", rng(3, 4, 3, 10), "ghost_table", "id", rng(3, 30, 3, 50)));
    add(&mut state, &post_u, vec![post]);
    assert!(resolve_definition(&post_u, "", pos(3, 35), &state).is_none());
}

#[test]
fn req_def_10_no_sa_construct_returns_none() {
    let state = WorkspaceState::new();
    let u = uri("file:///plain.py");
    assert!(resolve_definition(&u, "", pos(0, 5), &state).is_none());
}

#[test]
fn req_def_08_class_name_in_definition_resolves() {
    let source = "from sqlalchemy.orm import DeclarativeBase\n\nclass Base(DeclarativeBase):\n    pass\n\nclass Address(Base):\n    __tablename__ = \"addresses\"\n";
    let mut state = WorkspaceState::new();
    let u = uri("file:///address.py");
    add(&mut state, &u, vec![model("Address", Some("addresses"), rng(5, 6, 5, 13))]);
    state.parse_trees.insert(u.clone(), parse(source));
    state.file_sources.insert(u.clone(), source.to_string());
    let loc = resolve_definition(&u, "", pos(5, 9), &state).unwrap();
    assert_eq!(loc.uri, u);
    assert_eq!(loc.range.start_line, 5);
    assert_eq!(loc.range.start_col, 6);
}

#[test]
fn req_def_08_mapped_type_annotation_resolves() {
    let source = "from sqlalchemy.orm import Mapped, mapped_column\n\nclass User(Base):\n    __tablename__ = \"users\"\n    addr: Mapped[Address]\n";
    let mut state = WorkspaceState::new();
    let addr_u = uri("file:///address.py");
    add(&mut state, &addr_u, vec![model("Address", Some("addresses"), rng(0, 6, 0, 13))]);
    let user_u = uri("file:///user.py");
    add(&mut state, &user_u, vec![model("User", Some("users"), rng(0, 6, 0, 10))]);
    state.parse_trees.insert(user_u.clone(), parse(source));
    state.file_sources.insert(user_u.clone(), source.to_string());
    let loc = resolve_definition(&user_u, "", pos(4, 20), &state).unwrap();
    assert_eq!(loc.uri, addr_u);
    assert_eq!(loc.range.start_line, 0);
    assert_eq!(loc.range.start_col, 6);
}

#[test]
fn definition_in_migration_resolves_table_and_column() {
    let mut state = WorkspaceState::new();
    let user_u = uri("file:///user.py");
    let mut user = model("User", Some("users"), rng(0, 6, 0, 10));
    user.columns.insert("email".into(), simple_col("email", rng(2, 4, 2, 9)));
    add(&mut state, &user_u, vec![user]);
    let mig_u = uri("file:///versions/a1.py");
    let op = OpCall {
        operation: "drop_column".into(),
        full_range: rng(5, 4, 5, 40),
        table_name: Some(TableRef { name: "users".into(), range: rng(4, 19, 4, 26) }),
        column_name: Some(ColumnRef { name: "email".into(), range: rng(5, 28, 5, 35) }),
        null_constraint_name_range: None,
    };
    let mf = MigrationFile {
        revision: Some("a1".into()),
        down_revision: DownRevision::Root,
        message: None,
        revision_range: None,
        down_revision_range: None,
        op_calls: vec![op],
    };
    state.update_migration(&mig_u, mf);
    let t = resolve_definition(&mig_u, "", pos(4, 20), &state).unwrap();
    assert_eq!(t.uri, user_u);
    assert_eq!(t.range.start_line, 0);
    let c = resolve_definition(&mig_u, "", pos(5, 30), &state).unwrap();
    assert_eq!(c.range.start_line, 2);
    assert!(resolve_definition(&mig_u, "", pos(9, 0), &state).is_none());
}
