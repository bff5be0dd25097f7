#![allow(dead_code, unused_imports)]
use sqlalchemy_lsp::state::WorkspaceState;
use sqlalchemy_lsp::strmap::StrMap;
use sqlalchemy_lsp::syntax::SyntaxNode;
use sqlalchemy_lsp::types::{Column, ColumnArgs, ForeignKeyRef, MappedType, Model, Position, Range, Relationship};

fn uri(s: &str) -> String {
    s.to_string()
}

fn rng(sl: u32, sc: u32, el: u32, ec: u32) -> Range {
    Range { start_line: sl, start_col: sc, end_line: el, end_col: ec }
}

fn pos(line: u32, character: u32) -> Position {
    Position { line, character }
}

fn simple_col(name: &str, r: Range) -> Column {
    Column {
        name: name.to_string(),
        key: None,
        mapped_type: MappedType::Int,
        args: ColumnArgs::default(),
        foreign_key: None,
        doc: None,
        name_range: r,
        full_range: r,
    }
}

fn fk_col(name: &str, r: Range, table: &str, column: &str, fk_r: Range) -> Column {
    let mut c = simple_col(name, r);
    c.foreign_key = Some(ForeignKeyRef {
        table: table.to_string(),
        column: column.to_string(),
        raw_text: format!("{table}.{column}"),
        range: fk_r,
    });
    c
}

fn model(name: &str, table: Option<&str>, name_r: Range) -> Model {
    Model {
        name: name.to_string(),
        table_name: table.map(|t| t.to_string()),
        bases: vec![],
        columns: StrMap::new(),
        relationships: StrMap::new(),
        table_args: vec![],
        duplicate_columns: vec![],
        docstring: None,
        name_range: name_r,
        full_range: rng(0, 0, 30, 0),
    }
}

fn rel(name: &str, target: &str, name_r: Range) -> Relationship {
    Relationship {
        name: name.to_string(),
        target_model: target.to_string(),
        explicit_target: None,
        back_populates: None,
        lazy: None,
        uselist: None,
        secondary: None,
        cascade: None,
        is_list: false,
        backref: None,
        remote_side: false,
        has_foreign_keys: false,
        viewonly: None,
        name_range: name_r,
        full_range: name_r,
        target_range: None,
        back_populates_range: None,
        cascade_range: None,
    }
}

fn to_syntax(node: tree_sitter::Node, source: &[u8], field: Option<&str>) -> SyntaxNode {
    let mut children = Vec::new();
    for i in 0..node.child_count() {
        if let Some(child) = node.child(i) {
            children.push(to_syntax(child, source, node.field_name_for_child(i as u32)));
        }
    }
    SyntaxNode {
        kind: node.kind().to_string(),
        field: field.map(|f| f.to_string()),
        named: node.is_named(),
        text: std::str::from_utf8(&source[node.start_byte()..node.end_byte()]).unwrap_or("").to_string(),
        range: Range {
            start_line: node.start_position().row as u32,
            start_col: node.start_position().column as u32,
            end_line: node.end_position().row as u32,
            end_col: node.end_position().column as u32,
        },
        start_byte: node.start_byte(),
        end_byte: node.end_byte(),
        children,
    }
}

fn parse(source: &str) -> SyntaxNode {
    let mut parser = tree_sitter::Parser::new();
    parser.set_language(&tree_sitter_python::LANGUAGE.into()).unwrap();
    let tree = parser.parse(source, None).unwrap();
    to_syntax(tree.root_node(), source.as_bytes(), None)
}

fn add(state: &mut WorkspaceState, u: &str, models: Vec<Model>) {
    state.update_file(&u.to_string(), models);
}

use sqlalchemy_lsp::inlay_hints::provide_inlay_hints;

fn base_model(name: &str, table: &str, line: u32) -> Model {
    let mut m = model(name, Some(table), rng(line, 6, line, 6 + name.len() as u32));
    m.full_range = rng(line, 0, line + 10, 0);
    m
}

fn hint_fk_col(name: &str, table: &str, column: &str, r: Range) -> Column {
    fk_col(name, r, table, column, r)
}

fn hint_rel(name: &str, target: &str, is_list: bool, secondary: Option<&str>, r: Range) -> Relationship {
    let mut x = rel(name, target, r);
    x.is_list = is_list;
    x.secondary = secondary.map(|s| s.to_string());
    x
}

#[test]
fn req_hint_01_only_in_range() {
    let mut state = WorkspaceState::new();
    let u = uri("file:///post.py");
    add(&mut state, &uri("file:///user.py"), vec![base_model("User", "users", 0)]);
    let mut post = base_model("Post", "posts", 0);
    post.columns.insert("author_id".into(), hint_fk_col("author_id", "users", "id", rng(3, 0, 3, 60)));
    post.columns.insert("title".into(), simple_col("title", rng(10, 0, 10, 40)));
    add(&mut state, &u, vec![post]);
    let hints = provide_inlay_hints(&u, rng(3, 0, 3, 200), &state);
    assert_eq!(hints.len(), 1);
}

#[test]
fn req_hint_01_unresolved_fk_no_hint() {
    let mut state = WorkspaceState::new();
    let u = uri("file:///post.py");
    let mut post = base_model("Post", "posts", 0);
    post.columns.insert("x_id".into(), hint_fk_col("x_id", "unknown_table", "id", rng(3, 0, 3, 60)));
    add(&mut state, &u, vec![post]);
    let hints = provide_inlay_hints(&u, rng(0, 0, 100, 0), &state);
    assert!(hints.is_empty(), "should produce no hint for unresolved FK");
}

#[test]
fn req_hint_02_fk_label() {
    let mut state = WorkspaceState::new();
    let u = uri("file:///post.py");
    add(&mut state, &uri("file:///user.py"), vec![base_model("User", "users", 0)]);
    let mut post = base_model("Post", "posts", 0);
    post.columns.insert("author_id".into(), hint_fk_col("author_id", "users", "id", rng(3, 0, 3, 60)));
    add(&mut state, &u, vec![post]);
    let hints = provide_inlay_hints(&u, rng(0, 0, 100, 0), &state);
    assert_eq!(hints.len(), 1);
    assert_eq!(hints[0].label, "→ User.id");
    assert_eq!(hints[0].tooltip, "Foreign key to User.id");
}

#[test]
fn req_hint_03_cardinality_labels() {
    let mut state = WorkspaceState::new();
    let u = uri("file:///post.py");
    add(&mut state, &uri("file:///user.py"), vec![base_model("User", "users", 0)]);
    add(&mut state, &uri("file:///comment.py"), vec![base_model("Comment", "comments", 0)]);
    add(&mut state, &uri("file:///tag.py"), vec![base_model("Tag", "tags", 0)]);
    let mut post = base_model("Post", "posts", 0);
    post.relationships.insert("author".into(), hint_rel("author", "User", false, None, rng(5, 0, 5, 60)));
    post.relationships.insert("comments".into(), hint_rel("comments", "Comment", true, None, rng(6, 0, 6, 60)));
    post.relationships.insert("tags".into(), hint_rel("tags", "Tag", true, Some("post_tags"), rng(7, 0, 7, 60)));
    add(&mut state, &u, vec![post]);
    let hints = provide_inlay_hints(&u, rng(0, 0, 100, 0), &state);
    assert_eq!(hints.len(), 3);
    let labels: Vec<String> = hints.iter().map(|h| h.label.clone()).collect();
    assert!(labels.iter().any(|l| l == "→ User"), "scalar: {labels:?}");
    assert!(labels.iter().any(|l| l == "list[Comment]"), "collection: {labels:?}");
    assert!(labels.iter().any(|l| l == "list[Tag] (m2m)"), "m2m: {labels:?}");
}

#[test]
fn req_hint_04_position_kind_tooltip() {
    let mut state = WorkspaceState::new();
    let u = uri("file:///post.py");
    add(&mut state, &uri("file:///user.py"), vec![base_model("User", "users", 0)]);
    let mut post = base_model("Post", "posts", 0);
    post.columns.insert("author_id".into(), hint_fk_col("author_id", "users", "id", rng(3, 0, 3, 64)));
    add(&mut state, &u, vec![post]);
    let hints = provide_inlay_hints(&u, rng(0, 0, 100, 0), &state);
    assert_eq!(hints.len(), 1);
    assert_eq!(hints[0].position, Position { line: 3, character: 64 });
    assert!(!hints[0].tooltip.is_empty());
}

#[test]
fn plain_column_no_hint() {
    let mut state = WorkspaceState::new();
    let u = uri("file:///post.py");
    let mut post = base_model("Post", "posts", 0);
    post.columns.insert("title".into(), simple_col("title", rng(2, 0, 2, 40)));
    add(&mut state, &u, vec![post]);
    assert!(provide_inlay_hints(&u, rng(0, 0, 100, 0), &state).is_empty());
}

#[test]
fn unresolved_rel_target_no_hint() {
    let mut state = WorkspaceState::new();
    let u = uri("file:///post.py");
    let mut post = base_model("Post", "posts", 0);
    post.relationships.insert("ghost".into(), hint_rel("ghost", "GhostModel", false, None, rng(4, 0, 4, 60)));
    add(&mut state, &u, vec![post]);
    assert!(provide_inlay_hints(&u, rng(0, 0, 100, 0), &state).is_empty());
}

#[test]
fn relationship_tooltip_names_cardinality() {
    let mut state = WorkspaceState::new();
    let u = uri("file:///post.py");
    add(&mut state, &uri("file:///comment.py"), vec![base_model("Comment", "comments", 0)]);
    let mut post = base_model("Post", "posts", 0);
    post.relationships.insert("comments".into(), hint_rel("comments", "Comment", true, None, rng(6, 0, 6, 60)));
    add(&mut state, &u, vec![post]);
    let hints = provide_inlay_hints(&u, rng(0, 0, 100, 0), &state);
    assert_eq!(hints[0].tooltip, "Relationship to Comment (collection)");
    assert_eq!(hints[0].position, Position { line: 6, character: 60 });
}
