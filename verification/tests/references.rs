#![allow(dead_code, unused_imports)]
use sqlalchemy_lsp::state::WorkspaceState;
use sqlalchemy_lsp::strmap::StrMap;
use sqlalchemy_lsp::syntax::SyntaxNode;
use sqlalchemy_lsp::types::{Column, ColumnArgs, ForeignKeyRef, MappedType, Model, Position, Range, Relationship};

fn uri(s: &str) -> String {
    s.to_string()
}

fn rng(sl: u32, sc: u32, el: u32, ec: u32) -> Range {
    Range { start_line: sl, start_col: sc, end_line: el, end_col: ec }
}

fn pos(line: u32, character: u32) -> Position {
    Position { line, character }
}

fn simple_col(name: &str, r: Range) -> Column {
    Column {
        name: name.to_string(),
        key: None,
        mapped_type: MappedType::Int,
        args: ColumnArgs::default(),
        foreign_key: None,
        doc: None,
        name_range: r,
        full_range: r,
    }
}

fn fk_col(name: &str, r: Range, table: &str, column: &str, fk_r: Range) -> Column {
    let mut c = simple_col(name, r);
    c.foreign_key = Some(ForeignKeyRef {
        table: table.to_string(),
        column: column.to_string(),
        raw_text: format!("{table}.{column}"),
        range: fk_r,
    });
    c
}

fn model(name: &str, table: Option<&str>, name_r: Range) -> Model {
    Model {
        name: name.to_string(),
        table_name: table.map(|t| t.to_string()),
        bases: vec![],
        columns: StrMap::new(),
        relationships: StrMap::new(),
        table_args: vec![],
        duplicate_columns: vec![],
        docstring: None,
        name_range: name_r,
        full_range: rng(0, 0, 30, 0),
    }
}

fn rel(name: &str, target: &str, name_r: Range) -> Relationship {
    Relationship {
        name: name.to_string(),
        target_model: target.to_string(),
        explicit_target: None,
        back_populates: None,
        lazy: None,
        uselist: None,
        secondary: None,
        cascade: None,
        is_list: false,
        backref: None,
        remote_side: false,
        has_foreign_keys: false,
        viewonly: None,
        name_range: name_r,
        full_range: name_r,
        target_range: None,
        back_populates_range: None,
        cascade_range: None,
    }
}

fn to_syntax(node: tree_sitter::Node, source: &[u8], field: Option<&str>) -> SyntaxNode {
    let mut children = Vec::new();
    for i in 0..node.child_count() {
        if let Some(child) = node.child(i) {
            children.push(to_syntax(child, source, node.field_name_for_child(i as u32)));
        }
    }
    SyntaxNode {
        kind: node.kind().to_string(),
        field: field.map(|f| f.to_string()),
        named: node.is_named(),
        text: std::str::from_utf8(&source[node.start_byte()..node.end_byte()]).unwrap_or("").to_string(),
        range: Range {
            start_line: node.start_position().row as u32,
            start_col: node.start_position().column as u32,
            end_line: node.end_position().row as u32,
            end_col: node.end_position().column as u32,
        },
        start_byte: node.start_byte(),
        end_byte: node.end_byte(),
        children,
    }
}

fn parse(source: &str) -> SyntaxNode {
    let mut parser = tree_sitter::Parser::new();
    parser.set_language(&tree_sitter_python::LANGUAGE.into()).unwrap();
    let tree = parser.parse(source, None).unwrap();
    to_syntax(tree.root_node(), source.as_bytes(), None)
}

fn add(state: &mut WorkspaceState, u: &str, models: Vec<Model>) {
    state.update_file(&u.to_string(), models);
}

use sqlalchemy_lsp::references::provide_references;

fn bp_rel(name: &str, target: &str, name_r: Range, bp: &str, bp_r: Range) -> Relationship {
    let mut r = rel(name, target, name_r);
    r.back_populates = Some(bp.to_string());
    r.back_populates_range = Some(bp_r);
    r
}

#[test]
fn req_ref_02_fk_on_model_is_reference() {
    let mut state = WorkspaceState::new();
    let user_u = uri("file:///user.py");
    add(&mut state, &user_u, vec![model("User", Some("users"), rng(0, 6, 0, 10))]);
    let post_u = uri("file:///post.py");
    let mut post = model("Post", Some("posts"), rng(0, 6, 0, 10));
    post.columns.insert("author_id".into(), fk_col("author_id", rng(3, 4, 3, 13), "users", "id", rng(3, 30, 3, 45)));
    add(&mut state, &post_u, vec![post]);
    let refs = provide_references(&user_u, pos(0, 7), false, &state);
    assert!(refs.iter().any(|l| l.uri == post_u && l.range.start_line == 3 && l.range.start_col == 30));
}

#[test]
fn req_ref_02_fk_by_class_name_is_reference() {
    let mut state = WorkspaceState::new();
    let user_u = uri("file:///user.py");
    add(&mut state, &user_u, vec![model("User", Some("users"), rng(0, 6, 0, 10))]);
    let post_u = uri("file:///post.py");
    let mut post = model("Post", Some("posts"), rng(0, 6, 0, 10));
    post.columns.insert("author_id".into(), fk_col("author_id", rng(3, 4, 3, 13), "User", "id", rng(3, 30, 3, 43)));
    add(&mut state, &post_u, vec![post]);
    let refs = provide_references(&user_u, pos(0, 7), false, &state);
    assert!(refs.iter().any(|l| l.uri == post_u));
}

#[test]
fn req_ref_03_relationship_target_is_reference() {
    let mut state = WorkspaceState::new();
    let user_u = uri("file:///user.py");
    add(&mut state, &user_u, vec![model("User", Some("users"), rng(0, 6, 0, 10))]);
    let post_u = uri("file:///post.py");
    let mut r = rel("author", "User", rng(6, 4, 6, 10));
    r.target_range = Some(rng(6, 22, 6, 28));
    let mut post = model("Post", Some("posts"), rng(0, 6, 0, 10));
    post.relationships.insert("author".into(), r);
    add(&mut state, &post_u, vec![post]);
    let refs = provide_references(&user_u, pos(0, 7), false, &state);
    assert!(refs.iter().any(|l| l.uri == post_u && l.range.start_line == 6 && l.range.start_col == 22));
}

#[test]
fn req_ref_04_subclass_base_is_reference() {
    let mut state = WorkspaceState::new();
    let base_u = uri("file:///base.py");
    add(&mut state, &base_u, vec![model("Base", Some("base_table"), rng(0, 6, 0, 10))]);
    let child_u = uri("file:///child.py");
    let mut child = model("Child", Some("children"), rng(2, 6, 2, 11));
    child.bases = vec!["Base".into()];
    add(&mut state, &child_u, vec![child]);
    let refs = provide_references(&base_u, pos(0, 7), false, &state);
    assert!(refs.iter().any(|l| l.uri == child_u && l.range.start_line == 2));
}

#[test]
fn req_ref_05_column_refs_match_both_halves() {
    let mut state = WorkspaceState::new();
    let user_u = uri("file:///user.py");
    let mut user = model("User", Some("users"), rng(0, 6, 0, 10));
    user.columns.insert("id".into(), simple_col("id", rng(1, 4, 1, 6)));
    add(&mut state, &user_u, vec![user]);
    let post_u = uri("file:///post.py");
    let mut post = model("Post", Some("posts"), rng(0, 6, 0, 10));
    post.columns.insert("author_id".into(), fk_col("author_id", rng(3, 4, 3, 13), "users", "id", rng(3, 30, 3, 45)));
    post.columns.insert("post_id".into(), fk_col("post_id", rng(4, 4, 4, 11), "posts", "id", rng(4, 30, 4, 42)));
    add(&mut state, &post_u, vec![post]);
    let refs = provide_references(&user_u, pos(1, 5), false, &state);
    assert!(refs.iter().any(|l| l.range.start_line == 3 && l.range.start_col == 30), "should include users.id FK");
    assert!(!refs.iter().any(|l| l.range.start_line == 4), "should NOT include posts.id FK");
}

#[test]
fn req_ref_06_back_populates_is_reference() {
    let mut state = WorkspaceState::new();
    let user_u = uri("file:///user.py");
    let mut user = model("User", Some("users"), rng(0, 6, 0, 10));
    user.relationships.insert("posts".into(), rel("posts", "Post", rng(5, 4, 5, 9)));
    add(&mut state, &user_u, vec![user]);
    let post_u = uri("file:///post.py");
    let mut post = model("Post", Some("posts"), rng(0, 6, 0, 10));
    post.relationships.insert("author".into(), bp_rel("author", "User", rng(6, 4, 6, 10), "posts", rng(6, 30, 6, 38)));
    add(&mut state, &post_u, vec![post]);
    let refs = provide_references(&user_u, pos(5, 6), false, &state);
    assert!(refs.iter().any(|l| l.uri == post_u && l.range.start_line == 6 && l.range.start_col == 30));
}

#[test]
fn req_ref_07_no_references_returns_empty() {
    let mut state = WorkspaceState::new();
    let u = uri("file:///user.py");
    let mut user = model("User", Some("users"), rng(0, 6, 0, 10));
    user.columns.insert("id".into(), simple_col("id", rng(1, 4, 1, 6)));
    add(&mut state, &u, vec![user]);
    let refs = provide_references(&u, pos(1, 5), false, &state);
    assert!(refs.is_empty());
}

#[test]
fn req_ref_08_include_declaration_adds_def_location() {
    let mut state = WorkspaceState::new();
    let user_u = uri("file:///user.py");
    add(&mut state, &user_u, vec![model("User", Some("users"), rng(0, 6, 0, 10))]);
    let refs_with = provide_references(&user_u, pos(0, 7), true, &state);
    assert_eq!(refs_with.len(), 1);
    assert_eq!(refs_with[0].uri, user_u);
    assert_eq!(refs_with[0].range.start_line, 0);
    let refs_without = provide_references(&user_u, pos(0, 7), false, &state);
    assert!(refs_without.is_empty());
}

#[test]
fn req_ref_01_plain_python_returns_empty() {
    let state = WorkspaceState::new();
    let u = uri("file:///plain.py");
    assert!(provide_references(&u, pos(0, 0), false, &state).is_empty());
}

#[test]
fn req_ref_05_no_table_name_returns_empty() {
    let mut state = WorkspaceState::new();
    let u = uri("file:///abstract.py");
    let mut m = model("Abstract", None, rng(0, 6, 0, 14));
    m.full_range = rng(0, 0, 10, 0);
    m.columns.insert("id".into(), simple_col("id", rng(1, 4, 1, 6)));
    add(&mut state, &u, vec![m]);
    let post_u = uri("file:///post.py");
    let mut post = model("Post", Some("posts"), rng(0, 6, 0, 10));
    post.columns.insert("ref_id".into(), fk_col("ref_id", rng(3, 4, 3, 10), "abstract", "id", rng(3, 30, 3, 45)));
    add(&mut state, &post_u, vec![post]);
    assert!(provide_references(&u, pos(1, 5), false, &state).is_empty());
}
