#![allow(dead_code, unused_imports)]
use sqlalchemy_lsp::state::WorkspaceState;
use sqlalchemy_lsp::strmap::StrMap;
use sqlalchemy_lsp::syntax::SyntaxNode;
use sqlalchemy_lsp::types::{Column, ColumnArgs, ForeignKeyRef, MappedType, Model, Position, Range, Relationship};

fn uri(s: &str) -> String {
    s.to_string()
}

fn rng(sl: u32, sc: u32, el: u32, ec: u32) -> Range {
    Range { start_line: sl, start_col: sc, end_line: el, end_col: ec }
}

fn pos(line: u32, character: u32) -> Position {
    Position { line, character }
}

fn simple_col(name: &str, r: Range) -> Column {
    Column {
        name: name.to_string(),
        key: None,
        mapped_type: MappedType::Int,
        args: ColumnArgs::default(),
        foreign_key: None,
        doc: None,
        name_range: r,
        full_range: r,
    }
}

fn fk_col(name: &str, r: Range, table: &str, column: &str, fk_r: Range) -> Column {
    let mut c = simple_col(name, r);
    c.foreign_key = Some(ForeignKeyRef {
        table: table.to_string(),
        column: column.to_string(),
        raw_text: format!("{table}.{column}"),
        range: fk_r,
    });
    c
}

fn model(name: &str, table: Option<&str>, name_r: Range) -> Model {
    Model {
        name: name.to_string(),
        table_name: table.map(|t| t.to_string()),
        bases: vec![],
        columns: StrMap::new(),
        relationships: StrMap::new(),
        table_args: vec![],
        duplicate_columns: vec![],
        docstring: None,
        name_range: name_r,
        full_range: rng(0, 0, 30, 0),
    }
}

fn rel(name: &str, target: &str, name_r: Range) -> Relationship {
    Relationship {
        name: name.to_string(),
        target_model: target.to_string(),
        explicit_target: None,
        back_populates: None,
        lazy: None,
        uselist: None,
        secondary: None,
        cascade: None,
        is_list: false,
        backref: None,
        remote_side: false,
        has_foreign_keys: false,
        viewonly: None,
        name_range: name_r,
        full_range: name_r,
        target_range: None,
        back_populates_range: None,
        cascade_range: None,
    }
}

fn to_syntax(node: tree_sitter::Node, source: &[u8], field: Option<&str>) -> SyntaxNode {
    let mut children = Vec::new();
    for i in 0..node.child_count() {
        if let Some(child) = node.child(i) {
            children.push(to_syntax(child, source, node.field_name_for_child(i as u32)));
        }
    }
    SyntaxNode {
        kind: node.kind().to_string(),
        field: field.map(|f| f.to_string()),
        named: node.is_named(),
        text: std::str::from_utf8(&source[node.start_byte()..node.end_byte()]).unwrap_or("").to_string(),
        range: Range {
            start_line: node.start_position().row as u32,
            start_col: node.start_position().column as u32,
            end_line: node.end_position().row as u32,
            end_col: node.end_position().column as u32,
        },
        start_byte: node.start_byte(),
        end_byte: node.end_byte(),
        children,
    }
}

fn parse(source: &str) -> SyntaxNode {
    let mut parser = tree_sitter::Parser::new();
    parser.set_language(&tree_sitter_python::LANGUAGE.into()).unwrap();
    let tree = parser.parse(source, None).unwrap();
    to_syntax(tree.root_node(), source.as_bytes(), None)
}

fn add(state: &mut WorkspaceState, u: &str, models: Vec<Model>) {
    state.update_file(&u.to_string(), models);
}

use sqlalchemy_lsp::hover::provide_hover;

fn hover_col(name: &str) -> Column {
    let mut c = simple_col(name, rng(5, 4, 5, 6));
    c.full_range = rng(5, 4, 5, 40);
    c
}

fn hover_model_with(name: &str, table: &str, col: Column) -> Model {
    let mut m = model(name, Some(table), rng(0, 6, 0, 10));
    m.full_range = rng(0, 0, 20, 0);
    m.columns.insert(col.name.clone(), col);
    m
}

fn simple_model(name: &str, table: &str, col_name: &str) -> Model {
    hover_model_with(name, table, hover_col(col_name))
}

fn md_at(u: &str, line: u32, ch: u32, state: &WorkspaceState) -> String {
    provide_hover(u, pos(line, ch), state).unwrap().markdown
}

#[test]
fn req_hov_01_no_model_returns_none() {
    let state = WorkspaceState::new();
    assert!(provide_hover("file:///plain.py", pos(5, 4), &state).is_none());
}

#[test]
fn req_hov_09_non_sa_position_returns_none() {
    let mut state = WorkspaceState::new();
    let u = uri("file:///model.py");
    add(&mut state, &u, vec![simple_model("User", "users", "id")]);
    assert!(provide_hover(&u, pos(99, 0), &state).is_none());
}

#[test]
fn req_hov_02_column_card_basic_facts() {
    let mut state = WorkspaceState::new();
    let u = uri("file:///model.py");
    let mut c = hover_col("email");
    c.args.unique = true;
    c.mapped_type = MappedType::Str;
    add(&mut state, &u, vec![hover_model_with("User", "users", c)]);
    let md = md_at(&u, 5, 4, &state);
    assert!(md.contains("User.email"), "{md}");
    assert!(md.contains("users"), "{md}");
    assert!(md.contains("unique"), "{md}");
}

#[test]
fn req_hov_02_aliased_column_shows_db_name() {
    let mut state = WorkspaceState::new();
    let u = uri("file:///model.py");
    let mut c = hover_col("name");
    c.key = Some("full_name".to_string());
    add(&mut state, &u, vec![hover_model_with("User", "users", c)]);
    let md = md_at(&u, 5, 4, &state);
    assert!(md.contains("full_name"), "{md}");
    assert!(md.contains("aliased"), "{md}");
}

fn post_with_fk(col_name: &str, name_r: Range, full_r: Range, table: &str, fk_r: Range) -> Model {
    let mut c = fk_col(col_name, name_r, table, "id", fk_r);
    c.full_range = full_r;
    let mut m = model("Post", Some("posts"), rng(0, 6, 0, 10));
    m.full_range = rng(0, 0, 20, 0);
    m.columns.insert(col_name.to_string(), c);
    m
}

#[test]
fn req_hov_04_fk_string_card_resolved() {
    let mut state = WorkspaceState::new();
    add(&mut state, "file:///user.py", vec![simple_model("User", "users", "id")]);
    let u = uri("file:///post.py");
    add(&mut state, &u, vec![post_with_fk("author_id", rng(3, 4, 3, 13), rng(3, 0, 3, 50), "users", rng(3, 30, 3, 42))]);
    let md = md_at(&u, 3, 35, &state);
    assert!(md.contains("users"), "{md}");
    assert!(md.contains("id"), "{md}");
    assert!(md.contains("User"), "{md}");
}

#[test]
fn req_hov_04_fk_string_unresolved() {
    let mut state = WorkspaceState::new();
    let u = uri("file:///post.py");
    add(&mut state, &u, vec![post_with_fk("ref_id", rng(3, 4, 3, 10), rng(3, 0, 3, 50), "missing_table", rng(3, 30, 3, 45))]);
    let md = md_at(&u, 3, 35, &state);
    assert!(md.contains("not in workspace"), "{md}");
}

#[test]
fn req_hov_05_relationship_card() {
    let mut state = WorkspaceState::new();
    let u = uri("file:///post.py");
    let mut m = simple_model("Post", "posts", "id");
    let mut r = rel("author", "User", rng(6, 4, 6, 10));
    r.back_populates = Some("posts".to_string());
    r.lazy = Some("select".to_string());
    r.full_range = rng(6, 0, 6, 60);
    m.relationships.insert("author".to_string(), r);
    add(&mut state, &u, vec![m]);
    add(&mut state, "file:///user.py", vec![simple_model("User", "users", "id")]);
    let md = md_at(&u, 6, 5, &state);
    assert!(md.contains("relationship"), "{md}");
    assert!(md.contains("User"), "{md}");
    assert!(md.contains("select"), "{md}");
    assert!(md.contains("back_populates"), "{md}");
}

#[test]
fn req_hov_07_back_populates_card() {
    let mut state = WorkspaceState::new();
    let u = uri("file:///post.py");
    let mut user = simple_model("User", "users", "id");
    let mut posts = rel("posts", "Post", rng(8, 4, 8, 9));
    posts.back_populates = Some("author".to_string());
    posts.is_list = true;
    posts.full_range = rng(8, 0, 8, 50);
    user.relationships.insert("posts".to_string(), posts);
    add(&mut state, "file:///user.py", vec![user]);
    let mut post = simple_model("Post", "posts", "id");
    let mut r = rel("author", "User", rng(6, 4, 6, 10));
    r.back_populates = Some("posts".to_string());
    r.full_range = rng(6, 0, 6, 60);
    r.back_populates_range = Some(rng(6, 25, 6, 30));
    post.relationships.insert("author".to_string(), r);
    add(&mut state, &u, vec![post]);
    let md = md_at(&u, 6, 27, &state);
    assert!(md.contains("back_populates"), "{md}");
    assert!(md.contains("User"), "{md}");
    assert!(md.contains("posts"), "{md}");
}

#[test]
fn req_hov_07_back_populates_missing_counterpart() {
    let mut state = WorkspaceState::new();
    let u = uri("file:///post.py");
    add(&mut state, "file:///user.py", vec![simple_model("User", "users", "id")]);
    let mut post = simple_model("Post", "posts", "id");
    let mut r = rel("author", "User", rng(6, 4, 6, 10));
    r.back_populates = Some("posts".to_string());
    r.full_range = rng(6, 0, 6, 60);
    r.back_populates_range = Some(rng(6, 25, 6, 35));
    post.relationships.insert("author".to_string(), r);
    add(&mut state, &u, vec![post]);
    let md = md_at(&u, 6, 27, &state);
    assert!(md.contains("not found"), "{md}");
}

#[test]
fn req_hov_10_model_card_shows_table() {
    let mut state = WorkspaceState::new();
    let u = uri("file:///model.py");
    add(&mut state, &u, vec![simple_model("User", "users", "id")]);
    let md = md_at(&u, 0, 7, &state);
    assert!(md.contains("class User"), "{md}");
    assert!(md.contains("users"), "{md}");
    assert!(md.contains("model"), "{md}");
}

#[test]
fn req_hov_10_model_card_no_tablename() {
    let mut state = WorkspaceState::new();
    let u = uri("file:///model.py");
    let mut m = simple_model("UserBase", "users", "id");
    m.table_name = None;
    add(&mut state, &u, vec![m]);
    let md = md_at(&u, 0, 7, &state);
    assert!(md.contains("no __tablename__"), "{md}");
}

#[test]
fn req_hov_01_fk_string_more_specific_than_col_name() {
    let mut state = WorkspaceState::new();
    let u = uri("file:///post.py");
    add(&mut state, &u, vec![post_with_fk("author_id", rng(3, 4, 3, 13), rng(3, 0, 3, 60), "users", rng(3, 30, 3, 45))]);
    let md = md_at(&u, 3, 35, &state);
    assert!(md.contains("ForeignKey"), "{md}");
    assert!(!md.contains("(column"), "{md}");
}
