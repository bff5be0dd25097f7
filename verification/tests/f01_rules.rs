#![allow(dead_code, unused_imports)]
use sqlalchemy_lsp::diagnostics::LspDiagnostic;
use sqlalchemy_lsp::f01::check_file;
use sqlalchemy_lsp::state::WorkspaceState;
use sqlalchemy_lsp::strmap::StrMap;
use sqlalchemy_lsp::types::{Column, ColumnArgs, ForeignKeyRef, MappedType, Model, Range, Relationship, TableArg};

fn def_range() -> Range {
    Range { start_line: 0, start_col: 0, end_line: 0, end_col: 10 }
}

fn bare_model(name: &str, table: Option<&str>) -> Model {
    Model {
        name: name.to_string(),
        table_name: table.map(|s| s.to_string()),
        bases: vec!["Base".to_string()],
        columns: StrMap::new(),
        relationships: StrMap::new(),
        table_args: vec![],
        duplicate_columns: vec![],
        docstring: None,
        name_range: def_range(),
        full_range: def_range(),
    }
}

fn args(nullable: bool) -> ColumnArgs {
    ColumnArgs { nullable, ..Default::default() }
}

fn int_col(name: &str) -> Column {
    Column {
        name: name.to_string(),
        key: None,
        mapped_type: MappedType::Int,
        args: args(false),
        foreign_key: None,
        doc: None,
        name_range: def_range(),
        full_range: def_range(),
    }
}

fn fk_col(name: &str, table: &str, col: &str, nullable: bool) -> Column {
    Column {
        name: name.to_string(),
        key: None,
        mapped_type: if nullable { MappedType::Optional(Box::new(MappedType::Int)) } else { MappedType::Int },
        args: args(nullable),
        foreign_key: Some(ForeignKeyRef {
            table: table.to_string(),
            column: col.to_string(),
            raw_text: format!("{table}.{col}"),
            range: def_range(),
        }),
        doc: None,
        name_range: def_range(),
        full_range: def_range(),
    }
}

fn rel(name: &str, target: &str, is_list: bool, back_pop: Option<&str>) -> Relationship {
    Relationship {
        name: name.to_string(),
        target_model: target.to_string(),
        explicit_target: None,
        back_populates: back_pop.map(|s| s.to_string()),
        lazy: None,
        uselist: None,
        secondary: None,
        cascade: None,
        is_list,
        backref: None,
        remote_side: false,
        has_foreign_keys: false,
        viewonly: None,
        name_range: def_range(),
        full_range: def_range(),
        target_range: None,
        back_populates_range: None,
        cascade_range: None,
    }
}

fn populate_state(state: &mut WorkspaceState, uri: &str, models: Vec<Model>) {
    state.update_file(&uri.to_string(), models);
}

fn code(d: &LspDiagnostic) -> &str {
    d.code.as_str()
}

#[test]
fn req_diag_01_missing_tablename_fires_for_concrete() {
    let state = WorkspaceState::new();
    let diags = check_file(&[bare_model("User", None)], &state);
    assert_eq!(diags.len(), 1);
    assert_eq!(code(&diags[0]), "SQLA-W101");
}

#[test]
fn req_diag_01_missing_tablename_silent_for_abstract_base() {
    let state = WorkspaceState::new();
    let mut model = bare_model("Base", None);
    model.bases = vec!["DeclarativeBase".to_string()];
    assert!(check_file(&[model], &state).is_empty());
}

#[test]
fn req_diag_02_duplicate_tablename() {
    let mut state = WorkspaceState::new();
    let m1 = bare_model("User", Some("users"));
    let m2 = bare_model("Account", Some("users"));
    populate_state(&mut state, "file:///a.py", vec![m1.clone()]);
    populate_state(&mut state, "file:///b.py", vec![m2.clone()]);
    let diags = check_file(&[m2], &state);
    assert!(diags.iter().any(|d| code(d) == "SQLA-E102"), "{diags:?}");
}

#[test]
fn req_diag_03_duplicate_column() {
    let state = WorkspaceState::new();
    let mut model = bare_model("Post", Some("posts"));
    model.duplicate_columns.push(("title".to_string(), def_range()));
    let diags = check_file(&[model], &state);
    assert_eq!(code(&diags[0]), "SQLA-E103");
}

#[test]
fn req_diag_04_table_arg_column_not_found() {
    let state = WorkspaceState::new();
    let mut model = bare_model("Post", Some("posts"));
    model.table_args.push(TableArg {
        kind: "Index".to_string(),
        columns: vec!["titel".to_string()],
        column_ranges: vec![def_range()],
        full_range: def_range(),
        name: None,
    });
    model.columns.insert("title".to_string(), int_col("title"));
    let diags = check_file(&[model], &state);
    assert_eq!(code(&diags[0]), "SQLA-E105");
}

#[test]
fn req_diag_05_nullable_not_optional_fires() {
    let state = WorkspaceState::new();
    let mut model = bare_model("Post", Some("posts"));
    let mut col = fk_col("author_id", "users", "id", false);
    col.args.nullable = true;
    col.mapped_type = MappedType::Int;
    model.columns.insert("author_id".to_string(), col);
    let diags = check_file(&[model], &state);
    assert!(diags.iter().any(|d| code(d) == "SQLA-W201"), "{diags:?}");
}

#[test]
fn req_diag_05_nullable_not_optional_silent_for_optional_type() {
    let state = WorkspaceState::new();
    let mut model = bare_model("Post", Some("posts"));
    model.columns.insert("author_id".to_string(), fk_col("author_id", "users", "id", true));
    let diags = check_file(&[model], &state);
    assert!(!diags.iter().any(|d| code(d) == "SQLA-W201"), "{diags:?}");
}

#[test]
fn req_diag_06_unknown_fk_table() {
    let state = WorkspaceState::new();
    let mut model = bare_model("Post", Some("posts"));
    model.columns.insert("author_id".to_string(), fk_col("author_id", "user", "id", false));
    let diags = check_file(&[model], &state);
    assert!(diags.iter().any(|d| code(d) == "SQLA-E301"), "{diags:?}");
}

#[test]
fn req_diag_06_fk_no_false_positive_when_target_indexed() {
    let mut state = WorkspaceState::new();
    populate_state(&mut state, "file:///user.py", vec![bare_model("User", Some("users"))]);
    let mut post = bare_model("Post", Some("posts"));
    post.columns.insert("author_id".to_string(), fk_col("author_id", "users", "id", false));
    let diags = check_file(&[post], &state);
    assert!(!diags.iter().any(|d| code(d) == "SQLA-E301"), "{diags:?}");
}

#[test]
fn req_diag_07_fk_column_not_found() {
    let mut state = WorkspaceState::new();
    let mut user = bare_model("User", Some("users"));
    user.columns.insert("id".to_string(), int_col("id"));
    populate_state(&mut state, "file:///user.py", vec![user]);
    let mut post = bare_model("Post", Some("posts"));
    post.columns.insert("author_id".to_string(), fk_col("author_id", "users", "uuid", false));
    let diags = check_file(&[post], &state);
    assert!(diags.iter().any(|d| code(d) == "SQLA-E302"), "{diags:?}");
}

#[test]
fn req_diag_08_fk_type_mismatch() {
    let mut state = WorkspaceState::new();
    let mut user = bare_model("User", Some("users"));
    let mut uid = int_col("id");
    uid.mapped_type = MappedType::Str;
    user.columns.insert("id".to_string(), uid);
    populate_state(&mut state, "file:///user.py", vec![user]);
    let mut post = bare_model("Post", Some("posts"));
    let mut col = fk_col("author_id", "users", "id", false);
    col.mapped_type = MappedType::Int;
    post.columns.insert("author_id".to_string(), col);
    let diags = check_file(&[post], &state);
    assert!(diags.iter().any(|d| code(d) == "SQLA-W303"), "{diags:?}");
}

#[test]
fn req_diag_08_fk_type_mismatch_silent_for_unknown() {
    let mut state = WorkspaceState::new();
    let mut user = bare_model("User", Some("users"));
    let mut uid = int_col("id");
    uid.mapped_type = MappedType::Unknown("X".to_string());
    user.columns.insert("id".to_string(), uid);
    populate_state(&mut state, "file:///user.py", vec![user]);
    let mut post = bare_model("Post", Some("posts"));
    let mut col = fk_col("author_id", "users", "id", false);
    col.mapped_type = MappedType::Int;
    post.columns.insert("author_id".to_string(), col);
    let diags = check_file(&[post], &state);
    assert!(!diags.iter().any(|d| code(d) == "SQLA-W303"), "{diags:?}");
}

#[test]
fn req_diag_09_rel_target_not_found() {
    let state = WorkspaceState::new();
    let mut model = bare_model("Post", Some("posts"));
    model.relationships.insert("author".to_string(), rel("author", "Ghost", false, None));
    let diags = check_file(&[model], &state);
    assert!(diags.iter().any(|d| code(d) == "SQLA-E401"), "{diags:?}");
}

#[test]
fn req_diag_10_back_populates_mismatch() {
    let mut state = WorkspaceState::new();
    let mut post = bare_model("Post", Some("posts"));
    post.relationships.insert("author".to_string(), rel("author", "User", false, Some("posts")));
    let mut user = bare_model("User", Some("users"));
    user.relationships.insert("posts".to_string(), rel("posts", "Post", true, Some("wrong")));
    populate_state(&mut state, "file:///user.py", vec![user]);
    let diags = check_file(&[post], &state);
    assert!(diags.iter().any(|d| code(d) == "SQLA-W402"), "{diags:?}");
}

#[test]
fn req_diag_11_back_populates_not_found() {
    let mut state = WorkspaceState::new();
    let mut post = bare_model("Post", Some("posts"));
    post.relationships.insert("author".to_string(), rel("author", "User", false, Some("posts")));
    populate_state(&mut state, "file:///user.py", vec![bare_model("User", Some("users"))]);
    let diags = check_file(&[post], &state);
    assert!(diags.iter().any(|d| code(d) == "SQLA-W403"), "{diags:?}");
}

#[test]
fn req_diag_12_uselist_mismatch() {
    let state = WorkspaceState::new();
    let mut model = bare_model("User", Some("users"));
    let mut r = rel("posts", "Post", true, None);
    r.uselist = Some(false);
    model.relationships.insert("posts".to_string(), r);
    let diags = check_file(&[model], &state);
    assert!(diags.iter().any(|d| code(d) == "SQLA-W404"), "{diags:?}");
}

#[test]
fn req_diag_13_target_mismatch() {
    let state = WorkspaceState::new();
    let mut model = bare_model("Post", Some("posts"));
    let mut r = rel("author", "User", false, None);
    r.explicit_target = Some("Account".to_string());
    model.relationships.insert("author".to_string(), r);
    let diags = check_file(&[model], &state);
    assert!(diags.iter().any(|d| code(d) == "SQLA-W405"), "{diags:?}");
}

#[test]
fn req_diag_16_unknown_cascade() {
    let state = WorkspaceState::new();
    let mut model = bare_model("User", Some("users"));
    let mut r = rel("posts", "Post", true, None);
    r.cascade = Some("save-update, explode".to_string());
    model.relationships.insert("posts".to_string(), r);
    let diags = check_file(&[model], &state);
    assert!(diags.iter().any(|d| code(d) == "SQLA-W408"), "{diags:?}");
}

#[test]
fn req_diag_17_orphan_without_delete() {
    let state = WorkspaceState::new();
    let mut model = bare_model("User", Some("users"));
    let mut r = rel("posts", "Post", true, None);
    r.cascade = Some("save-update, delete-orphan".to_string());
    model.relationships.insert("posts".to_string(), r);
    let diags = check_file(&[model], &state);
    assert!(diags.iter().any(|d| code(d) == "SQLA-W409"), "{diags:?}");
}

#[test]
fn req_diag_18_circular_relationship_three_models() {
    let state = WorkspaceState::new();
    let mut a = bare_model("A", Some("a"));
    a.relationships.insert("b".to_string(), rel("b", "B", false, None));
    let mut b = bare_model("B", Some("b_t"));
    b.relationships.insert("c".to_string(), rel("c", "C", false, None));
    let mut c = bare_model("C", Some("c_t"));
    c.relationships.insert("a".to_string(), rel("a", "A", false, None));
    let diags = check_file(&[a, b, c], &state);
    assert!(diags.iter().any(|d| code(d) == "SQLA-H410"), "{diags:?}");
}

#[test]
fn req_diag_18_two_model_loop_silent() {
    let state = WorkspaceState::new();
    let mut a = bare_model("A", Some("a"));
    a.relationships.insert("b".to_string(), rel("b", "B", false, None));
    let mut b = bare_model("B", Some("b_t"));
    b.relationships.insert("a".to_string(), rel("a", "A", false, None));
    let diags = check_file(&[a, b], &state);
    assert!(!diags.iter().any(|d| code(d) == "SQLA-H410"), "{diags:?}");
}

#[test]
fn req_diag_18_back_populates_pair_silent() {
    let state = WorkspaceState::new();
    let mut user = bare_model("User", Some("users"));
    user.relationships.insert("posts".to_string(), rel("posts", "Post", true, Some("author")));
    let mut post = bare_model("Post", Some("posts"));
    post.relationships.insert("author".to_string(), rel("author", "User", false, Some("posts")));
    let diags = check_file(&[user, post], &state);
    assert!(!diags.iter().any(|d| code(d) == "SQLA-H410"), "{diags:?}");
}

fn rel_at(name: &str, target: &str, line: u32) -> Relationship {
    let mut r = rel(name, target, false, None);
    r.name_range = Range { start_line: line, start_col: 4, end_line: line, end_col: 8 };
    r
}

#[test]
fn h410_reports_each_edge_of_the_found_cycle_once_in_search_order() {
    let state = WorkspaceState::new();
    let mut a = bare_model("A", Some("a"));
    a.relationships.insert("b".to_string(), rel_at("b", "B", 1));
    a.relationships.insert("d".to_string(), rel_at("d", "D", 4));
    let mut b = bare_model("B", Some("b_t"));
    b.relationships.insert("c".to_string(), rel_at("c", "C", 2));
    let mut c = bare_model("C", Some("c_t"));
    c.relationships.insert("a".to_string(), rel_at("a", "A", 3));
    let mut d = bare_model("D", Some("d_t"));
    d.relationships.insert("c".to_string(), rel_at("c", "C", 5));
    let diags = check_file(&[a, b, c, d], &state);
    let lines: Vec<u32> = diags
        .iter()
        .filter(|d| code(d) == "SQLA-H410")
        .map(|d| d.range.start_line)
        .collect();
    assert_eq!(lines, vec![1, 2, 3], "{diags:?}");
}
