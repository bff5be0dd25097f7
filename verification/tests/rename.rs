#![allow(unused_mut)]
use sqlalchemy_lsp::rename::{compute_rename, prepare_rename};
use sqlalchemy_lsp::state::WorkspaceState;
use sqlalchemy_lsp::strmap::StrMap;
use sqlalchemy_lsp::types::{Column, ColumnArgs, ForeignKeyRef, MappedType, Model, Position, Range, Relationship};

fn rng(sl: u32, sc: u32, el: u32, ec: u32) -> Range {
    Range { start_line: sl, start_col: sc, end_line: el, end_col: ec }
}

fn pos(line: u32, ch: u32) -> Position {
    Position { line, character: ch }
}

fn simple_col(name: &str, name_rng: Range) -> Column {
    Column {
        name: name.to_string(),
        key: None,
        mapped_type: MappedType::Int,
        args: ColumnArgs::default(),
        foreign_key: None,
        doc: None,
        name_range: name_rng,
        full_range: name_rng,
    }
}

fn fk_col(name: &str, name_rng: Range, fk_table: &str, fk_col_name: &str, fk_rng: Range) -> Column {
    Column {
        name: name.to_string(),
        key: None,
        mapped_type: MappedType::Int,
        args: ColumnArgs::default(),
        foreign_key: Some(ForeignKeyRef {
            table: fk_table.to_string(),
            column: fk_col_name.to_string(),
            raw_text: format!("{fk_table}.{fk_col_name}"),
            range: fk_rng,
        }),
        doc: None,
        name_range: name_rng,
        full_range: name_rng,
    }
}

fn simple_model(name: &str, table: Option<&str>, name_rng: Range) -> Model {
    Model {
        name: name.to_string(),
        table_name: table.map(|t| t.to_string()),
        bases: vec![],
        columns: StrMap::new(),
        relationships: StrMap::new(),
        table_args: vec![],
        duplicate_columns: vec![],
        docstring: None,
        name_range: name_rng,
        full_range: rng(0, 0, 30, 0),
    }
}

fn bp_rel(name: &str, target: &str, name_rng: Range, bp: &str, bp_rng: Range) -> Relationship {
    Relationship {
        name: name.to_string(),
        target_model: target.to_string(),
        explicit_target: None,
        back_populates: Some(bp.to_string()),
        lazy: None,
        uselist: None,
        secondary: None,
        cascade: None,
        is_list: false,
        backref: None,
        remote_side: false,
        has_foreign_keys: false,
        viewonly: None,
        name_range: name_rng,
        full_range: name_rng,
        target_range: None,
        back_populates_range: Some(bp_rng),
        cascade_range: None,
    }
}

fn target_rel(name: &str, target: &str, name_rng: Range, target_rng: Range) -> Relationship {
    Relationship {
        name: name.to_string(),
        target_model: target.to_string(),
        explicit_target: None,
        back_populates: None,
        lazy: None,
        uselist: None,
        secondary: None,
        cascade: None,
        is_list: false,
        backref: None,
        remote_side: false,
        has_foreign_keys: false,
        viewonly: None,
        name_range: name_rng,
        full_range: name_rng,
        target_range: Some(target_rng),
        back_populates_range: None,
        cascade_range: None,
    }
}

// ── REQ-RN-01: prepareRename returns range + placeholder ──────────────────

#[test]
fn req_rn_01_prepare_rename_on_model() {
    let mut state = WorkspaceState::new();
    let u = "file:///user.py".to_string();
    let user = simple_model("User", Some("users"), rng(0, 6, 0, 10));
    state.update_file(&u, vec![user]);

    let resp = prepare_rename(&u, pos(0, 7), &state).unwrap();
    let (range, placeholder) = resp;
    assert_eq!(placeholder, "User");
    assert_eq!(range.start_line, 0);
}

// ── REQ-RN-02: prepareRename returns None on plain Python ─────────────────

#[test]
fn req_rn_02_prepare_rename_no_symbol() {
    let mut state = WorkspaceState::new();
    let u = "file:///plain.py".to_string();
    assert!(prepare_rename(&u, pos(0, 5), &state).is_none());
}

// ── REQ-RN-03: renaming model rewrites class + FK + relationship target ────

#[test]
fn req_rn_03_model_rename_rewrites_class_fk_and_rel() {
    let mut state = WorkspaceState::new();

    let user_u = "file:///user.py".to_string();
    let user = simple_model("User", Some("users"), rng(0, 6, 0, 10));
    state.update_file(&user_u, vec![user]);
    state
        .file_sources
        .insert(user_u.clone(), "class User:\n".to_string());

    let post_u = "file:///post.py".to_string();
    let fk_rng = rng(3, 30, 3, 42);
    // source for post: the FK starts with "
    let post_src = "class Post:\n    author_id: int\n    author: rel\n    author_id = mapped_column(ForeignKey(\"users.id\"))\n";
    state
        .file_sources
        .insert(post_u.clone(), post_src.to_string());

    let col = fk_col("author_id", rng(3, 4, 3, 13), "users", "id", fk_rng);
    let target_rng = rng(2, 20, 2, 26);
    let rel = target_rel("author", "User", rng(2, 4, 2, 10), target_rng);
    let mut post = simple_model("Post", Some("posts"), rng(0, 6, 0, 10));
    post.columns.insert("author_id".into(), col);
    post.relationships.insert("author".into(), rel);
    state.update_file(&post_u, vec![post]);

    let edit = compute_rename(&user_u, pos(0, 7), "Account", &state).unwrap();
    let changes = edit.changes;

    // Declaration rewritten
    let user_edits = changes.get(&user_u).unwrap();
    assert!(user_edits.iter().any(|e| e.new_text == "Account"));

    // FK rewritten (table half only)
    let post_edits = changes.get(&post_u).unwrap();
    assert!(
        post_edits
            .iter()
            .any(|e| e.new_text.contains("account") && e.new_text.contains(".id"))
    );

    // Relationship target rewritten
    assert!(post_edits.iter().any(|e| e.new_text.contains("Account")));
}

// ── REQ-RN-04: FK rewrite preserves column half ───────────────────────────

#[test]
fn req_rn_04_fk_rewrite_preserves_column() {
    let mut state = WorkspaceState::new();

    let user_u = "file:///user.py".to_string();
    let user = simple_model("User", Some("users"), rng(0, 6, 0, 10));
    state.update_file(&user_u, vec![user]);
    state
        .file_sources
        .insert(user_u.clone(), "class User:\n".to_string());

    let post_u = "file:///post.py".to_string();
    let fk_rng = rng(1, 10, 1, 22);
    state
        .file_sources
        .insert(post_u.clone(), "    col = FK(\"users.id\")\n".to_string());
    let col = fk_col("col", rng(1, 4, 1, 7), "users", "id", fk_rng);
    let mut post = simple_model("Post", Some("posts"), rng(0, 6, 0, 10));
    post.columns.insert("col".into(), col);
    state.update_file(&post_u, vec![post]);

    let edit = compute_rename(&user_u, pos(0, 7), "Account", &state).unwrap();
    let changes = edit.changes;
    let post_edits = changes.get(&post_u).unwrap();
    // The column half "id" must be preserved
    let fk_edit = post_edits.iter().find(|e| e.range.start_line == 1).unwrap();
    assert!(
        fk_edit.new_text.ends_with(".id\""),
        "column half must be preserved, got: {}",
        fk_edit.new_text
    );
}

// ── REQ-RN-05: column rename updates FK column half only ──────────────────

#[test]
fn req_rn_05_column_rename_rewrites_matching_fk() {
    let mut state = WorkspaceState::new();

    let user_u = "file:///user.py".to_string();
    let id_col = simple_col("id", rng(1, 4, 1, 6));
    let mut user = simple_model("User", Some("users"), rng(0, 6, 0, 10));
    user.columns.insert("id".into(), id_col);
    state.update_file(&user_u, vec![user]);
    state
        .file_sources
        .insert(user_u.clone(), "class User:\n    id: int\n".to_string());

    let post_u = "file:///post.py".to_string();
    let fk_rng = rng(1, 10, 1, 22);
    state
        .file_sources
        .insert(post_u.clone(), "    col = FK(\"users.id\")\n".to_string());
    let col = fk_col("col", rng(1, 4, 1, 7), "users", "id", fk_rng);
    let mut post = simple_model("Post", Some("posts"), rng(0, 6, 0, 10));
    post.columns.insert("col".into(), col);
    state.update_file(&post_u, vec![post]);

    let edit = compute_rename(&user_u, pos(1, 5), "user_id", &state).unwrap();
    let changes = edit.changes;

    // Declaration
    let user_edits = changes.get(&user_u).unwrap();
    assert!(user_edits.iter().any(|e| e.new_text == "user_id"));

    // FK column half updated, table half preserved
    let post_edits = changes.get(&post_u).unwrap();
    let fk_edit = post_edits.iter().find(|e| e.range.start_line == 1).unwrap();
    assert!(
        fk_edit.new_text.contains("users."),
        "table half must be preserved"
    );
    assert!(
        fk_edit.new_text.contains("user_id"),
        "column half must be new name"
    );
}

// ── REQ-RN-06: relationship rename rewrites back_populates ────────────────

#[test]
fn req_rn_06_relationship_rename_rewrites_back_populates() {
    let mut state = WorkspaceState::new();

    let user_u = "file:///user.py".to_string();
    let posts_rel = Relationship {
        name: "posts".to_string(),
        target_model: "Post".to_string(),
        explicit_target: None,
                    back_populates: None,
        lazy: None,
        uselist: None,
        secondary: None,
        cascade: None,
        is_list: true,
        backref: None,
        remote_side: false,
        has_foreign_keys: false,
        viewonly: None,
        name_range: rng(5, 4, 5, 9),
        full_range: rng(5, 0, 5, 50),
        target_range: None,
        back_populates_range: None,
        cascade_range: None,
    };
    let mut user = simple_model("User", Some("users"), rng(0, 6, 0, 10));
    user.relationships.insert("posts".into(), posts_rel);
    state.update_file(&user_u, vec![user]);
    state
        .file_sources
        .insert(user_u.clone(), "class User:\n".to_string());

    let post_u = "file:///post.py".to_string();
    let bp_rng = rng(6, 30, 6, 38);
    state.file_sources.insert(
        post_u.clone(),
        "    r = relationship(User, back_populates=\"posts\")\n".to_string(),
    );
    let author_rel = bp_rel("author", "User", rng(6, 4, 6, 10), "posts", bp_rng);
    let mut post = simple_model("Post", Some("posts"), rng(0, 6, 0, 10));
    post.relationships.insert("author".into(), author_rel);
    state.update_file(&post_u, vec![post]);

    let edit = compute_rename(&user_u, pos(5, 6), "articles", &state).unwrap();
    let changes = edit.changes;

    // Declaration
    let user_edits = changes.get(&user_u).unwrap();
    assert!(user_edits.iter().any(|e| e.new_text == "articles"));

    // back_populates value on Post.author
    let post_edits = changes.get(&post_u).unwrap();
    assert!(post_edits.iter().any(|e| e.new_text.contains("articles")));
}

// ── REQ-RN-07: all edits in one WorkspaceEdit ─────────────────────────────

#[test]
fn req_rn_07_single_workspace_edit() {
    let mut state = WorkspaceState::new();
    let u = "file:///user.py".to_string();
    let user = simple_model("User", Some("users"), rng(0, 6, 0, 10));
    state.update_file(&u, vec![user]);
    state
        .file_sources
        .insert(u.clone(), "class User:\n".to_string());

    let edit = compute_rename(&u, pos(0, 7), "Account", &state).unwrap();
    // One WorkspaceEdit returned (not multiple separate calls)
    assert!(edit.changes.get(&u).is_some());
}
