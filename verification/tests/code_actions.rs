use sqlalchemy_lsp::code_action::{provide_code_actions, resolve_code_action, ActionKind, CodeAction};
use sqlalchemy_lsp::diagnostics::{make_diag, LspDiagnostic};
use sqlalchemy_lsp::state::WorkspaceState;
use sqlalchemy_lsp::strmap::StrMap;
use sqlalchemy_lsp::types::{Model, Range, Relationship, Severity};

fn rng(sl: u32, sc: u32, el: u32, ec: u32) -> Range {
    Range { start_line: sl, start_col: sc, end_line: el, end_col: ec }
}

fn dummy_diag(code: &str, range: Range) -> LspDiagnostic {
    make_diag(code, Severity::Warning, String::new(), range)
}

fn rel(name: &str, target: &str, bp: Option<&str>, bp_range: Option<Range>, cascade: Option<&str>, c_range: Option<Range>, r: Range) -> Relationship {
    Relationship {
        name: name.to_string(),
        target_model: target.to_string(),
        explicit_target: None,
        back_populates: bp.map(String::from),
        lazy: None,
        uselist: None,
        secondary: None,
        cascade: cascade.map(String::from),
        is_list: true,
        backref: None,
        remote_side: false,
        has_foreign_keys: false,
        viewonly: None,
        name_range: r,
        full_range: r,
        target_range: None,
        back_populates_range: bp_range,
        cascade_range: c_range,
    }
}

fn base_model(name: &str, table: &str, line: u32) -> Model {
    Model {
        name: name.to_string(),
        table_name: Some(table.to_string()),
        bases: vec![],
        columns: StrMap::new(),
        relationships: StrMap::new(),
        table_args: vec![],
        duplicate_columns: vec![],
        docstring: None,
        name_range: rng(line, 6, line, 6 + name.len() as u32),
        full_range: rng(line, 0, line + 10, 0),
    }
}

fn first(actions: Vec<CodeAction>) -> CodeAction {
    actions.into_iter().next().unwrap()
}

fn post_and_user(state: &mut WorkspaceState, bp: &str, bp_range: Range) {
    let mut post = base_model("Post", "posts", 2);
    post.relationships.insert(
        "author".into(),
        rel("author", "User", Some(bp), Some(bp_range), None, None, rng(4, 0, 4, 60)),
    );
    state.update_file(&"file:///post.py".to_string(), vec![post]);
    let mut user = base_model("User", "users", 0);
    user.relationships.insert("posts".into(), rel("posts", "Post", Some("author"), None, None, None, rng(2, 0, 2, 50)));
    state.update_file(&"file:///user.py".to_string(), vec![user]);
}

#[test]
fn req_ca_03_offered_for_w101() {
    let mut state = WorkspaceState::new();
    let u = "file:///user.py".to_string();
    state.update_file(&u, vec![base_model("User", "users", 5)]);
    state.file_sources.insert(u.clone(), "class User(Base):\n    pass\n".to_string());
    let diag = dummy_diag("SQLA-W101", rng(5, 6, 5, 10));
    let actions = provide_code_actions(&u, rng(5, 6, 5, 10), &[diag], &state);
    assert_eq!(actions.len(), 1);
    let a = &actions[0];
    assert!(a.title.contains("users"), "title: {}", a.title);
    assert!(a.title.contains("__tablename__"));
    assert_eq!(a.kind, ActionKind::QuickFix);
}

#[test]
fn req_ca_03_resolve_inserts_tablename() {
    let mut state = WorkspaceState::new();
    let u = "file:///user.py".to_string();
    state.update_file(&u, vec![base_model("User", "users", 0)]);
    state.file_sources.insert(u.clone(), "class User(Base):\n    id = None\n".to_string());
    let diag = dummy_diag("SQLA-W101", rng(0, 6, 0, 10));
    let actions = provide_code_actions(&u, rng(0, 0, 0, 0), &[diag], &state);
    assert_eq!(actions.len(), 1);
    let resolved = resolve_code_action(first(actions), &state);
    let edit = resolved.edit.expect("edit should be present after resolve");
    let edits = edit.changes.get(&u).unwrap();
    assert_eq!(edits.len(), 1);
    assert!(edits[0].new_text.contains("__tablename__"), "new_text: {}", edits[0].new_text);
    assert!(edits[0].new_text.contains("users"), "new_text: {}", edits[0].new_text);
    assert_eq!(edits[0].range.start_line, 1);
}

#[test]
fn req_ca_04_offered_for_w402() {
    let mut state = WorkspaceState::new();
    post_and_user(&mut state, "wrong_posts", rng(4, 31, 4, 44));
    let diag = dummy_diag("SQLA-W402", rng(4, 31, 4, 44));
    let actions = provide_code_actions("file:///post.py", rng(4, 0, 4, 60), &[diag], &state);
    assert_eq!(actions.len(), 1);
    assert!(actions[0].title.contains("posts"), "title: {}", actions[0].title);
    assert!(actions[0].is_preferred);
}

#[test]
fn req_ca_04_resolve_replaces_string() {
    let mut state = WorkspaceState::new();
    post_and_user(&mut state, "wrong", rng(4, 31, 4, 38));
    let post_uri = "file:///post.py".to_string();
    let src = "class Post(Base):\n    pass\n    author = relationship(\"User\", back_populates=\"wrong\")\n".to_string();
    state.file_sources.insert(post_uri.clone(), src);
    let diag = dummy_diag("SQLA-W402", rng(4, 31, 4, 38));
    let actions = provide_code_actions(&post_uri, rng(4, 0, 4, 60), &[diag], &state);
    let resolved = resolve_code_action(first(actions), &state);
    let edit = resolved.edit.expect("edit");
    let edits = edit.changes.get(&post_uri).unwrap();
    assert!(edits[0].new_text.contains("posts"), "new_text: {}", edits[0].new_text);
}

fn cascade_state(state: &mut WorkspaceState) {
    let mut post = base_model("Post", "posts", 0);
    post.relationships.insert(
        "comments".into(),
        rel("comments", "Comment", None, None, Some("delete-orphan"), Some(rng(3, 28, 3, 44)), rng(3, 0, 3, 60)),
    );
    state.update_file(&"file:///post.py".to_string(), vec![post]);
}

#[test]
fn req_ca_09_offered_for_w409() {
    let mut state = WorkspaceState::new();
    cascade_state(&mut state);
    let diag = dummy_diag("SQLA-W409", rng(3, 28, 3, 44));
    let actions = provide_code_actions("file:///post.py", rng(3, 0, 3, 60), &[diag], &state);
    assert_eq!(actions.len(), 1);
    assert!(actions[0].title.contains("delete-orphan"), "title: {}", actions[0].title);
}

#[test]
fn req_ca_09_resolve_replaces_cascade() {
    let mut state = WorkspaceState::new();
    cascade_state(&mut state);
    let u = "file:///post.py".to_string();
    let src = "class Post(Base):\n    pass\n    pass\n    comments = relationship(\"delete-orphan\")\n".to_string();
    state.file_sources.insert(u.clone(), src);
    let diag = dummy_diag("SQLA-W409", rng(3, 28, 3, 44));
    let actions = provide_code_actions(&u, rng(3, 0, 3, 60), &[diag], &state);
    let resolved = resolve_code_action(first(actions), &state);
    let edit = resolved.edit.expect("edit");
    let edits = edit.changes.get(&u).unwrap();
    assert!(edits[0].new_text.contains("all, delete-orphan"), "new_text: {}", edits[0].new_text);
}

#[test]
fn req_ca_06_offered_for_one_sided_relationship() {
    let mut state = WorkspaceState::new();
    let mut post = base_model("Post", "posts", 0);
    post.relationships.insert("author".into(), rel("author", "User", None, None, None, None, rng(3, 0, 3, 60)));
    state.update_file(&"file:///post.py".to_string(), vec![post]);
    let mut user = base_model("User", "users", 0);
    user.relationships.insert("posts".into(), rel("posts", "Post", Some("author"), None, None, None, rng(2, 0, 2, 50)));
    state.update_file(&"file:///user.py".to_string(), vec![user]);
    let actions = provide_code_actions("file:///post.py", rng(3, 0, 3, 60), &[], &state);
    assert_eq!(actions.len(), 1);
    assert_eq!(actions[0].kind, ActionKind::Refactor);
    assert!(actions[0].title.contains("back_populates"), "title: {}", actions[0].title);
    assert!(actions[0].title.contains("posts"), "title: {}", actions[0].title);
}

#[test]
fn req_ca_06_not_offered_when_already_wired() {
    let mut state = WorkspaceState::new();
    let mut post = base_model("Post", "posts", 0);
    post.relationships.insert(
        "author".into(),
        rel("author", "User", Some("posts"), Some(rng(3, 30, 3, 37)), None, None, rng(3, 0, 3, 60)),
    );
    state.update_file(&"file:///post.py".to_string(), vec![post]);
    let actions = provide_code_actions("file:///post.py", rng(3, 0, 3, 60), &[], &state);
    assert!(actions.is_empty(), "should not offer CA-06 when already wired");
}

#[test]
fn no_fix_for_unfixable_code() {
    let mut state = WorkspaceState::new();
    let u = "file:///user.py".to_string();
    state.update_file(&u, vec![base_model("User", "users", 0)]);
    let diag = dummy_diag("SQLA-W104", rng(0, 0, 0, 10));
    let actions = provide_code_actions(&u, rng(0, 0, 0, 10), &[diag], &state);
    assert!(actions.is_empty());
}
