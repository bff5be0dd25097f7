use sqlalchemy_lsp::schema::{render_schema, run_schema};
use sqlalchemy_lsp::state::WorkspaceState;
use sqlalchemy_lsp::strmap::StrMap;
use sqlalchemy_lsp::types::{Column, ColumnArgs, ForeignKeyRef, MappedType, Model, Range, Relationship};

fn rng(sl: u32, sc: u32, el: u32, ec: u32) -> Range {
    Range { start_line: sl, start_col: sc, end_line: el, end_col: ec }
}

fn mk_col(name: &str, mt: MappedType, pk: bool, fk: Option<(&str, &str)>, uq: bool, nullable: bool, line: u32) -> Column {
    let r = rng(line, 4, line, 40);
    Column {
        name: name.to_string(),
        key: None,
        mapped_type: mt,
        args: ColumnArgs {
            primary_key: pk,
            nullable,
            explicit_nullable_false: false,
            explicit_nullable_true: false,
            unique: uq,
            index: false,
            default: None,
            server_default: None,
        },
        foreign_key: fk.map(|(t, c)| ForeignKeyRef {
            table: t.to_string(),
            column: c.to_string(),
            raw_text: format!("{t}.{c}"),
            range: r,
        }),
        doc: None,
        name_range: r,
        full_range: r,
    }
}

fn mk_rel(name: &str, target: &str, is_list: bool, secondary: Option<&str>, line: u32) -> Relationship {
    let r = rng(line, 4, line, 60);
    Relationship {
        name: name.to_string(),
        target_model: target.to_string(),
        explicit_target: None,
        back_populates: None,
        lazy: None,
        uselist: None,
        secondary: secondary.map(|s| s.to_string()),
        cascade: None,
        is_list,
        backref: None,
        remote_side: false,
        has_foreign_keys: false,
        viewonly: None,
        name_range: r,
        full_range: r,
        target_range: None,
        back_populates_range: None,
        cascade_range: None,
    }
}

fn mk_model(name: &str, table: &str, cols: Vec<Column>, rels: Vec<Relationship>) -> Model {
    let mut columns = StrMap::new();
    for c in cols {
        columns.insert(c.name.clone(), c);
    }
    let mut relationships = StrMap::new();
    for r in rels {
        relationships.insert(r.name.clone(), r);
    }
    Model {
        name: name.to_string(),
        table_name: Some(table.to_string()),
        bases: vec![],
        columns,
        relationships,
        table_args: vec![],
        duplicate_columns: vec![],
        docstring: None,
        name_range: rng(0, 6, 0, 6 + name.len() as u32),
        full_range: rng(0, 0, 20, 0),
    }
}

fn build_state(models: Vec<(Model, &str)>) -> WorkspaceState {
    let mut state = WorkspaceState::new();
    for (model, uri_str) in models {
        state.update_file(&uri_str.to_string(), vec![model]);
    }
    state
}

fn id_col() -> Column {
    mk_col("id", MappedType::Int, true, None, false, false, 1)
}

#[test]
fn req_schema_01_includes_all_models() {
    let user = mk_model("User", "users", vec![id_col()], vec![]);
    let post = mk_model("Post", "posts", vec![id_col()], vec![]);
    let state = build_state(vec![(user, "file:///user.py"), (post, "file:///post.py")]);
    let mmd = render_schema(&state, "mermaid");
    assert!(mmd.contains("USER"), "mermaid: USER");
    assert!(mmd.contains("POST"), "mermaid: POST");
    let gv = render_schema(&state, "graphviz");
    assert!(gv.contains("User ["), "graphviz: User node");
    assert!(gv.contains("Post ["), "graphviz: Post node");
    let ascii = render_schema(&state, "ascii");
    assert!(ascii.contains("User (users)"), "ascii: User");
    assert!(ascii.contains("Post (posts)"), "ascii: Post");
}

#[test]
fn req_schema_02_deterministic_sorted() {
    let alpha = mk_model("Alpha", "alphas", vec![], vec![]);
    let zeta = mk_model("Zeta", "zetas", vec![], vec![]);
    let state = build_state(vec![(zeta, "file:///z.py"), (alpha, "file:///a.py")]);
    let ascii = render_schema(&state, "ascii");
    let pos_alpha = ascii.find("Alpha").unwrap();
    let pos_zeta = ascii.find("Zeta").unwrap();
    assert!(pos_alpha < pos_zeta, "Alpha must appear before Zeta");
    let mmd = render_schema(&state, "mermaid");
    let pos_a = mmd.find("ALPHA").unwrap();
    let pos_z = mmd.find("ZETA").unwrap();
    assert!(pos_a < pos_z, "ALPHA must appear before ZETA in mermaid");
}

#[test]
fn req_schema_07_ascii_markers() {
    let post = mk_model(
        "Post",
        "posts",
        vec![
            id_col(),
            mk_col("author_id", MappedType::Int, false, Some(("users", "id")), false, false, 2),
            mk_col("slug", MappedType::Str, false, None, true, false, 3),
            mk_col("body", MappedType::Str, false, None, false, true, 4),
        ],
        vec![],
    );
    let state = build_state(vec![(post, "file:///post.py")]);
    let ascii = render_schema(&state, "ascii");
    assert!(ascii.contains("[PK,NN]"), "id should have PK,NN");
    assert!(ascii.contains("[FK,NN]"), "author_id should have FK,NN");
    assert!(ascii.contains("[UQ,NN]"), "slug should have UQ,NN");
    assert!(ascii.contains("body: str\n") || ascii.contains("body: str "), "body has no flags");
}

#[test]
fn req_schema_07_mermaid_markers() {
    let model = mk_model(
        "User",
        "users",
        vec![id_col(), mk_col("email", MappedType::Str, false, None, true, false, 2)],
        vec![],
    );
    let state = build_state(vec![(model, "file:///user.py")]);
    let mmd = render_schema(&state, "mermaid");
    assert!(mmd.contains("int id PK"), "id should have PK");
    assert!(mmd.contains("string email UK"), "email should have UK");
}

#[test]
fn req_schema_07_mermaid_m2m_cardinality() {
    let post = mk_model("Post", "posts", vec![id_col()], vec![mk_rel("tags", "Tag", true, Some("post_tags"), 5)]);
    let tag = mk_model("Tag", "tags", vec![id_col()], vec![]);
    let state = build_state(vec![(post, "file:///post.py"), (tag, "file:///tag.py")]);
    let mmd = render_schema(&state, "mermaid");
    assert!(mmd.contains("}o--o{"), "m2m cardinality glyph");
}

#[test]
fn req_schema_07_ascii_m2m_label() {
    let post = mk_model("Post", "posts", vec![id_col()], vec![mk_rel("tags", "Tag", true, Some("post_tags"), 5)]);
    let tag = mk_model("Tag", "tags", vec![id_col()], vec![]);
    let state = build_state(vec![(post, "file:///post.py"), (tag, "file:///tag.py")]);
    let ascii = render_schema(&state, "ascii");
    assert!(ascii.contains("list[Tag] (m2m)"), "m2m label in ascii");
}

#[test]
fn req_schema_08_empty_workspace() {
    let state = WorkspaceState::new();
    assert_eq!(render_schema(&state, "ascii"), "No SQLAlchemy models found in workspace.\n");
    assert!(render_schema(&state, "mermaid").contains("%% No SQLAlchemy models found"));
    assert!(render_schema(&state, "graphviz").contains("// No SQLAlchemy models found"));
}

#[test]
fn req_schema_08_partial_workspace_omits_unresolved() {
    let mut no_table = mk_model("Ghost", "ghost_table", vec![], vec![]);
    no_table.table_name = None;
    let resolved = mk_model("User", "users", vec![], vec![]);
    let mut state = WorkspaceState::new();
    state.update_file(&"file:///ghost.py".to_string(), vec![no_table]);
    state.update_file(&"file:///user.py".to_string(), vec![resolved]);
    let ascii = render_schema(&state, "ascii");
    assert!(ascii.contains("User (users)"), "resolved model present");
    assert!(!ascii.contains("Ghost"), "unresolved model absent");
}

#[test]
fn ascii_foreign_keys_section() {
    let post = mk_model(
        "Post",
        "posts",
        vec![id_col(), mk_col("author_id", MappedType::Int, false, Some(("users", "id")), false, false, 2)],
        vec![],
    );
    let user = mk_model("User", "users", vec![id_col()], vec![]);
    let state = build_state(vec![(post, "file:///post.py"), (user, "file:///user.py")]);
    let ascii = render_schema(&state, "ascii");
    assert!(ascii.contains("Foreign Keys:"), "FK section header");
    assert!(ascii.contains("Post.author_id"), "FK line");
    assert!(ascii.contains("users.id"), "FK target");
}

#[test]
fn unresolved_rel_target_dropped() {
    let post = mk_model("Post", "posts", vec![id_col()], vec![mk_rel("ghost", "GhostModel", false, None, 5)]);
    let state = build_state(vec![(post, "file:///post.py")]);
    let ascii = render_schema(&state, "ascii");
    assert!(!ascii.contains("ghost"), "unresolved rel dropped from ascii");
    let mmd = render_schema(&state, "mermaid");
    assert!(!mmd.contains("GHOSTMODEL"), "unresolved rel dropped from mermaid");
}

#[test]
fn schema_command_prints_the_ascii_schema() {
    let user = mk_model("User", "users", vec![id_col()], vec![]);
    let state = build_state(vec![(user, "file:///user.py")]);
    let (code, text) = run_schema(&state);
    assert_eq!(code, 0);
    assert!(text.contains("User (users)"), "{text}");
    assert_eq!(text, render_schema(&state, "ascii"));
}

#[test]
fn schema_does_not_depend_on_insertion_order() {
    let one = build_state(vec![
        (mk_model("Zeta", "zetas", vec![id_col()], vec![]), "file:///z.py"),
        (mk_model("Alpha", "alphas", vec![id_col()], vec![]), "file:///a.py"),
        (mk_model("Mid", "mids", vec![id_col()], vec![]), "file:///m.py"),
    ]);
    let two = build_state(vec![
        (mk_model("Mid", "mids", vec![id_col()], vec![]), "file:///m.py"),
        (mk_model("Alpha", "alphas", vec![id_col()], vec![]), "file:///a.py"),
        (mk_model("Zeta", "zetas", vec![id_col()], vec![]), "file:///z.py"),
    ]);
    for fmt in ["ascii", "mermaid", "graphviz"] {
        assert_eq!(render_schema(&one, fmt), render_schema(&two, fmt));
    }
}
