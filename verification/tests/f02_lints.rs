#![allow(unused_mut)]
use sqlalchemy_lsp::diagnostics::LspDiagnostic;
use sqlalchemy_lsp::f02::check_file;
use sqlalchemy_lsp::state::WorkspaceState;
use sqlalchemy_lsp::strmap::StrMap;
use sqlalchemy_lsp::types::{Column, ColumnArgs, ForeignKeyRef, MappedType, Model, Range, Relationship, TableArg};

fn def_range() -> Range {
    Range { start_line: 0, start_col: 0, end_line: 0, end_col: 10 }
}

fn bare_model(name: &str, table: Option<&str>) -> Model {
    Model {
        name: name.to_string(),
        table_name: table.map(|s| s.to_string()),
        bases: vec!["Base".to_string()],
        columns: StrMap::new(),
        relationships: StrMap::new(),
        table_args: vec![],
        duplicate_columns: vec![],
        docstring: None,
        name_range: def_range(),
        full_range: def_range(),
    }
}

fn pk_col(name: &str) -> Column {
    Column {
        name: name.to_string(),
        key: None,
        mapped_type: MappedType::Int,
        args: ColumnArgs {
            primary_key: true,
            nullable: false,
            explicit_nullable_false: false,
            explicit_nullable_true: false,
            unique: false,
            index: false,
            default: None,
            server_default: None,
        },
        foreign_key: None,
        doc: None,
        name_range: def_range(),
        full_range: def_range(),
    }
}

fn plain_col(name: &str) -> Column {
    Column {
        name: name.to_string(),
        key: None,
        mapped_type: MappedType::Str,
        args: ColumnArgs::default(),
        foreign_key: None,
        doc: None,
        name_range: def_range(),
        full_range: def_range(),
    }
}

fn rel(name: &str, target: &str, is_list: bool) -> Relationship {
    Relationship {
        name: name.to_string(),
        target_model: target.to_string(),
        explicit_target: None,
        back_populates: None,
        lazy: None,
        uselist: None,
        secondary: None,
        cascade: None,
        is_list,
        backref: None,
        remote_side: false,
        has_foreign_keys: false,
        viewonly: None,
        name_range: def_range(),
        full_range: def_range(),
        target_range: None,
        back_populates_range: None,
        cascade_range: None,
    }
}

fn code(d: &LspDiagnostic) -> &str {
    d.code.as_str()
}

// ── W104 ──────────────────────────────────────────────────────────────────

#[test]
fn lint_01_missing_primary_key_fires() {
    let mut state = WorkspaceState::new();
    let mut model = bare_model("Tag", Some("tags"));
    model.columns.insert("name".to_string(), plain_col("name")); // no PK
    let diags = check_file(&[model], &state);
    assert!(diags.iter().any(|d| code(d) == "SQLA-W104"), "{diags:?}");
}

#[test]
fn lint_01_missing_primary_key_silent_with_pk_col() {
    let mut state = WorkspaceState::new();
    let mut model = bare_model("Tag", Some("tags"));
    model.columns.insert("id".to_string(), pk_col("id"));
    let diags = check_file(&[model], &state);
    assert!(!diags.iter().any(|d| code(d) == "SQLA-W104"), "{diags:?}");
}

#[test]
fn lint_01_missing_primary_key_silent_with_pk_constraint() {
    let mut state = WorkspaceState::new();
    let mut model = bare_model("Tag", Some("tags"));
    model.columns.insert("name".to_string(), plain_col("name"));
    model.table_args.push(TableArg {
        kind: "PrimaryKeyConstraint".to_string(),
        columns: vec!["name".to_string()],
        column_ranges: vec![def_range()],
        full_range: def_range(),
        name: None,
    });
    let diags = check_file(&[model], &state);
    assert!(!diags.iter().any(|d| code(d) == "SQLA-W104"), "{diags:?}");
}

// ── H106 ──────────────────────────────────────────────────────────────────

#[test]
fn lint_03_unnamed_constraint_fires() {
    let mut state = WorkspaceState::new();
    let mut model = bare_model("Post", Some("posts"));
    model.columns.insert("id".to_string(), pk_col("id"));
    model.table_args.push(TableArg {
        kind: "UniqueConstraint".to_string(),
        columns: vec!["title".to_string()],
        column_ranges: vec![def_range()],
        full_range: def_range(),
        name: None,
    });
    let diags = check_file(&[model], &state);
    assert!(diags.iter().any(|d| code(d) == "SQLA-H106"), "{diags:?}");
}

#[test]
fn lint_03_unnamed_constraint_silent_when_named() {
    let mut state = WorkspaceState::new();
    let mut model = bare_model("Post", Some("posts"));
    model.columns.insert("id".to_string(), pk_col("id"));
    model.table_args.push(TableArg {
        kind: "UniqueConstraint".to_string(),
        columns: vec!["title".to_string()],
        column_ranges: vec![def_range()],
        full_range: def_range(),
        name: Some("uq_posts_title".to_string()),
    });
    let diags = check_file(&[model], &state);
    assert!(!diags.iter().any(|d| code(d) == "SQLA-H106"), "{diags:?}");
}

// ── H202 ──────────────────────────────────────────────────────────────────

#[test]
fn lint_05_optional_without_nullable_fires() {
    let mut state = WorkspaceState::new();
    let mut model = bare_model("User", Some("users"));
    model.columns.insert("id".to_string(), pk_col("id"));
    let mut col = plain_col("bio");
    col.mapped_type = MappedType::Optional(Box::new(MappedType::Str));
    col.args.nullable = false;
    col.args.explicit_nullable_false = true;
    model.columns.insert("bio".to_string(), col);
    let diags = check_file(&[model], &state);
    assert!(diags.iter().any(|d| code(d) == "SQLA-H202"), "{diags:?}");
}

// ── W203 ──────────────────────────────────────────────────────────────────

#[test]
fn lint_06_mutable_default_fires_for_list_literal() {
    let mut state = WorkspaceState::new();
    let mut model = bare_model("Post", Some("posts"));
    model.columns.insert("id".to_string(), pk_col("id"));
    let mut col = plain_col("tags_cache");
    col.args.default = Some("[]".to_string());
    model.columns.insert("tags_cache".to_string(), col);
    let diags = check_file(&[model], &state);
    assert!(diags.iter().any(|d| code(d) == "SQLA-W203"), "{diags:?}");
}

#[test]
fn lint_06_mutable_default_silent_for_callable() {
    let mut state = WorkspaceState::new();
    let mut model = bare_model("Post", Some("posts"));
    model.columns.insert("id".to_string(), pk_col("id"));
    let mut col = plain_col("tags_cache");
    col.args.default = Some("list".to_string());
    model.columns.insert("tags_cache".to_string(), col);
    let diags = check_file(&[model], &state);
    assert!(!diags.iter().any(|d| code(d) == "SQLA-W203"), "{diags:?}");
}

// ── W204 ──────────────────────────────────────────────────────────────────

#[test]
fn lint_07_default_and_server_default_fires() {
    let mut state = WorkspaceState::new();
    let mut model = bare_model("Post", Some("posts"));
    model.columns.insert("id".to_string(), pk_col("id"));
    let mut col = plain_col("created_at");
    col.args.default = Some("datetime.utcnow".to_string());
    col.args.server_default = Some("func.now()".to_string());
    model.columns.insert("created_at".to_string(), col);
    let diags = check_file(&[model], &state);
    assert!(diags.iter().any(|d| code(d) == "SQLA-W204"), "{diags:?}");
}

// ── H205 ──────────────────────────────────────────────────────────────────

#[test]
fn lint_08_naive_datetime_fires_for_datetime_type() {
    let mut state = WorkspaceState::new();
    let mut model = bare_model("Post", Some("posts"));
    model.columns.insert("id".to_string(), pk_col("id"));
    let mut col = plain_col("created_at");
    col.mapped_type = MappedType::DateTime;
    model.columns.insert("created_at".to_string(), col);
    let diags = check_file(&[model], &state);
    assert!(diags.iter().any(|d| code(d) == "SQLA-H205"), "{diags:?}");
}

#[test]
fn lint_08_naive_datetime_fires_for_sql_datetime_without_tz() {
    let mut state = WorkspaceState::new();
    let mut model = bare_model("Post", Some("posts"));
    model.columns.insert("id".to_string(), pk_col("id"));
    let mut col = plain_col("created_at");
    col.mapped_type = MappedType::SqlType {
        name: "DateTime".to_string(),
        args: vec![],
    };
    model.columns.insert("created_at".to_string(), col);
    let diags = check_file(&[model], &state);
    assert!(diags.iter().any(|d| code(d) == "SQLA-H205"), "{diags:?}");
}

#[test]
fn lint_08_naive_datetime_silent_with_timezone_arg() {
    let mut state = WorkspaceState::new();
    let mut model = bare_model("Post", Some("posts"));
    model.columns.insert("id".to_string(), pk_col("id"));
    let mut col = plain_col("created_at");
    col.mapped_type = MappedType::SqlType {
        name: "DateTime".to_string(),
        args: vec!["timezone=True".to_string()],
    };
    model.columns.insert("created_at".to_string(), col);
    let diags = check_file(&[model], &state);
    assert!(!diags.iter().any(|d| code(d) == "SQLA-H205"), "{diags:?}");
}

// ── W304 ──────────────────────────────────────────────────────────────────

#[test]
fn lint_11_ambiguous_foreign_keys_fires_for_two_fks() {
    let mut state = WorkspaceState::new();
    let u = "file:///user.py".to_string();
    let mut user = bare_model("User", Some("users"));
    user.columns.insert("id".to_string(), pk_col("id"));
    state.update_file(&u, vec![user]);

    let mut post = bare_model("Post", Some("posts"));
    post.columns.insert("id".to_string(), pk_col("id"));
    // Two FKs to users
    for col_name in ["author_id", "editor_id"] {
        let mut col = plain_col(col_name);
        col.foreign_key = Some(ForeignKeyRef {
            table: "users".to_string(),
            column: "id".to_string(),
            raw_text: "users.id".to_string(),
            range: def_range(),
        });
        post.columns.insert(col_name.to_string(), col);
    }
    post.relationships
        .insert("author".to_string(), rel("author", "User", false));

    let diags = check_file(&[post], &state);
    assert!(diags.iter().any(|d| code(d) == "SQLA-W304"), "{diags:?}");
}

#[test]
fn lint_11_ambiguous_foreign_keys_silent_with_foreign_keys_arg() {
    let mut state = WorkspaceState::new();
    let u = "file:///user.py".to_string();
    let mut user = bare_model("User", Some("users"));
    user.columns.insert("id".to_string(), pk_col("id"));
    state.update_file(&u, vec![user]);

    let mut post = bare_model("Post", Some("posts"));
    post.columns.insert("id".to_string(), pk_col("id"));
    for col_name in ["author_id", "editor_id"] {
        let mut col = plain_col(col_name);
        col.foreign_key = Some(ForeignKeyRef {
            table: "users".to_string(),
            column: "id".to_string(),
            raw_text: "users.id".to_string(),
            range: def_range(),
        });
        post.columns.insert(col_name.to_string(), col);
    }
    let mut r = rel("author", "User", false);
    r.has_foreign_keys = true; // disambiguated
    post.relationships.insert("author".to_string(), r);

    let diags = check_file(&[post], &state);
    assert!(!diags.iter().any(|d| code(d) == "SQLA-W304"), "{diags:?}");
}

// ── W411 ──────────────────────────────────────────────────────────────────

#[test]
fn lint_13_missing_remote_side_fires_for_self_referential() {
    let mut state = WorkspaceState::new();
    let mut model = bare_model("Comment", Some("comments"));
    model.columns.insert("id".to_string(), pk_col("id"));
    model
        .relationships
        .insert("parent".to_string(), rel("parent", "Comment", false));
    let diags = check_file(&[model], &state);
    assert!(diags.iter().any(|d| code(d) == "SQLA-W411"), "{diags:?}");
}

#[test]
fn lint_13_missing_remote_side_silent_with_remote_side() {
    let mut state = WorkspaceState::new();
    let mut model = bare_model("Comment", Some("comments"));
    model.columns.insert("id".to_string(), pk_col("id"));
    let mut r = rel("parent", "Comment", false);
    r.remote_side = true;
    model.relationships.insert("parent".to_string(), r);
    let diags = check_file(&[model], &state);
    assert!(!diags.iter().any(|d| code(d) == "SQLA-W411"), "{diags:?}");
}

// ── H414 / H415 ───────────────────────────────────────────────────────────

#[test]
fn lint_16_lazy_select_scalar_fires() {
    let mut state = WorkspaceState::new();
    let mut model = bare_model("Post", Some("posts"));
    model.columns.insert("id".to_string(), pk_col("id"));
    model
        .relationships
        .insert("author".to_string(), rel("author", "User", false));
    let diags = check_file(&[model], &state);
    assert!(diags.iter().any(|d| code(d) == "SQLA-H414"), "{diags:?}");
}

#[test]
fn lint_16_lazy_select_scalar_silent_when_lazy_set() {
    let mut state = WorkspaceState::new();
    let mut model = bare_model("Post", Some("posts"));
    model.columns.insert("id".to_string(), pk_col("id"));
    let mut r = rel("author", "User", false);
    r.lazy = Some("joined".to_string());
    model.relationships.insert("author".to_string(), r);
    let diags = check_file(&[model], &state);
    assert!(!diags.iter().any(|d| code(d) == "SQLA-H414"), "{diags:?}");
}

#[test]
fn lint_17_lazy_joined_collection_fires() {
    let mut state = WorkspaceState::new();
    let mut model = bare_model("User", Some("users"));
    model.columns.insert("id".to_string(), pk_col("id"));
    let mut r = rel("posts", "Post", true);
    r.lazy = Some("joined".to_string());
    model.relationships.insert("posts".to_string(), r);
    let diags = check_file(&[model], &state);
    assert!(diags.iter().any(|d| code(d) == "SQLA-H415"), "{diags:?}");
}

// ── W501 ──────────────────────────────────────────────────────────────────

#[test]
fn lint_19_legacy_backref_fires() {
    let mut state = WorkspaceState::new();
    let mut model = bare_model("User", Some("users"));
    model.columns.insert("id".to_string(), pk_col("id"));
    let mut r = rel("posts", "Post", true);
    r.backref = Some("author".to_string());
    model.relationships.insert("posts".to_string(), r);
    let diags = check_file(&[model], &state);
    assert!(diags.iter().any(|d| code(d) == "SQLA-W501"), "{diags:?}");
}

#[test]
fn lint_19_legacy_backref_carries_deprecated_tag() {
    let mut state = WorkspaceState::new();
    let mut model = bare_model("User", Some("users"));
    model.columns.insert("id".to_string(), pk_col("id"));
    let mut r = rel("posts", "Post", true);
    r.backref = Some("author".to_string());
    model.relationships.insert("posts".to_string(), r);
    let diags = check_file(&[model], &state);
    let d = diags.iter().find(|d| code(d) == "SQLA-W501").unwrap();
    assert!(d.deprecated, "SQLA-W501 must carry the Deprecated tag");
}

