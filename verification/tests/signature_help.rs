#![allow(dead_code, unused_imports)]
use sqlalchemy_lsp::state::WorkspaceState;
use sqlalchemy_lsp::strmap::StrMap;
use sqlalchemy_lsp::syntax::SyntaxNode;
use sqlalchemy_lsp::types::{Column, ColumnArgs, ForeignKeyRef, MappedType, Model, Position, Range, Relationship};

fn uri(s: &str) -> String {
    s.to_string()
}

fn rng(sl: u32, sc: u32, el: u32, ec: u32) -> Range {
    Range { start_line: sl, start_col: sc, end_line: el, end_col: ec }
}

fn pos(line: u32, character: u32) -> Position {
    Position { line, character }
}

fn simple_col(name: &str, r: Range) -> Column {
    Column {
        name: name.to_string(),
        key: None,
        mapped_type: MappedType::Int,
        args: ColumnArgs::default(),
        foreign_key: None,
        doc: None,
        name_range: r,
        full_range: r,
    }
}

fn fk_col(name: &str, r: Range, table: &str, column: &str, fk_r: Range) -> Column {
    let mut c = simple_col(name, r);
    c.foreign_key = Some(ForeignKeyRef {
        table: table.to_string(),
        column: column.to_string(),
        raw_text: format!("{table}.{column}"),
        range: fk_r,
    });
    c
}

fn model(name: &str, table: Option<&str>, name_r: Range) -> Model {
    Model {
        name: name.to_string(),
        table_name: table.map(|t| t.to_string()),
        bases: vec![],
        columns: StrMap::new(),
        relationships: StrMap::new(),
        table_args: vec![],
        duplicate_columns: vec![],
        docstring: None,
        name_range: name_r,
        full_range: rng(0, 0, 30, 0),
    }
}

fn rel(name: &str, target: &str, name_r: Range) -> Relationship {
    Relationship {
        name: name.to_string(),
        target_model: target.to_string(),
        explicit_target: None,
        back_populates: None,
        lazy: None,
        uselist: None,
        secondary: None,
        cascade: None,
        is_list: false,
        backref: None,
        remote_side: false,
        has_foreign_keys: false,
        viewonly: None,
        name_range: name_r,
        full_range: name_r,
        target_range: None,
        back_populates_range: None,
        cascade_range: None,
    }
}

fn to_syntax(node: tree_sitter::Node, source: &[u8], field: Option<&str>) -> SyntaxNode {
    let mut children = Vec::new();
    for i in 0..node.child_count() {
        if let Some(child) = node.child(i) {
            children.push(to_syntax(child, source, node.field_name_for_child(i as u32)));
        }
    }
    SyntaxNode {
        kind: node.kind().to_string(),
        field: field.map(|f| f.to_string()),
        named: node.is_named(),
        text: std::str::from_utf8(&source[node.start_byte()..node.end_byte()]).unwrap_or("").to_string(),
        range: Range {
            start_line: node.start_position().row as u32,
            start_col: node.start_position().column as u32,
            end_line: node.end_position().row as u32,
            end_col: node.end_position().column as u32,
        },
        start_byte: node.start_byte(),
        end_byte: node.end_byte(),
        children,
    }
}

fn parse(source: &str) -> SyntaxNode {
    let mut parser = tree_sitter::Parser::new();
    parser.set_language(&tree_sitter_python::LANGUAGE.into()).unwrap();
    let tree = parser.parse(source, None).unwrap();
    to_syntax(tree.root_node(), source.as_bytes(), None)
}

fn add(state: &mut WorkspaceState, u: &str, models: Vec<Model>) {
    state.update_file(&u.to_string(), models);
}

use sqlalchemy_lsp::signature_help::provide_signature_help;

fn col(name: &str, mt: MappedType, nullable: bool, r: Range) -> Column {
    let mut c = simple_col(name, r);
    c.mapped_type = mt;
    c.args.nullable = nullable;
    c
}

fn user_with(cols: Vec<Column>) -> Model {
    let mut m = model("User", Some("users"), rng(0, 6, 0, 10));
    m.full_range = rng(0, 0, 20, 0);
    for c in cols {
        m.columns.insert(c.name.clone(), c);
    }
    m
}

#[test]
fn req_sig_04_foreignkey_signature() {
    let state = WorkspaceState::new();
    let u = uri("file:///post.py");
    let src = "    x = ForeignKey(\"users.|id\")";
    let help = provide_signature_help(&u, src, pos(0, 24), &state).unwrap();
    assert!(help.label.contains("ForeignKey(target"));
    assert_eq!(help.active_parameter, 0);
}

#[test]
fn req_sig_05_relationship_signature() {
    let state = WorkspaceState::new();
    let u = uri("file:///user.py");
    let src = "    posts = relationship(\"Post\", back_populates=";
    let help = provide_signature_help(&u, src, pos(0, src.len() as u32), &state).unwrap();
    assert!(help.label.contains("relationship(target"));
    assert_eq!(help.active_parameter, 1);
}

#[test]
fn req_sig_06_mapped_column_signature() {
    let state = WorkspaceState::new();
    let u = uri("file:///user.py");
    let src = "    id = mapped_column(";
    let help = provide_signature_help(&u, src, pos(0, src.len() as u32), &state).unwrap();
    assert!(help.label.contains("mapped_column(type_="));
    assert_eq!(help.active_parameter, 0);
}

#[test]
fn req_sig_07_08_constructor_synthesized() {
    let mut state = WorkspaceState::new();
    let u = uri("file:///user.py");
    let m = user_with(vec![
        col("id", MappedType::Int, false, rng(1, 4, 1, 6)),
        col("email", MappedType::Str, false, rng(2, 4, 2, 9)),
        col("bio", MappedType::Str, true, rng(3, 4, 3, 7)),
    ]);
    add(&mut state, &u, vec![m]);
    let src = "u = User(";
    let help = provide_signature_help(&u, src, pos(0, src.len() as u32), &state).unwrap();
    let label = &help.label;
    assert!(label.starts_with("User("), "label: {label}");
    assert!(label.contains("id: int"), "label: {label}");
    assert!(label.contains("email: str"), "label: {label}");
    assert!(label.contains("Optional"), "nullable bio should be optional: {label}");
}

#[test]
fn req_sig_09_kwarg_active_param() {
    let mut state = WorkspaceState::new();
    let u = uri("file:///user.py");
    let m = user_with(vec![
        col("id", MappedType::Int, false, rng(1, 4, 1, 6)),
        col("email", MappedType::Str, false, rng(2, 4, 2, 9)),
    ]);
    add(&mut state, &u, vec![m]);
    let src = "u = User(email=";
    let help = provide_signature_help(&u, src, pos(0, src.len() as u32), &state).unwrap();
    assert_eq!(help.active_parameter, 1, "email kwarg should highlight param 1");
}

#[test]
fn req_sig_10_op_add_column() {
    let state = WorkspaceState::new();
    let u = uri("file:///mig.py");
    let src = "    op.add_column(\"posts\", ";
    let src_with_op = format!("# alembic op.\n{src}");
    let help = provide_signature_help(&u, &src_with_op, pos(1, src.len() as u32), &state).unwrap();
    assert!(help.label.contains("op.add_column(table_name, column"));
    assert_eq!(help.active_parameter, 1);
}

#[test]
fn req_sig_11_plain_python_no_signature() {
    let state = WorkspaceState::new();
    let u = uri("file:///plain.py");
    let src = "result = print(";
    assert!(provide_signature_help(&u, src, pos(0, src.len() as u32), &state).is_none());
}

#[test]
fn constructor_label_orders_columns_by_source_position() {
    let mut state = WorkspaceState::new();
    let u = uri("file:///user.py");
    let m = user_with(vec![
        col("email", MappedType::Str, false, rng(2, 4, 2, 9)),
        col("id", MappedType::Int, false, rng(1, 4, 1, 6)),
    ]);
    add(&mut state, &u, vec![m]);
    let help = provide_signature_help(&u, "User(", pos(0, 5), &state).unwrap();
    assert_eq!(help.label, "User(id: int, email: str)");
    assert_eq!(help.documentation.as_deref(), Some("Synthesized from User's mapped columns."));
    assert_eq!(help.parameters[0], ("id: int".to_string(), "required".to_string()));
}

#[test]
fn static_signature_clamps_active_parameter() {
    let state = WorkspaceState::new();
    let u = uri("file:///post.py");
    let src = "x = ForeignKey(\"a\", \"b\", ";
    let help = provide_signature_help(&u, src, pos(0, src.len() as u32), &state).unwrap();
    assert_eq!(help.active_parameter, 0);
}
