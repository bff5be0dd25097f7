use sqlalchemy_lsp::extractor::{parse_mapped_type, SymbolTable};
use sqlalchemy_lsp::types::MappedType;

fn sym() -> SymbolTable {
    SymbolTable::default()
}

#[test]
fn parse_mapped_int() {
    assert!(matches!(parse_mapped_type("Mapped[int]", &sym()), MappedType::Int));
}

#[test]
fn parse_mapped_optional_str() {
    assert!(matches!(
        parse_mapped_type("Mapped[Optional[str]]", &sym()),
        MappedType::Optional(inner) if matches!(*inner, MappedType::Str)
    ));
}

#[test]
fn parse_mapped_union_none() {
    assert!(matches!(
        parse_mapped_type("Mapped[str | None]", &sym()),
        MappedType::Optional(inner) if matches!(*inner, MappedType::Str)
    ));
}

#[test]
fn parse_mapped_list() {
    let mt = parse_mapped_type("Mapped[List[Post]]", &sym());
    assert!(matches!(mt, MappedType::List(ref n) if n == "Post"));
}

#[test]
fn parse_mapped_forward_ref() {
    let mt = parse_mapped_type("Mapped[\"User\"]", &sym());
    assert!(matches!(mt, MappedType::ForwardRef(ref n) if n == "User"));
}

#[test]
fn parse_mapped_sql_type() {
    let mt = parse_mapped_type("Mapped[String(120)]", &sym());
    assert!(matches!(mt, MappedType::SqlType { ref name, .. } if name == "String"));
}

#[test]
fn annotated_unwrap() {
    let mt = parse_mapped_type("Mapped[Annotated[int, mapped_column(primary_key=True)]]", &sym());
    assert!(matches!(mt, MappedType::Int));
}

#[test]
fn mapped_type_display() {
    assert_eq!(MappedType::Int.to_display(), "int");
    assert_eq!(MappedType::Str.to_display(), "str");
    assert_eq!(MappedType::Optional(Box::new(MappedType::Str)).to_display(), "Optional[str]");
    assert_eq!(MappedType::List("Post".to_string()).to_display(), "List[Post]");
    assert_eq!(MappedType::ForwardRef("User".to_string()).to_display(), "\"User\"");
    assert_eq!(
        MappedType::SqlType { name: "String".to_string(), args: vec!["120".to_string()] }
            .to_display(),
        "String(120)"
    );
    assert_eq!(MappedType::Unknown("Any".to_string()).to_display(), "Any");
}
