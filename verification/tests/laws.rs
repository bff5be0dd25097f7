use sqlalchemy_lsp::check::matches_filter;
use sqlalchemy_lsp::config::{code_matches_class_token, NoqaMarker};
use sqlalchemy_lsp::extractor::{parse_inner_type, parse_mapped_type, SymbolTable};
use sqlalchemy_lsp::types::MappedType;

fn shown(t: &MappedType) -> String {
    format!("{:?}", t)
}

#[test]
fn display_then_parse_gives_the_type_back() {
    let sym = SymbolTable::default();
    let types = vec![
        MappedType::Int,
        MappedType::Optional(Box::new(MappedType::Str)),
        MappedType::Optional(Box::new(MappedType::Optional(Box::new(MappedType::DateTime)))),
        MappedType::List("Post".to_string()),
        MappedType::ForwardRef("User".to_string()),
    ];
    for t in types {
        let text = t.to_display();
        let back = parse_inner_type(&text, &sym);
        assert_eq!(shown(&back), shown(&t), "{text}");
    }
}

#[test]
fn display_then_parse_gives_sql_and_unknown_types_back() {
    let sym = SymbolTable::default();
    let types = vec![
        MappedType::SqlType { name: "String".to_string(), args: vec!["120".to_string()] },
        MappedType::SqlType { name: "Numeric".to_string(), args: vec!["10".to_string(), "2".to_string()] },
        MappedType::SqlType { name: "Integer".to_string(), args: vec![] },
        MappedType::Unknown("Money".to_string()),
    ];
    for t in types {
        let text = t.to_display();
        let back = parse_inner_type(&text, &sym);
        assert_eq!(shown(&back), shown(&t), "{text}");
    }
}

#[test]
fn cli_filter_and_editor_ignore_agree_on_class_tokens() {
    for code in ["SQLA-W303", "SQLA-H416", "SQLA-I207", "SQLA-E101"] {
        for token in ["SQLA-1xx", "SQLA-2xx", "SQLA-3xx", "SQLA-4xx", "SQLA-Wxx"] {
            assert_eq!(matches_filter(code, token), code_matches_class_token(code, token), "{code} {token}");
        }
    }
}

#[test]
fn mapped_wrapper_commutes_with_inner_parse() {
    let sym = SymbolTable::default();
    for inner in ["int", "Optional[str]", "List[\"Post\"]", "String(120)"] {
        let a = parse_mapped_type(&format!("Mapped[{inner}]"), &sym);
        let b = parse_inner_type(inner, &sym);
        assert_eq!(shown(&a), shown(&b), "{inner}");
    }
    let plain = parse_mapped_type("int", &sym);
    assert_eq!(shown(&plain), shown(&MappedType::Int));
}

#[test]
fn joined_codes_read_back_as_written() {
    let codes = vec!["SQLA-W303".to_string(), "SQLA-W402".to_string(), "E501".to_string()];
    let line = format!("x = 1  # noqa: {}", codes.join(", "));
    match NoqaMarker::parse(&line) {
        Some(NoqaMarker::Codes(c)) => assert_eq!(c, codes),
        other => panic!("unexpected marker: {other:?}"),
    }
}
