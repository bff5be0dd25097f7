use sqlalchemy_lsp::python::{has_alembic_indicators, has_sqlalchemy_indicators};

#[test]
fn sa_indicators_detect_common_patterns() {
    assert!(has_sqlalchemy_indicators("from sqlalchemy import String"));
    assert!(has_sqlalchemy_indicators("import sqlalchemy as sa"));
    assert!(has_sqlalchemy_indicators("id: Mapped[int]"));
    assert!(has_sqlalchemy_indicators("mapped_column(Integer)"));
    assert!(has_sqlalchemy_indicators("class Base(DeclarativeBase): pass"));
    assert!(!has_sqlalchemy_indicators("x = 1\nprint(x)"));
}

#[test]
fn alembic_indicators_detect_imports() {
    assert!(has_alembic_indicators("from alembic import op"));
    assert!(has_alembic_indicators("import alembic"));
    assert!(!has_alembic_indicators("# just a comment"));
}
