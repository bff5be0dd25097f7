//! Cheap text probes that decide which files are worth parsing.
use vstd::prelude::*;

use crate::text::{contains, str_contains};

verus! {

/// Whether a source text looks like a SQLAlchemy model file.
pub open spec fn sqlalchemy_indicated(s: Seq<char>) -> bool {
    contains(s, "from sqlalchemy"@) || contains(s, "import sqlalchemy"@) || contains(s, "Mapped["@)
        || contains(s, "mapped_column"@) || contains(s, "DeclarativeBase"@)
}

/// Returns `true` if the source is likely a SQLAlchemy model file.
/// Deliberately broad — a false positive means one extra parse; a false
/// negative means a model goes un-indexed.
pub fn has_sqlalchemy_indicators(source: &str) -> (r: bool)
    ensures
        r == sqlalchemy_indicated(source@),
{
    str_contains(source, "from sqlalchemy") || str_contains(source, "import sqlalchemy")
        || str_contains(source, "Mapped[") || str_contains(source, "mapped_column")
        || str_contains(source, "DeclarativeBase")
}

/// Returns `true` if the source is likely an Alembic migration file.
pub fn has_alembic_indicators(source: &str) -> (r: bool)
    ensures
        r == (contains(source@, "from alembic"@) || contains(source@, "import alembic"@)),
{
    str_contains(source, "from alembic") || str_contains(source, "import alembic")
}

} // verus!
