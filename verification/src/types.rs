//! The model facts extracted from Python sources: ORM classes, columns,
//! relationships, table arguments and the types their annotations name.
use vstd::prelude::*;

use crate::strmap::StrMap;
use crate::text::{push_str, to_owned};

verus! {

/// The severity of a diagnostic finding.
#[derive(Clone, Copy, Debug, PartialEq, Eq, Structural)]
pub enum Severity {
    Error,
    Warning,
    Info,
    Hint,
}

/// Whether an automatic fix exists and how trustworthy it is.
#[derive(Clone, Copy, Debug, PartialEq, Eq, Structural)]
pub enum FixKind {
    Safe,
    Unsafe,
    NoFix,
}

impl Default for FixKind {
    fn default() -> (r: Self)
        ensures
            r == FixKind::NoFix,
    {
        FixKind::NoFix
    }
}

/// Metadata flags a renderer or tooling reads alongside severity.
#[derive(Clone, Copy, Debug, Default, PartialEq, Eq, Structural)]
pub struct DiagnosticTags {
    pub fixable: bool,
    pub deprecated: bool,
    pub unnecessary: bool,
}

impl DiagnosticTags {
    /// No flag is set.
    pub fn is_empty(self) -> (r: bool)
        ensures
            r == (!self.fixable && !self.deprecated && !self.unnecessary),
    {
        !self.fixable && !self.deprecated && !self.unnecessary
    }
}

/// A half-open source span, zero-based, end columns exclusive.
#[derive(Clone, Copy, Debug, Default, PartialEq, Eq, Structural)]
pub struct Range {
    pub start_line: u32,
    pub start_col: u32,
    pub end_line: u32,
    pub end_col: u32,
}

/// A zero-based cursor position: line, and character within the line.
#[derive(Clone, Copy, Debug, Default, PartialEq, Eq, Structural)]
pub struct Position {
    pub line: u32,
    pub character: u32,
}

/// The position lies in the range: at or after its start, before its end.
pub open spec fn pos_in_spec(pos: Position, r: Range) -> bool {
    (pos.line > r.start_line || (pos.line == r.start_line && pos.character >= r.start_col)) && (
    pos.line < r.end_line || (pos.line == r.end_line && pos.character < r.end_col))
}

/// Whether the position lies in the range (end exclusive).
pub fn pos_in(pos: Position, r: Range) -> (b: bool)
    ensures
        b == pos_in_spec(pos, r),
{
    let after = pos.line > r.start_line || (pos.line == r.start_line && pos.character >= r.start_col);
    let before = pos.line < r.end_line || (pos.line == r.end_line && pos.character < r.end_col);
    after && before
}

/// A mapped ORM class with its columns, relationships, and table metadata.
#[derive(Clone, Debug)]
pub struct Model {
    pub name: String,
    pub table_name: Option<String>,
    pub bases: Vec<String>,
    pub columns: StrMap<Column>,
    pub relationships: StrMap<Relationship>,
    pub table_args: Vec<TableArg>,
    pub duplicate_columns: Vec<(String, Range)>,
    pub docstring: Option<String>,
    pub name_range: Range,
    pub full_range: Range,
}

/// A `mapped_column(...)` attribute: its type, args, and optional foreign key.
#[derive(Clone, Debug)]
pub struct Column {
    pub name: String,
    pub key: Option<String>,
    pub mapped_type: MappedType,
    pub args: ColumnArgs,
    pub foreign_key: Option<ForeignKeyRef>,
    pub doc: Option<String>,
    pub name_range: Range,
    pub full_range: Range,
}

/// Boolean flags and the default expression from `mapped_column(...)`.
#[derive(Clone, Debug)]
pub struct ColumnArgs {
    pub primary_key: bool,
    pub nullable: bool,
    /// `nullable=False` was written out.
    pub explicit_nullable_false: bool,
    /// `nullable=True` was written out.
    pub explicit_nullable_true: bool,
    pub unique: bool,
    pub index: bool,
    pub default: Option<String>,
    /// Source text of the `server_default=` argument, if present.
    pub server_default: Option<String>,
}

impl Default for ColumnArgs {
    fn default() -> (r: Self)
        ensures
            !r.primary_key,
            r.nullable,
            !r.explicit_nullable_false,
            !r.explicit_nullable_true,
            !r.unique,
            !r.index,
            r.default.is_none(),
            r.server_default.is_none(),
    {
        ColumnArgs {
            primary_key: false,
            nullable: true,
            explicit_nullable_false: false,
            explicit_nullable_true: false,
            unique: false,
            index: false,
            default: None,
            server_default: None,
        }
    }
}

/// A `ForeignKey("table.col")` reference split into its halves.
#[derive(Clone, Debug)]
pub struct ForeignKeyRef {
    pub table: String,
    pub column: String,
    pub raw_text: String,
    pub range: Range,
}

/// A `relationship(...)` attribute wiring two models together.
#[derive(Clone, Debug)]
pub struct Relationship {
    pub name: String,
    pub target_model: String,
    pub explicit_target: Option<String>,
    pub back_populates: Option<String>,
    pub lazy: Option<String>,
    pub uselist: Option<bool>,
    pub secondary: Option<String>,
    pub cascade: Option<String>,
    pub is_list: bool,
    /// Source text of the `backref=` argument (legacy; prefer `back_populates`).
    pub backref: Option<String>,
    /// True when `remote_side=` is present (needed for self-referential relationships).
    pub remote_side: bool,
    /// True when `foreign_keys=` is present (disambiguates multi-FK relationships).
    pub has_foreign_keys: bool,
    /// True when `viewonly=True` is set.
    pub viewonly: Option<bool>,
    pub name_range: Range,
    pub full_range: Range,
    pub target_range: Option<Range>,
    pub back_populates_range: Option<Range>,
    pub cascade_range: Option<Range>,
}

/// One entry in `__table_args__`: an Index, UniqueConstraint, or PrimaryKeyConstraint.
#[derive(Clone, Debug)]
pub struct TableArg {
    pub kind: String,
    pub columns: Vec<String>,
    pub column_ranges: Vec<Range>,
    pub full_range: Range,
    /// The `name=` argument value, if given.
    pub name: Option<String>,
}

/// The type a `Mapped[...]` annotation resolves to.
#[derive(Debug)]
pub enum MappedType {
    Int,
    Str,
    Float,
    Bool,
    DateTime,
    Optional(Box<MappedType>),
    List(String),
    ForwardRef(String),
    SqlType { name: String, args: Vec<String> },
    Unknown(String),
}

/// The value a `MappedType` denotes, with strings taken as characters.
pub enum TypeV {
    Int,
    Str,
    Float,
    Bool,
    DateTime,
    Optional(Box<TypeV>),
    List(Seq<char>),
    ForwardRef(Seq<char>),
    SqlType(Seq<char>, Seq<Seq<char>>),
    Unknown(Seq<char>),
}

/// The denotation of a `MappedType`.
pub open spec fn tv(t: MappedType) -> TypeV
    decreases t,
{
    match t {
        MappedType::Int => TypeV::Int,
        MappedType::Str => TypeV::Str,
        MappedType::Float => TypeV::Float,
        MappedType::Bool => TypeV::Bool,
        MappedType::DateTime => TypeV::DateTime,
        MappedType::Optional(inner) => TypeV::Optional(Box::new(tv(*inner))),
        MappedType::List(m) => TypeV::List(m@),
        MappedType::ForwardRef(n) => TypeV::ForwardRef(n@),
        MappedType::SqlType { name, args } => TypeV::SqlType(name@, views(args@)),
        MappedType::Unknown(u) => TypeV::Unknown(u@),
    }
}

impl View for MappedType {
    type V = TypeV;

    open spec fn view(&self) -> TypeV {
        tv(*self)
    }
}

/// Where a model lives in the workspace index.
#[derive(Clone, Debug)]
pub struct ModelLocation {
    pub uri: String,
    pub model_name: String,
    pub range: Range,
}

/// The pieces joined with `sep` between them (`slice::join`).
pub open spec fn join(parts: Seq<Seq<char>>, sep: Seq<char>) -> Seq<char>
    decreases parts.len(),
{
    if parts.len() == 0 {
        Seq::empty()
    } else if parts.len() == 1 {
        parts[0]
    } else {
        join(parts.drop_last(), sep) + sep + parts.last()
    }
}

/// The characters of each string.
pub open spec fn views(v: Seq<String>) -> Seq<Seq<char>> {
    v.map_values(|s: String| s@)
}

/// The text a type annotation is shown as (`int`, `Optional[str]`, `String(120)`, ...).
pub open spec fn type_text(t: TypeV) -> Seq<char>
    decreases t,
{
    match t {
        TypeV::Int => "int"@,
        TypeV::Str => "str"@,
        TypeV::Float => "float"@,
        TypeV::Bool => "bool"@,
        TypeV::DateTime => "datetime"@,
        TypeV::Optional(inner) => "Optional["@ + type_text(*inner) + "]"@,
        TypeV::List(model) => "List["@ + model + "]"@,
        TypeV::ForwardRef(name) => "\""@ + name + "\""@,
        TypeV::SqlType(name, args) => if args.len() == 0 {
            name
        } else {
            name + "("@ + join(args, ", "@) + ")"@
        },
        TypeV::Unknown(s) => s,
    }
}

/// Appends `parts` joined by `sep` to `out`.
pub fn push_joined(out: &mut String, parts: &Vec<String>, sep: &str)
    ensures
        final(out)@ == old(out)@ + join(views(parts@), sep@),
{
    let ghost start = out@;
    let mut i: usize = 0;
    while i < parts.len()
        invariant
            i <= parts@.len(),
            out@ == start + join(views(parts@.take(i as int)), sep@),
        decreases parts@.len() - i,
    {
        proof {
            assert(views(parts@.take(i + 1)).drop_last() =~= views(parts@.take(i as int)));
            assert(views(parts@.take(i + 1)).last() == parts@[i as int]@);
        }
        if i > 0 {
            push_str(out, sep);
        } else {
            assert(views(parts@.take(0)).len() == 0);
        }
        push_str(out, parts[i].as_str());
        i = i + 1;
    }
    assert(parts@.take(parts@.len() as int) =~= parts@);
}

/// An element-wise copy of a list of strings.
pub fn copy_strings(v: &Vec<String>) -> (r: Vec<String>)
    ensures
        r@ == v@,
{
    let mut r: Vec<String> = Vec::new();
    let mut i: usize = 0;
    while i < v.len()
        invariant
            i <= v@.len(),
            r@ == v@.take(i as int),
        decreases v@.len() - i,
    {
        r.push(v[i].clone());
        i = i + 1;
        assert(r@ =~= v@.take(i as int));
    }
    assert(v@.take(v@.len() as int) =~= v@);
    r
}

impl Clone for MappedType {
    fn clone(&self) -> (r: Self)
        ensures
            r@ == self@,
    {
        self.duplicate()
    }
}

impl MappedType {
    /// A copy equal to `self`.
    pub fn duplicate(&self) -> (r: MappedType)
        ensures
            r@ == self@,
        decreases self,
    {
        match self {
            MappedType::Int => MappedType::Int,
            MappedType::Str => MappedType::Str,
            MappedType::Float => MappedType::Float,
            MappedType::Bool => MappedType::Bool,
            MappedType::DateTime => MappedType::DateTime,
            MappedType::Optional(inner) => MappedType::Optional(Box::new(inner.duplicate())),
            MappedType::List(m) => MappedType::List(m.clone()),
            MappedType::ForwardRef(n) => MappedType::ForwardRef(n.clone()),
            MappedType::SqlType { name, args } => MappedType::SqlType {
                name: name.clone(),
                args: copy_strings(args),
            },
            MappedType::Unknown(u) => MappedType::Unknown(u.clone()),
        }
    }

    /// The text the type is shown as; see `type_text`.
    pub fn to_display(&self) -> (s: String)
        ensures
            s@ == type_text(self@),
        decreases self,
    {
        match self {
            MappedType::Int => to_owned("int"),
            MappedType::Str => to_owned("str"),
            MappedType::Float => to_owned("float"),
            MappedType::Bool => to_owned("bool"),
            MappedType::DateTime => to_owned("datetime"),
            MappedType::Optional(inner) => {
                let mut s = to_owned("Optional[");
                let t = inner.to_display();
                push_str(&mut s, t.as_str());
                push_str(&mut s, "]");
                s
            },
            MappedType::List(model) => {
                let mut s = to_owned("List[");
                push_str(&mut s, model.as_str());
                push_str(&mut s, "]");
                s
            },
            MappedType::ForwardRef(name) => {
                let mut s = to_owned("\"");
                push_str(&mut s, name.as_str());
                push_str(&mut s, "\"");
                s
            },
            MappedType::SqlType { name, args } => {
                let mut s = to_owned(name.as_str());
                if args.len() > 0 {
                    push_str(&mut s, "(");
                    push_joined(&mut s, args, ", ");
                    push_str(&mut s, ")");
                }
                s
            },
            MappedType::Unknown(u) => to_owned(u.as_str()),
        }
    }
}

} // verus!
