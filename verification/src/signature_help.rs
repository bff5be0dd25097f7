//! Signature help: the parameters of the call the cursor is in, with the
//! one being filled highlighted, for SQLAlchemy's constructors, Alembic's
//! operations and the synthesized constructors of the indexed models.
use vstd::prelude::*;

use crate::completion::{
    last_segment, last_segment_exec, line_at, line_prefix, line_prefix_spec, name_start, name_start_exec,
    prefix_ok, word_prefix, word_prefix_exec,
};
use crate::f01::{lookup_model, lookup_model_exec};
use crate::schema::{sorted_cols, sorted_columns};
use crate::state::WorkspaceState;
use crate::text::{contains, starts_with, str_contains, to_chars, trim_end, trim_end_exec, trim_start, trim_start_exec};
use crate::types::{join, type_text, views, Column, Model};

verus! {

/// A signature as values: its label and its (label, documentation) parameters.
pub type SigV = (Seq<char>, Seq<(Seq<char>, Seq<char>)>);

/// A catalogued signature.
pub struct Sig {
    pub label: &'static str,
    pub params: Vec<(&'static str, &'static str)>,
}

pub open spec fn sig_v(s: &Sig) -> SigV {
    (s.label@, s.params@.map_values(|p: (&'static str, &'static str)| (p.0@, p.1@)))
}

/// The Alembic operations' signatures, in catalogue order.
pub open spec fn op_sigs() -> Seq<SigV> {
    seq![
        ("op.add_column(table_name, column, *, schema=None)"@, seq![("table_name"@, "Table to add the column to."@), ("column"@, "sa.Column() object to add."@), ("schema=None"@, "Optional schema name."@)]),
        ("op.drop_column(table_name, column_name, *, schema=None)"@, seq![("table_name"@, "Table to remove the column from."@), ("column_name"@, "Name of the column to remove."@), ("schema=None"@, "Optional schema name."@)]),
        ("op.alter_column(table_name, column_name, *, nullable=None, new_column_name=None, type_=None, existing_type=None)"@, seq![("table_name"@, "Table containing the column."@), ("column_name"@, "Column to alter."@), ("nullable=None"@, "New nullable setting."@), ("new_column_name=None"@, "Rename the column."@), ("type_=None"@, "New type for the column."@), ("existing_type=None"@, "Current type (required by some DBs)."@)]),
        ("op.create_table(table_name, *columns, **kw)"@, seq![("table_name"@, "Name of the new table."@), ("*columns"@, "sa.Column() objects."@), ("**kw"@, "Additional keyword arguments."@)]),
        ("op.drop_table(table_name, *, schema=None)"@, seq![("table_name"@, "Table to drop."@), ("schema=None"@, "Optional schema name."@)]),
        ("op.create_index(index_name, table_name, columns, *, unique=False, schema=None)"@, seq![("index_name"@, "Index name."@), ("table_name"@, "Table to index."@), ("columns"@, "List of column names or expressions."@), ("unique=False"@, "Create a unique index."@), ("schema=None"@, "Optional schema name."@)]),
        ("op.drop_index(index_name, table_name=None, *, schema=None)"@, seq![("index_name"@, "Index to drop."@), ("table_name=None"@, "Table (required for some dialects)."@), ("schema=None"@, "Optional schema name."@)]),
        ("op.create_unique_constraint(constraint_name, table_name, columns, *, schema=None)"@, seq![("constraint_name"@, "Constraint name."@), ("table_name"@, "Table to constrain."@), ("columns"@, "Columns to include."@), ("schema=None"@, "Optional schema name."@)]),
        ("op.drop_constraint(constraint_name, table_name, *, type_=None, schema=None)"@, seq![("constraint_name"@, "Constraint to drop."@), ("table_name"@, "Table holding the constraint."@), ("type_=None"@, "Constraint type hint."@), ("schema=None"@, "Optional schema name."@)]),
        ("op.create_foreign_key(constraint_name, source_table, referent_table, local_cols, remote_cols)"@, seq![("constraint_name"@, "Constraint name."@), ("source_table"@, "Table holding the FK."@), ("referent_table"@, "Table being referenced."@), ("local_cols"@, "Local column names."@), ("remote_cols"@, "Referenced column names."@)]),
        ("op.create_check_constraint(constraint_name, table_name, condition, *, schema=None)"@, seq![("constraint_name"@, "Constraint name."@), ("table_name"@, "Table to constrain."@), ("condition"@, "SQL condition expression."@), ("schema=None"@, "Optional schema name."@)]),
        ("op.rename_table(old_table_name, new_table_name, *, schema=None)"@, seq![("old_table_name"@, "Current table name."@), ("new_table_name"@, "New table name."@), ("schema=None"@, "Optional schema name."@)]),
        ("op.execute(sqltext, *, execution_options=immutabledict({}))"@, seq![("sqltext"@, "SQL string or ClauseElement to execute."@), ("execution_options=immutabledict({})"@, "Execution options."@)]),
        ("op.bulk_insert(table, rows, *, multiinsert=True)"@, seq![("table"@, "Table object to insert into."@), ("rows"@, "List of dicts to insert."@), ("multiinsert=True"@, "Use multi-row INSERT syntax."@)]),
    ]
}

/// The signature of `ForeignKey(...)`.
pub open spec fn fk_sig() -> SigV {
    ("ForeignKey(target: str)"@, seq![("target: str"@, "Target column in \"table.column\" format."@)])
}

/// The signature of `relationship(...)`.
pub open spec fn rel_sig() -> SigV {
    ("relationship(target, *, back_populates=, lazy=, uselist=, secondary=, cascade=, order_by=, foreign_keys=, viewonly=)"@, seq![("target"@, "The target model class or its name as a string."@), ("back_populates="@, "Attribute name on the target that mirrors this relationship."@), ("lazy="@, "Loading strategy: select, joined, subquery, selectin, raise, dynamic, noload."@), ("uselist="@, "True for collection, False for scalar (defaults based on cardinality)."@), ("secondary="@, "Association table for many-to-many relationships."@), ("cascade="@, "Cascade rules: save-update, merge, delete, delete-orphan, all."@), ("order_by="@, "Ordering applied to the collection."@), ("foreign_keys="@, "Explicit FK columns when multiple FKs ambiguate the join."@), ("viewonly="@, "True makes the relationship read-only."@)])
}

/// The signature of `mapped_column(...)`.
pub open spec fn mc_sig() -> SigV {
    ("mapped_column(type_=, *, primary_key=, nullable=, unique=, index=, default=, server_default=, name=, ForeignKey())"@, seq![("type_="@, "Column type (e.g. String, Integer). Often inferred from Mapped[…]."@), ("primary_key="@, "True to mark as primary key (default: False)."@), ("nullable="@, "Allow NULL values (default: True unless primary_key)."@), ("unique="@, "Add a unique constraint (default: False)."@), ("index="@, "Add a column index (default: False)."@), ("default="@, "Python-side default value or callable."@), ("server_default="@, "Server-side default SQL expression."@), ("name="@, "Explicit DB column name when different from the attribute name."@), ("ForeignKey()"@, "Foreign-key constraint for this column."@)])
}

fn fk_sig_exec() -> (r: Sig)
    ensures
        sig_v(&r) == fk_sig(),
{
    let mut ps: Vec<(&'static str, &'static str)> = Vec::new();
    ps.push(("target: str", "Target column in \"table.column\" format."));
    Sig { label: "ForeignKey(target: str)", params: ps }
}

fn rel_sig_exec() -> (r: Sig)
    ensures
        sig_v(&r) == rel_sig(),
{
    let mut ps: Vec<(&'static str, &'static str)> = Vec::new();
    ps.push(("target", "The target model class or its name as a string."));
    ps.push(("back_populates=", "Attribute name on the target that mirrors this relationship."));
    ps.push(("lazy=", "Loading strategy: select, joined, subquery, selectin, raise, dynamic, noload."));
    ps.push(("uselist=", "True for collection, False for scalar (defaults based on cardinality)."));
    ps.push(("secondary=", "Association table for many-to-many relationships."));
    ps.push(("cascade=", "Cascade rules: save-update, merge, delete, delete-orphan, all."));
    ps.push(("order_by=", "Ordering applied to the collection."));
    ps.push(("foreign_keys=", "Explicit FK columns when multiple FKs ambiguate the join."));
    ps.push(("viewonly=", "True makes the relationship read-only."));
    Sig { label: "relationship(target, *, back_populates=, lazy=, uselist=, secondary=, cascade=, order_by=, foreign_keys=, viewonly=)", params: ps }
}

fn mc_sig_exec() -> (r: Sig)
    ensures
        sig_v(&r) == mc_sig(),
{
    let mut ps: Vec<(&'static str, &'static str)> = Vec::new();
    ps.push(("type_=", "Column type (e.g. String, Integer). Often inferred from Mapped[…]."));
    ps.push(("primary_key=", "True to mark as primary key (default: False)."));
    ps.push(("nullable=", "Allow NULL values (default: True unless primary_key)."));
    ps.push(("unique=", "Add a unique constraint (default: False)."));
    ps.push(("index=", "Add a column index (default: False)."));
    ps.push(("default=", "Python-side default value or callable."));
    ps.push(("server_default=", "Server-side default SQL expression."));
    ps.push(("name=", "Explicit DB column name when different from the attribute name."));
    ps.push(("ForeignKey()", "Foreign-key constraint for this column."));
    Sig { label: "mapped_column(type_=, *, primary_key=, nullable=, unique=, index=, default=, server_default=, name=, ForeignKey())", params: ps }
}

fn op_sigs_exec() -> (r: Vec<Sig>)
    ensures
        r@.map_values(|s: Sig| sig_v(&s)) == op_sigs(),
{
    let mut v: Vec<Sig> = Vec::new();
    {
        let mut ps: Vec<(&'static str, &'static str)> = Vec::new();
        ps.push(("table_name", "Table to add the column to."));
        ps.push(("column", "sa.Column() object to add."));
        ps.push(("schema=None", "Optional schema name."));
        v.push(Sig { label: "op.add_column(table_name, column, *, schema=None)", params: ps });
    }
    {
        let mut ps: Vec<(&'static str, &'static str)> = Vec::new();
        ps.push(("table_name", "Table to remove the column from."));
        ps.push(("column_name", "Name of the column to remove."));
        ps.push(("schema=None", "Optional schema name."));
        v.push(Sig { label: "op.drop_column(table_name, column_name, *, schema=None)", params: ps });
    }
    {
        let mut ps: Vec<(&'static str, &'static str)> = Vec::new();
        ps.push(("table_name", "Table containing the column."));
        ps.push(("column_name", "Column to alter."));
        ps.push(("nullable=None", "New nullable setting."));
        ps.push(("new_column_name=None", "Rename the column."));
        ps.push(("type_=None", "New type for the column."));
        ps.push(("existing_type=None", "Current type (required by some DBs)."));
        v.push(Sig { label: "op.alter_column(table_name, column_name, *, nullable=None, new_column_name=None, type_=None, existing_type=None)", params: ps });
    }
    {
        let mut ps: Vec<(&'static str, &'static str)> = Vec::new();
        ps.push(("table_name", "Name of the new table."));
        ps.push(("*columns", "sa.Column() objects."));
        ps.push(("**kw", "Additional keyword arguments."));
        v.push(Sig { label: "op.create_table(table_name, *columns, **kw)", params: ps });
    }
    {
        let mut ps: Vec<(&'static str, &'static str)> = Vec::new();
        ps.push(("table_name", "Table to drop."));
        ps.push(("schema=None", "Optional schema name."));
        v.push(Sig { label: "op.drop_table(table_name, *, schema=None)", params: ps });
    }
    {
        let mut ps: Vec<(&'static str, &'static str)> = Vec::new();
        ps.push(("index_name", "Index name."));
        ps.push(("table_name", "Table to index."));
        ps.push(("columns", "List of column names or expressions."));
        ps.push(("unique=False", "Create a unique index."));
        ps.push(("schema=None", "Optional schema name."));
        v.push(Sig { label: "op.create_index(index_name, table_name, columns, *, unique=False, schema=None)", params: ps });
    }
    {
        let mut ps: Vec<(&'static str, &'static str)> = Vec::new();
        ps.push(("index_name", "Index to drop."));
        ps.push(("table_name=None", "Table (required for some dialects)."));
        ps.push(("schema=None", "Optional schema name."));
        v.push(Sig { label: "op.drop_index(index_name, table_name=None, *, schema=None)", params: ps });
    }
    {
        let mut ps: Vec<(&'static str, &'static str)> = Vec::new();
        ps.push(("constraint_name", "Constraint name."));
        ps.push(("table_name", "Table to constrain."));
        ps.push(("columns", "Columns to include."));
        ps.push(("schema=None", "Optional schema name."));
        v.push(Sig { label: "op.create_unique_constraint(constraint_name, table_name, columns, *, schema=None)", params: ps });
    }
    {
        let mut ps: Vec<(&'static str, &'static str)> = Vec::new();
        ps.push(("constraint_name", "Constraint to drop."));
        ps.push(("table_name", "Table holding the constraint."));
        ps.push(("type_=None", "Constraint type hint."));
        ps.push(("schema=None", "Optional schema name."));
        v.push(Sig { label: "op.drop_constraint(constraint_name, table_name, *, type_=None, schema=None)", params: ps });
    }
    {
        let mut ps: Vec<(&'static str, &'static str)> = Vec::new();
        ps.push(("constraint_name", "Constraint name."));
        ps.push(("source_table", "Table holding the FK."));
        ps.push(("referent_table", "Table being referenced."));
        ps.push(("local_cols", "Local column names."));
        ps.push(("remote_cols", "Referenced column names."));
        v.push(Sig { label: "op.create_foreign_key(constraint_name, source_table, referent_table, local_cols, remote_cols)", params: ps });
    }
    {
        let mut ps: Vec<(&'static str, &'static str)> = Vec::new();
        ps.push(("constraint_name", "Constraint name."));
        ps.push(("table_name", "Table to constrain."));
        ps.push(("condition", "SQL condition expression."));
        ps.push(("schema=None", "Optional schema name."));
        v.push(Sig { label: "op.create_check_constraint(constraint_name, table_name, condition, *, schema=None)", params: ps });
    }
    {
        let mut ps: Vec<(&'static str, &'static str)> = Vec::new();
        ps.push(("old_table_name", "Current table name."));
        ps.push(("new_table_name", "New table name."));
        ps.push(("schema=None", "Optional schema name."));
        v.push(Sig { label: "op.rename_table(old_table_name, new_table_name, *, schema=None)", params: ps });
    }
    {
        let mut ps: Vec<(&'static str, &'static str)> = Vec::new();
        ps.push(("sqltext", "SQL string or ClauseElement to execute."));
        ps.push(("execution_options=immutabledict({})", "Execution options."));
        v.push(Sig { label: "op.execute(sqltext, *, execution_options=immutabledict({}))", params: ps });
    }
    {
        let mut ps: Vec<(&'static str, &'static str)> = Vec::new();
        ps.push(("table", "Table object to insert into."));
        ps.push(("rows", "List of dicts to insert."));
        ps.push(("multiinsert=True", "Use multi-row INSERT syntax."));
        v.push(Sig { label: "op.bulk_insert(table, rows, *, multiinsert=True)", params: ps });
    }
    assert(v@.map_values(|s: Sig| sig_v(&s)) =~~= op_sigs());
    v
}

/// The help shown: one signature, its parameters, the active one.
#[derive(Debug, Clone)]
pub struct SignatureHelp {
    pub label: String,
    pub documentation: Option<String>,
    /// Each parameter's label and documentation.
    pub parameters: Vec<(String, String)>,
    pub active_parameter: u32,
}

/// The help as values.
pub struct HelpV {
    pub label: Seq<char>,
    pub doc: Option<Seq<char>>,
    pub params: Seq<(Seq<char>, Seq<char>)>,
    pub active: u32,
}

pub open spec fn help_v(h: Option<SignatureHelp>) -> Option<HelpV> {
    match h {
        None => None,
        Some(x) => Some(
            HelpV {
                label: x.label@,
                doc: match x.documentation {
                    Some(d) => Some(d@),
                    None => None,
                },
                params: x.parameters@.map_values(|p: (String, String)| (p.0@, p.1@)),
                active: x.active_parameter,
            },
        ),
    }
}

/// The active index, kept within the parameters.
pub open spec fn clamp_active(active: u32, n: nat) -> u32 {
    let last: u32 = (if n == 0 {
        0
    } else {
        (n - 1) as nat
    }) as u32;
    if active <= last {
        active
    } else {
        last
    }
}

pub open spec fn static_help(sig: SigV, active: u32) -> HelpV {
    HelpV { label: sig.0, doc: None, params: sig.1, active: clamp_active(active, sig.1.len()) }
}

// ── The call around the cursor ───────────────────────────────────────────────

/// The scan for unclosed parentheses: their indices (innermost last) and
/// the quote state.
pub struct ParenScan {
    pub stack: Seq<int>,
    pub in_str: bool,
    pub quote: char,
}

pub open spec fn paren_step(c: ParenScan, ch: char, i: int) -> ParenScan {
    if c.in_str {
        if ch == c.quote {
            ParenScan { in_str: false, ..c }
        } else {
            c
        }
    } else if ch == '"' || ch == '\'' {
        ParenScan { in_str: true, quote: ch, ..c }
    } else if ch == '(' {
        ParenScan { stack: c.stack.push(i), ..c }
    } else if ch == ')' {
        ParenScan {
            stack: if c.stack.len() > 0 {
                c.stack.drop_last()
            } else {
                c.stack
            },
            ..c
        }
    } else {
        c
    }
}

pub open spec fn paren_scan(s: Seq<char>, n: int) -> ParenScan
    decreases n,
{
    if n <= 0 || n > s.len() {
        ParenScan { stack: Seq::empty(), in_str: false, quote: '"' }
    } else {
        paren_step(paren_scan(s, n - 1), s[n - 1], n - 1)
    }
}

/// The dotted name written before the parenthesis at `open`.
pub open spec fn callee_text(s: Seq<char>, open: int) -> Seq<char> {
    let t = trim_end(s.take(open));
    t.skip(name_start(t, t.len() as int))
}

/// The innermost unclosed call: the last segment of its name and the index
/// of its parenthesis; none without a name.
pub open spec fn sig_call(s: Seq<char>) -> Option<(Seq<char>, int)> {
    let st = paren_scan(s, s.len() as int).stack;
    if st.len() == 0 {
        None
    } else {
        let open = st.last();
        let name = callee_text(s, open);
        if name.len() == 0 {
            None
        } else {
            Some((last_segment(name), open))
        }
    }
}

/// Counting the top-level commas of a call.
pub struct CommaCount {
    pub depth: int,
    pub commas: nat,
    pub in_str: bool,
    pub quote: char,
}

pub open spec fn comma_count_step(c: CommaCount, ch: char) -> CommaCount {
    if c.in_str {
        if ch == c.quote {
            CommaCount { in_str: false, ..c }
        } else {
            c
        }
    } else if ch == '"' || ch == '\'' {
        CommaCount { in_str: true, quote: ch, ..c }
    } else if ch == '(' {
        CommaCount { depth: c.depth + 1, ..c }
    } else if ch == ')' {
        CommaCount { depth: c.depth - 1, ..c }
    } else if ch == ',' && c.depth == 1 {
        CommaCount { commas: c.commas + 1, ..c }
    } else {
        c
    }
}

pub open spec fn comma_count(t: Seq<char>) -> CommaCount
    decreases t.len(),
{
    if t.len() == 0 {
        CommaCount { depth: 0, commas: 0, in_str: false, quote: '"' }
    } else {
        comma_count_step(comma_count(t.drop_last()), t.last())
    }
}

/// The positional parameter the cursor fills: the call's top-level commas so far.
pub open spec fn commas_from(s: Seq<char>, open: int) -> nat {
    comma_count(s.skip(open)).commas
}

/// The last index (before `i`) holding a comma or an opening parenthesis, or -1.
pub open spec fn last_sep(t: Seq<char>, i: int) -> int
    decreases i,
{
    if i <= 0 || i > t.len() {
        -1
    } else if t[i - 1] == ',' || t[i - 1] == '(' {
        i - 1
    } else {
        last_sep(t, i - 1)
    }
}

/// The first index (from `i`) holding `=`, or -1.
pub open spec fn first_eq(t: Seq<char>, i: int) -> int
    decreases t.len() - i,
{
    if i < 0 || i >= t.len() {
        -1
    } else if t[i] == '=' {
        i
    } else {
        first_eq(t, i + 1)
    }
}

/// The keyword being filled at the cursor: the name before the `=` of the
/// last argument, if it has one.
pub open spec fn kwarg_key_at(s: Seq<char>, open: int) -> Option<Seq<char>> {
    let inner = s.skip(open);
    let k = last_sep(inner, inner.len() as int);
    let after = if k >= 0 {
        inner.skip(k + 1)
    } else {
        inner
    };
    let t = trim_start(after);
    let e = first_eq(t, 0);
    if e >= 0 && word_prefix(t.take(e)).len() > 0 {
        Some(word_prefix(t.take(e)))
    } else {
        None
    }
}

/// The first parameter (from `i`) whose label starts with the keyword.
pub open spec fn param_starting(params: Seq<(Seq<char>, Seq<char>)>, key: Seq<char>, i: int) -> Option<int>
    decreases params.len() - i,
{
    if i < 0 || i >= params.len() {
        None
    } else if starts_with(params[i].0, key) {
        Some(i)
    } else {
        param_starting(params, key, i + 1)
    }
}

/// In `relationship(...)` the keyword being filled picks its parameter.
pub open spec fn rel_active(s: Seq<char>, open: int, active: u32) -> u32 {
    match kwarg_key_at(s, open) {
        Some(k) => match param_starting(rel_sig().1, k, 0) {
            Some(i) => i as u32,
            None => active,
        },
        None => active,
    }
}

/// The first catalogued operation whose label starts with `op.NAME(`.
pub open spec fn op_sig_from(name: Seq<char>, i: int) -> Option<SigV>
    decreases op_sigs().len() - i,
{
    if i < 0 || i >= op_sigs().len() {
        None
    } else if starts_with(op_sigs()[i].0, "op."@ + name + "("@) {
        Some(op_sigs()[i])
    } else {
        op_sig_from(name, i + 1)
    }
}

// ── Synthesized constructors ─────────────────────────────────────────────────

/// A column may be left out of the constructor.
pub open spec fn optional_col(c: Column) -> bool {
    c.args.nullable || c.args.default is Some || c.args.server_default is Some
}

pub open spec fn col_label(c: Column) -> Seq<char> {
    if optional_col(c) {
        c.name@ + ": Optional["@ + type_text(c.mapped_type@) + "] = …"@
    } else {
        c.name@ + ": "@ + type_text(c.mapped_type@)
    }
}

pub open spec fn col_doc(c: Column) -> Seq<char> {
    if optional_col(c) {
        "optional"@
    } else {
        "required"@
    }
}

/// The first column (from `i`) with this name.
pub open spec fn col_named(cols: Seq<Column>, key: Seq<char>, i: int) -> Option<int>
    decreases cols.len() - i,
{
    if i < 0 || i >= cols.len() {
        None
    } else if cols[i].name@ == key {
        Some(i)
    } else {
        col_named(cols, key, i + 1)
    }
}

/// In a constructor the keyword being filled picks its column, else the
/// positional index (kept within the columns).
pub open spec fn ctor_active(cols: Seq<Column>, s: Seq<char>, open: int) -> u32 {
    let positional = commas_from(s, open) as u32;
    match kwarg_key_at(s, open) {
        Some(k) => match col_named(cols, k, 0) {
            Some(i) => i as u32,
            None => positional,
        },
        None => clamp_active(positional, cols.len()),
    }
}

/// A model's constructor: its columns in source order as parameters.
pub open spec fn ctor_help(st: WorkspaceState, name: Seq<char>, s: Seq<char>, open: int) -> Option<HelpV> {
    match lookup_model(st, name) {
        None => None,
        Some(m) => {
            let cols = sorted_cols(m);
            Some(
                HelpV {
                    label: name + "("@ + join(cols.map_values(|c: Column| col_label(c)), ", "@) + ")"@,
                    doc: Some("Synthesized from "@ + name + "'s mapped columns."@),
                    params: cols.map_values(|c: Column| (col_label(c), col_doc(c))),
                    active: ctor_active(cols, s, open),
                },
            )
        },
    }
}

/// The help at the cursor: SQLAlchemy's constructors by name, Alembic's
/// operations in a file that mentions `op.`, else the model constructor of
/// that name.
pub open spec fn sig_help_spec(source: Seq<char>, line: u32, col: u32, st: WorkspaceState) -> Option<HelpV> {
    if line_at(source, line) is None {
        None
    } else {
        let p = line_prefix_spec(source, line, col);
        match sig_call(p) {
            None => None,
            Some((base, open)) => {
                let active = commas_from(p, open) as u32;
                if base == "ForeignKey"@ {
                    Some(static_help(fk_sig(), active))
                } else if base == "relationship"@ {
                    Some(static_help(rel_sig(), rel_active(p, open, active)))
                } else if base == "mapped_column"@ {
                    Some(static_help(mc_sig(), active))
                } else if contains(source, "op."@) {
                    let full = callee_text(p, open);
                    if starts_with(full, "op."@) {
                        match op_sig_from(full.skip("op."@.len() as int), 0) {
                            Some(sig) => Some(static_help(sig, active)),
                            None => None,
                        }
                    } else {
                        ctor_help(st, base, p, open)
                    }
                } else {
                    ctor_help(st, base, p, open)
                }
            },
        }
    }
}

// ── Executable parts ─────────────────────────────────────────────────────────

fn static_sig(sig: &Sig, active: u32) -> (r: SignatureHelp)
    ensures
        help_v(Some(r)) == Some(static_help(sig_v(sig), active)),
{
    let n = sig.params.len();
    let last: u32 = (if n == 0 {
        0
    } else {
        n - 1
    }) as u32;
    let clamped = if active <= last {
        active
    } else {
        last
    };
    let mut ps: Vec<(String, String)> = Vec::new();
    let mut i: usize = 0;
    while i < sig.params.len()
        invariant
            i <= sig.params@.len(),
            ps@.len() == i,
            forall|k: int| 0 <= k < i ==> (#[trigger] ps@[k]).0@ == sig.params@[k].0@ && ps@[k].1@ == sig.params@[k].1@,
        decreases sig.params@.len() - i,
    {
        let (a, b) = sig.params[i];
        ps.push((crate::text::to_owned(a), crate::text::to_owned(b)));
        i = i + 1;
    }
    assert(ps@.map_values(|p: (String, String)| (p.0@, p.1@)) =~= sig_v(sig).1);
    SignatureHelp {
        label: crate::text::to_owned(sig.label),
        documentation: None,
        parameters: ps,
        active_parameter: clamped,
    }
}

fn sig_call_exec(s: &[char]) -> (r: Option<(Vec<char>, usize)>)
    ensures
        match r {
            Some((b, o)) => sig_call(s@) == Some((b@, o as int)) && o < s@.len(),
            None => sig_call(s@) is None,
        },
{
    let mut stack: Vec<usize> = Vec::new();
    let mut in_str = false;
    let mut quote = '"';
    let mut i: usize = 0;
    while i < s.len()
        invariant
            i <= s@.len(),
            ({
                let c = paren_scan(s@, i as int);
                &&& c.stack == stack@.map_values(|x: usize| x as int)
                &&& c.in_str == in_str
                &&& c.quote == quote
            }),
            forall|k: int| 0 <= k < stack@.len() ==> #[trigger] stack@[k] < i,
        decreases s@.len() - i,
    {
        let ch = s[i];
        if in_str {
            if ch == quote {
                in_str = false;
            }
        } else if ch == '"' || ch == '\'' {
            in_str = true;
            quote = ch;
        } else if ch == '(' {
            stack.push(i);
            assert(stack@.map_values(|x: usize| x as int) =~= paren_scan(s@, i as int).stack.push(i as int));
        } else if ch == ')' {
            if stack.len() > 0 {
                stack.pop();
                assert(stack@.map_values(|x: usize| x as int) =~= paren_scan(s@, i as int).stack.drop_last());
            }
        }
        i = i + 1;
    }
    if stack.len() == 0 {
        return None;
    }
    let open = stack[stack.len() - 1];
    let before = crate::text::slice_vec(s, 0, open);
    assert(before@ =~= s@.take(open as int));
    let t = trim_end_exec(before.as_slice());
    let st = name_start_exec(t.as_slice(), t.len());
    let name = crate::text::slice_vec(t.as_slice(), st, t.len());
    assert(name@ =~= callee_text(s@, open as int));
    if name.len() == 0 {
        return None;
    }
    let base = last_segment_exec(name.as_slice());
    Some((base, open))
}

fn commas_from_exec(s: &[char], open: usize) -> (r: u32)
    requires
        open <= s@.len(),
        s@.len() < u32::MAX,
    ensures
        r as nat == commas_from(s@, open as int),
{
    let ghost t = s@.skip(open as int);
    let mut depth: i64 = 0;
    let mut commas: u32 = 0;
    let mut in_str = false;
    let mut quote = '"';
    let mut i: usize = open;
    while i < s.len()
        invariant
            open <= i <= s@.len(),
            s@.len() < u32::MAX,
            t == s@.skip(open as int),
            ({
                let c = comma_count(t.take(i - open));
                &&& c.depth == depth as int
                &&& c.commas == commas as nat
                &&& c.in_str == in_str
                &&& c.quote == quote
            }),
            -((i - open) as int) <= depth <= i - open,
            commas <= i - open,
        decreases s@.len() - i,
    {
        proof {
            assert(t.take(i - open + 1).drop_last() =~= t.take(i - open));
            assert(t.take(i - open + 1).last() == s@[i as int]);
        }
        let ch = s[i];
        if in_str {
            if ch == quote {
                in_str = false;
            }
        } else if ch == '"' || ch == '\'' {
            in_str = true;
            quote = ch;
        } else if ch == '(' {
            depth = depth + 1;
        } else if ch == ')' {
            depth = depth - 1;
        } else if ch == ',' && depth == 1 {
            commas = commas + 1;
        }
        i = i + 1;
    }
    assert(t.take(s@.len() - open) =~= t);
    commas
}

fn kwarg_key_at_exec(s: &[char], open: usize) -> (r: Option<Vec<char>>)
    requires
        open <= s@.len(),
    ensures
        match r {
            Some(k) => kwarg_key_at(s@, open as int) == Some(k@),
            None => kwarg_key_at(s@, open as int) is None,
        },
{
    let inner = crate::text::slice_vec(s, open, s.len());
    assert(inner@ =~= s@.skip(open as int));
    let mut k = inner.len();
    while k > 0 && !(inner[k - 1] == ',' || inner[k - 1] == '(')
        invariant
            k <= inner@.len(),
            last_sep(inner@, inner@.len() as int) == last_sep(inner@, k as int),
        decreases k,
    {
        k = k - 1;
    }
    let after = if k > 0 {
        crate::text::slice_vec(inner.as_slice(), k, inner.len())
    } else {
        inner
    };
    let t = trim_start_exec(after.as_slice());
    let mut e: usize = 0;
    while e < t.len() && t[e] != '='
        invariant
            e <= t@.len(),
            first_eq(t@, 0) == first_eq(t@, e as int),
        decreases t@.len() - e,
    {
        e = e + 1;
    }
    if e == t.len() {
        return None;
    }
    let head = crate::text::slice_vec(t.as_slice(), 0, e);
    assert(head@ =~= t@.take(e as int));
    let key = word_prefix_exec(head.as_slice());
    if key.len() > 0 {
        Some(key)
    } else {
        None
    }
}

fn col_label_exec(c: &Column) -> (r: String)
    ensures
        r@ == col_label(*c),
{
    let t = c.mapped_type.to_display();
    if c.args.nullable || c.args.default.is_some() || c.args.server_default.is_some() {
        let mut s = crate::text::concat3(c.name.as_str(), ": Optional[", t.as_str());
        crate::text::push_str(&mut s, "] = …");
        s
    } else {
        crate::text::concat3(c.name.as_str(), ": ", t.as_str())
    }
}

fn synthesize_constructor(model_name: &str, s: &[char], open: usize, state: &WorkspaceState) -> (r: Option<
    SignatureHelp,
>)
    requires
        open <= s@.len(),
        s@.len() < u32::MAX,
    ensures
        help_v(r) == ctor_help(*state, model_name@, s@, open as int),
{
    let m = lookup_model_exec(state, model_name)?;
    let cols = sorted_columns(m);
    let ghost cv = sorted_cols(*m);
    let mut labels: Vec<String> = Vec::new();
    let mut params: Vec<(String, String)> = Vec::new();
    let mut i: usize = 0;
    while i < cols.len()
        invariant
            i <= cols@.len(),
            cols@.map_values(|c: &Column| *c) == cv,
            labels@.len() == i,
            params@.len() == i,
            forall|k: int| 0 <= k < i ==> (#[trigger] labels@[k])@ == col_label(cv[k]),
            forall|k: int|
                0 <= k < i ==> (#[trigger] params@[k]).0@ == col_label(cv[k]) && params@[k].1@ == col_doc(cv[k]),
        decreases cols@.len() - i,
    {
        let c = cols[i];
        assert(cv[i as int] == *c);
        let l = col_label_exec(c);
        let d = if c.args.nullable || c.args.default.is_some() || c.args.server_default.is_some() {
            "optional"
        } else {
            "required"
        };
        labels.push(l.clone());
        params.push((l, crate::text::to_owned(d)));
        i = i + 1;
    }
    assert(views(labels@) =~= cv.map_values(|c: Column| col_label(c)));
    assert(params@.map_values(|p: (String, String)| (p.0@, p.1@)) =~= cv.map_values(
        |c: Column| (col_label(c), col_doc(c)),
    ));
    let mut label = crate::text::concat2(model_name, "(");
    crate::types::push_joined(&mut label, &labels, ", ");
    crate::text::push_str(&mut label, ")");
    let doc = crate::text::concat3("Synthesized from ", model_name, "'s mapped columns.");
    let positional = commas_from_exec(s, open);
    assert(positional == commas_from(s@, open as int) as u32);
    let active = match kwarg_key_at_exec(s, open) {
        Some(k) => {
            let mut j: usize = 0;
            let mut found: Option<u32> = None;
            while j < cols.len()
                invariant
                    j <= cols@.len(),
                    cols@.map_values(|c: &Column| *c) == cv,
                    found is None ==> col_named(cv, k@, 0) == col_named(cv, k@, j as int),
                    found is Some ==> (col_named(cv, k@, 0) matches Some(x) && found->0 == x as u32),
                decreases cols@.len() - j,
            {
                assert(cv[j as int] == *cols@[j as int]);
                if found.is_none() && crate::text::chars_eq(to_chars(cols[j].name.as_str()).as_slice(), k.as_slice()) {
                    found = Some(j as u32);
                }
                j = j + 1;
            }
            match found {
                Some(x) => x,
                None => positional,
            }
        },
        None => {
            let n = cols.len();
            let last: u32 = (if n == 0 {
                0
            } else {
                n - 1
            }) as u32;
            if positional <= last {
                positional
            } else {
                last
            }
        },
    };
    Some(SignatureHelp { label, documentation: Some(doc), parameters: params, active_parameter: active })
}

/// Signature help at `pos` in `source`, or `None` outside a known call.
#[verifier::loop_isolation(false)]
pub fn provide_signature_help(_uri: &str, source: &str, pos: crate::types::Position, state: &WorkspaceState) -> (r:
    Option<SignatureHelp>)
    requires
        prefix_ok(source@, pos.line, pos.character),
        line_prefix_spec(source@, pos.line, pos.character).len() < u32::MAX,
    ensures
        help_v(r) == sig_help_spec(source@, pos.line, pos.character, *state),
{
    let ls = crate::text::lines_exec(source);
    if (pos.line as usize) >= ls.len() {
        return None;
    }
    let p = line_prefix(source, pos.line, pos.character);
    let (base, open) = sig_call_exec(p.as_slice())?;
    let active = commas_from_exec(p.as_slice(), open);
    assert(active == commas_from(p@, open as int) as u32);
    if crate::text::chars_eq(base.as_slice(), to_chars("ForeignKey").as_slice()) {
        return Some(static_sig(&fk_sig_exec(), active));
    }
    if crate::text::chars_eq(base.as_slice(), to_chars("relationship").as_slice()) {
        let rs = rel_sig_exec();
        let a = match kwarg_key_at_exec(p.as_slice(), open) {
            Some(k) => {
                let mut j: usize = 0;
                let mut found: Option<u32> = None;
                while j < rs.params.len()
                    invariant
                        j <= rs.params@.len(),
                        sig_v(&rs) == rel_sig(),
                        found is None ==> param_starting(rel_sig().1, k@, 0) == param_starting(rel_sig().1, k@, j as int),
                        found is Some ==> (param_starting(rel_sig().1, k@, 0) matches Some(x) && found->0 == x as u32),
                    decreases rs.params@.len() - j,
                {
                    if found.is_none() && crate::text::starts_with_exec(
                        to_chars(rs.params[j].0).as_slice(),
                        k.as_slice(),
                    ) {
                        found = Some(j as u32);
                    }
                    j = j + 1;
                }
                match found {
                    Some(x) => x,
                    None => active,
                }
            },
            None => active,
        };
        return Some(static_sig(&rs, a));
    }
    if crate::text::chars_eq(base.as_slice(), to_chars("mapped_column").as_slice()) {
        return Some(static_sig(&mc_sig_exec(), active));
    }
    let name = crate::text::from_chars(base.as_slice());
    if str_contains(source, "op.") {
        let before = crate::text::slice_vec(p.as_slice(), 0, open);
        assert(before@ =~= p@.take(open as int));
        let t = trim_end_exec(before.as_slice());
        let st = name_start_exec(t.as_slice(), t.len());
        let full = crate::text::slice_vec(t.as_slice(), st, t.len());
        assert(full@ =~= callee_text(p@, open as int));
        let opdot = to_chars("op.");
        if crate::text::starts_with_exec(full.as_slice(), opdot.as_slice()) {
            let rest = crate::text::slice_vec(full.as_slice(), opdot.len(), full.len());
            assert(rest@ =~= full@.skip("op."@.len() as int));
            let mut want = crate::text::to_owned("op.");
            crate::text::push_chars(&mut want, rest.as_slice());
            crate::text::push_str(&mut want, "(");
            let wv = to_chars(want.as_str());
            let sigs = op_sigs_exec();
            let mut j: usize = 0;
            while j < sigs.len()
                invariant
                    j <= sigs@.len(),
                    sigs@.map_values(|s: Sig| sig_v(&s)) == op_sigs(),
                    wv@ == "op."@ + rest@ + "("@,
                    op_sig_from(rest@, 0) == op_sig_from(rest@, j as int),
                decreases sigs@.len() - j,
            {
                assert(sig_v(&sigs@[j as int]) == op_sigs()[j as int]);
                if crate::text::starts_with_exec(to_chars(sigs[j].label).as_slice(), wv.as_slice()) {
                    return Some(static_sig(&sigs[j], active));
                }
                j = j + 1;
            }
            return None;
        }
        return synthesize_constructor(name.as_str(), p.as_slice(), open, state);
    }
    synthesize_constructor(name.as_str(), p.as_slice(), open, state)
}


/// The highlighted parameter of a catalogued signature is one of its
/// parameters (when it has any).
pub proof fn law_active_param_in_range(sig: SigV, active: u32)
    requires
        0 < sig.1.len() <= u32::MAX,
    ensures
        static_help(sig, active).active < sig.1.len(),
        static_help(sig, active).active <= active,
{
}

} // verus!
