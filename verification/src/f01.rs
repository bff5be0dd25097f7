//! ORM correctness rules (SQLA-1xx..4xx): a pure function of one file's
//! models and the workspace index, returning editor diagnostics.
use vstd::prelude::*;

use crate::diagnostics::{dv, dviews, make_diag, DiagView, LspDiagnostic};
use crate::state::WorkspaceState;
use crate::text::{concat3, lowercase, push_str, split_trim_nonempty, str_eq, to_owned};
use crate::types::{type_text, Column, MappedType, Model, Range, Relationship, Severity, TypeV};

verus! {

// ── Sequencing ───────────────────────────────────────────────────────────────

/// The findings `f` gives for each value of `s`, in order.
pub open spec fn over<T>(s: Seq<(String, T)>, f: spec_fn(T) -> Seq<DiagView>) -> Seq<DiagView>
    decreases s.len(),
{
    if s.len() == 0 {
        Seq::empty()
    } else {
        over(s.drop_last(), f) + f(s.last().1)
    }
}

pub proof fn lemma_over_take<T>(s: Seq<(String, T)>, f: spec_fn(T) -> Seq<DiagView>, i: int)
    requires
        0 <= i < s.len(),
    ensures
        over(s.take(i + 1), f) == over(s.take(i), f) + f(s[i].1),
{
    assert(s.take(i + 1).drop_last() =~= s.take(i));
}

/// One finding.
pub open spec fn one(code: Seq<char>, sev: Severity, msg: Seq<char>, r: Range) -> Seq<DiagView> {
    seq![dv(code, sev, msg, r)]
}

/// Appends one finding.
pub(crate) fn push_diag(out: &mut Vec<LspDiagnostic>, d: LspDiagnostic)
    ensures
        dviews(final(out)@) == dviews(old(out)@).push(d@),
{
    out.push(d);
    assert(dviews(out@) =~= dviews(old(out)@).push(d@));
}

/// Appends a list of findings.
pub(crate) fn append_diags(out: &mut Vec<LspDiagnostic>, v: Vec<LspDiagnostic>)
    ensures
        dviews(final(out)@) == dviews(old(out)@) + dviews(v@),
{
    let ghost start = dviews(out@);
    let mut i: usize = 0;
    let n = v.len();
    for d in it: v
        invariant
            n == v@.len(),
            it.seq() == v@,
            dviews(out@) == start + dviews(v@.take(it.index() as int)),
    {
        proof {
            assert(dviews(v@.take(it.index() + 1)) =~= dviews(v@.take(it.index() as int)).push(d@));
        }
        push_diag(out, d);
    }
    assert(v@.take(n as int) =~= v@);
}

/// A string of five pieces.
pub(crate) fn concat5(a: &str, b: &str, c: &str, d: &str, e: &str) -> (s: String)
    ensures
        s@ == a@ + b@ + c@ + d@ + e@,
{
    let mut s = concat3(a, b, c);
    push_str(&mut s, d);
    push_str(&mut s, e);
    s
}

// ── Types ────────────────────────────────────────────────────────────────────

/// The type with every `Optional[...]` wrapper removed.
pub open spec fn base_v(t: TypeV) -> TypeV
    decreases t,
{
    match t {
        TypeV::Optional(inner) => base_v(*inner),
        _ => t,
    }
}

/// Which variant a type is.
pub open spec fn kind_v(t: TypeV) -> int {
    match t {
        TypeV::Int => 0,
        TypeV::Str => 1,
        TypeV::Float => 2,
        TypeV::Bool => 3,
        TypeV::DateTime => 4,
        TypeV::Optional(_) => 5,
        TypeV::List(_) => 6,
        TypeV::ForwardRef(_) => 7,
        TypeV::SqlType(_, _) => 8,
        TypeV::Unknown(_) => 9,
    }
}

/// Whether two column types agree once `Optional` is stripped; unknown when
/// either side is unresolved.
pub open spec fn types_match_v(a: TypeV, b: TypeV) -> Option<bool> {
    if base_v(a) is Unknown || base_v(b) is Unknown {
        None
    } else {
        Some(kind_v(base_v(a)) == kind_v(base_v(b)))
    }
}

/// The annotation is `Optional[...]`.
pub fn is_optional(t: &MappedType) -> (r: bool)
    ensures
        r == (t@ is Optional),
{
    match t {
        MappedType::Optional(_) => true,
        _ => false,
    }
}

/// The type under any number of `Optional[...]` wrappers.
pub fn base_type(t: &MappedType) -> (r: &MappedType)
    ensures
        r@ == base_v(t@),
    decreases t,
{
    match t {
        MappedType::Optional(inner) => base_type(inner),
        _ => t,
    }
}

fn kind(t: &MappedType) -> (k: u8)
    ensures
        k == kind_v(t@),
{
    match t {
        MappedType::Int => 0,
        MappedType::Str => 1,
        MappedType::Float => 2,
        MappedType::Bool => 3,
        MappedType::DateTime => 4,
        MappedType::Optional(_) => 5,
        MappedType::List(_) => 6,
        MappedType::ForwardRef(_) => 7,
        MappedType::SqlType { .. } => 8,
        MappedType::Unknown(_) => 9,
    }
}

/// Compare two column types by variant, ignoring `Optional`; `None` when
/// either side is unknown.
pub fn types_match(a: &MappedType, b: &MappedType) -> (r: Option<bool>)
    ensures
        r == types_match_v(a@, b@),
{
    let a = base_type(a);
    let b = base_type(b);
    match (a, b) {
        (MappedType::Unknown(_), _) => None,
        (_, MappedType::Unknown(_)) => None,
        _ => Some(kind(a) == kind(b)),
    }
}

// ── W101 ─────────────────────────────────────────────────────────────────────

/// The SQLAlchemy declarative roots, which need no table.
pub open spec fn is_abstract_base(b: Seq<char>) -> bool {
    b == "DeclarativeBase"@ || b == "DeclarativeBaseNoMeta"@ || b == "MappedAsDataclass"@
}

pub open spec fn has_abstract_base(bases: Seq<String>) -> bool {
    exists|i: int| 0 <= i < bases.len() && is_abstract_base(#[trigger] bases[i]@)
}

/// W101: a concrete model without `__tablename__`.
pub open spec fn w101_spec(m: Model) -> Seq<DiagView> {
    if m.table_name.is_none() && !has_abstract_base(m.bases@) {
        one(
            "SQLA-W101"@,
            Severity::Warning,
            "Model `"@ + m.name@ + "` has no __tablename__"@,
            m.name_range,
        )
    } else {
        Seq::empty()
    }
}

fn abstract_base_exec(b: &str) -> (r: bool)
    ensures
        r == is_abstract_base(b@),
{
    str_eq(b, "DeclarativeBase") || str_eq(b, "DeclarativeBaseNoMeta") || str_eq(
        b,
        "MappedAsDataclass",
    )
}

fn w101(model: &Model) -> (r: Vec<LspDiagnostic>)
    ensures
        dviews(r@) == w101_spec(*model),
{
    if model.table_name.is_some() {
        return Vec::new();
    }
    let mut i: usize = 0;
    while i < model.bases.len()
        invariant
            i <= model.bases@.len(),
            forall|j: int| 0 <= j < i ==> !is_abstract_base(#[trigger] model.bases@[j]@),
        decreases model.bases@.len() - i,
    {
        if abstract_base_exec(model.bases[i].as_str()) {
            assert(is_abstract_base(model.bases@[i as int]@));
            return Vec::new();
        }
        i = i + 1;
    }
    let msg = concat3("Model `", model.name.as_str(), "` has no __tablename__");
    let mut out: Vec<LspDiagnostic> = Vec::new();
    push_diag(&mut out, make_diag("SQLA-W101", Severity::Warning, msg, model.name_range));
    out
}

// ── E102 ─────────────────────────────────────────────────────────────────────

/// Names of the models in `models` that claim `table`, in order.
pub open spec fn owners_in(models: Seq<Model>, table: Seq<char>) -> Seq<Seq<char>>
    decreases models.len(),
{
    if models.len() == 0 {
        Seq::empty()
    } else {
        let rest = owners_in(models.drop_last(), table);
        match models.last().table_name {
            Some(t) => if t@ == table {
                rest.push(models.last().name@)
            } else {
                rest
            },
            None => rest,
        }
    }
}

/// Names of every indexed model that claims `table`, file by file.
pub open spec fn owners_all(files: Seq<(String, Vec<Model>)>, table: Seq<char>) -> Seq<Seq<char>>
    decreases files.len(),
{
    if files.len() == 0 {
        Seq::empty()
    } else {
        owners_all(files.drop_last(), table) + owners_in(files.last().1@, table)
    }
}

/// The first of `owners` that is not `name`.
pub open spec fn first_other(owners: Seq<Seq<char>>, name: Seq<char>) -> Option<Seq<char>>
    decreases owners.len(),
{
    if owners.len() == 0 {
        None
    } else if owners[0] != name {
        Some(owners[0])
    } else {
        first_other(owners.drop_first(), name)
    }
}

/// E102: the model's table is claimed by more than one model.
pub open spec fn e102_spec(m: Model, owners: Seq<Seq<char>>) -> Seq<DiagView> {
    match m.table_name {
        Some(t) => if owners.len() > 1 {
            match first_other(owners, m.name@) {
                Some(other) => one(
                    "SQLA-E102"@,
                    Severity::Error,
                    "Duplicate table name `"@ + t@ + "` (also used by `"@ + other + "`)"@,
                    m.name_range,
                ),
                None => Seq::empty(),
            }
        } else {
            Seq::empty()
        },
        None => Seq::empty(),
    }
}

/// The views of a list of strings.
pub open spec fn sviews(v: Seq<String>) -> Seq<Seq<char>> {
    v.map_values(|s: String| s@)
}

pub(crate) fn push_string(out: &mut Vec<String>, s: String)
    ensures
        sviews(final(out)@) == sviews(old(out)@).push(s@),
{
    out.push(s);
    assert(sviews(out@) =~= sviews(old(out)@).push(s@));
}

fn owners_of(models: &Vec<Model>, table: &str, out: &mut Vec<String>)
    ensures
        sviews(final(out)@) == sviews(old(out)@) + owners_in(models@, table@),
{
    let ghost start = sviews(out@);
    let mut i: usize = 0;
    while i < models.len()
        invariant
            i <= models@.len(),
            sviews(out@) == start + owners_in(models@.take(i as int), table@),
        decreases models@.len() - i,
    {
        proof {
            assert(models@.take(i + 1).drop_last() =~= models@.take(i as int));
        }
        let m = &models[i];
        match &m.table_name {
            Some(t) => {
                if str_eq(t.as_str(), table) {
                    push_string(out, m.name.clone());
                }
            },
            None => {},
        }
        i = i + 1;
    }
    assert(models@.take(models@.len() as int) =~= models@);
}

/// Every indexed model claiming `table`.
fn table_owners(state: &WorkspaceState, table: &str) -> (r: Vec<String>)
    ensures
        sviews(r@) == owners_all(state.file_models.seq(), table@),
{
    let files = state.file_models.entries();
    let mut out: Vec<String> = Vec::new();
    let mut i: usize = 0;
    while i < files.len()
        invariant
            i <= files@.len(),
            files@ == state.file_models.seq(),
            sviews(out@) == owners_all(files@.take(i as int), table@),
        decreases files@.len() - i,
    {
        proof {
            assert(files@.take(i + 1).drop_last() =~= files@.take(i as int));
        }
        owners_of(&files[i].1, table, &mut out);
        i = i + 1;
    }
    assert(files@.take(files@.len() as int) =~= files@);
    out
}

fn first_other_exec(owners: &Vec<String>, name: &str) -> (r: Option<usize>)
    ensures
        match r {
            Some(i) => i < owners@.len() && first_other(sviews(owners@), name@) == Some(
                owners@[i as int]@,
            ),
            None => first_other(sviews(owners@), name@) is None,
        },
{
    let ghost s = sviews(owners@);
    assert(s.skip(0) =~= s);
    let mut i: usize = 0;
    while i < owners.len()
        invariant
            i <= owners@.len(),
            s == sviews(owners@),
            first_other(s, name@) == first_other(s.skip(i as int), name@),
        decreases owners@.len() - i,
    {
        if !str_eq(owners[i].as_str(), name) {
            return Some(i);
        }
        proof {
            assert(s.skip(i as int).drop_first() =~= s.skip(i + 1));
        }
        i = i + 1;
    }
    None
}

fn e102(model: &Model, state: &WorkspaceState) -> (r: Vec<LspDiagnostic>)
    ensures
        dviews(r@) == e102_spec(*model, owners_all(state.file_models.seq(), model.table_name->0@)),
{
    let mut out: Vec<LspDiagnostic> = Vec::new();
    match &model.table_name {
        None => out,
        Some(table) => {
            let owners = table_owners(state, table.as_str());
            if owners.len() <= 1 {
                return out;
            }
            match first_other_exec(&owners, model.name.as_str()) {
                None => out,
                Some(k) => {
                    let msg = concat5(
                        "Duplicate table name `",
                        table.as_str(),
                        "` (also used by `",
                        owners[k].as_str(),
                        "`)",
                    );
                    push_diag(&mut out, make_diag("SQLA-E102", Severity::Error, msg, model.name_range));
                    out
                },
            }
        },
    }
}

// ── E103, E105 ───────────────────────────────────────────────────────────────

/// E103: one finding per duplicated column name.
pub open spec fn e103_spec(dups: Seq<(String, Range)>, model: Seq<char>) -> Seq<DiagView>
    decreases dups.len(),
{
    if dups.len() == 0 {
        Seq::empty()
    } else {
        e103_spec(dups.drop_last(), model) + one(
            "SQLA-E103"@,
            Severity::Error,
            "Duplicate column `"@ + dups.last().0@ + "` on model `"@ + model + "`"@,
            dups.last().1,
        )
    }
}

fn e103(model: &Model) -> (r: Vec<LspDiagnostic>)
    ensures
        dviews(r@) == e103_spec(model.duplicate_columns@, model.name@),
{
    let dups = &model.duplicate_columns;
    let mut out: Vec<LspDiagnostic> = Vec::new();
    let mut i: usize = 0;
    while i < dups.len()
        invariant
            i <= dups@.len(),
            dups@ == model.duplicate_columns@,
            dviews(out@) == e103_spec(dups@.take(i as int), model.name@),
        decreases dups@.len() - i,
    {
        proof {
            assert(dups@.take(i + 1).drop_last() =~= dups@.take(i as int));
        }
        let msg = concat5("Duplicate column `", dups[i].0.as_str(), "` on model `", model.name.as_str(), "`");
        push_diag(&mut out, make_diag("SQLA-E103", Severity::Error, msg, dups[i].1));
        i = i + 1;
    }
    assert(dups@.take(dups@.len() as int) =~= dups@);
    out
}

/// E105 for the first `k` (column, range) pairs of one table argument.
pub open spec fn e105_upto(ta: crate::types::TableArg, m: Model, k: int) -> Seq<DiagView>
    decreases k,
{
    if k <= 0 {
        Seq::empty()
    } else {
        let rest = e105_upto(ta, m, k - 1);
        let name = ta.columns@[k - 1]@;
        if !m.columns@.contains_key(name) {
            rest + one(
                "SQLA-E105"@,
                Severity::Error,
                "Column `"@ + name + "` not found on model `"@ + m.name@ + "` (in "@ + ta.kind@
                    + ")"@,
                ta.column_ranges@[k - 1],
            )
        } else {
            rest
        }
    }
}

/// The (column, range) pairs of a table argument, up to the shorter list.
pub open spec fn pair_count(ta: crate::types::TableArg) -> int {
    if ta.columns@.len() <= ta.column_ranges@.len() {
        ta.columns@.len() as int
    } else {
        ta.column_ranges@.len() as int
    }
}

/// E105: `__table_args__` names a column the model does not have.
pub open spec fn e105_spec(args: Seq<crate::types::TableArg>, m: Model) -> Seq<DiagView>
    decreases args.len(),
{
    if args.len() == 0 {
        Seq::empty()
    } else {
        e105_spec(args.drop_last(), m) + e105_upto(args.last(), m, pair_count(args.last()))
    }
}

fn e105(model: &Model) -> (r: Vec<LspDiagnostic>)
    ensures
        dviews(r@) == e105_spec(model.table_args@, *model),
{
    let args = &model.table_args;
    let mut out: Vec<LspDiagnostic> = Vec::new();
    let mut i: usize = 0;
    while i < args.len()
        invariant
            i <= args@.len(),
            args@ == model.table_args@,
            dviews(out@) == e105_spec(args@.take(i as int), *model),
        decreases args@.len() - i,
    {
        proof {
            assert(args@.take(i + 1).drop_last() =~= args@.take(i as int));
        }
        let ta = &args[i];
        let n = if ta.columns.len() <= ta.column_ranges.len() {
            ta.columns.len()
        } else {
            ta.column_ranges.len()
        };
        let mut k: usize = 0;
        while k < n
            invariant
                k <= n,
                n == pair_count(*ta),
                n <= ta.columns@.len(),
                n <= ta.column_ranges@.len(),
                dviews(out@) == e105_spec(args@.take(i as int), *model) + e105_upto(*ta, *model, k as int),
            decreases n - k,
        {
            let name = ta.columns[k].as_str();
            if !model.columns.contains_key(name) {
                let mut msg = concat5("Column `", name, "` not found on model `", model.name.as_str(), "` (in ");
                push_str(&mut msg, ta.kind.as_str());
                push_str(&mut msg, ")");
                push_diag(&mut out, make_diag("SQLA-E105", Severity::Error, msg, ta.column_ranges[k]));
            }
            k = k + 1;
        }
        i = i + 1;
    }
    assert(args@.take(args@.len() as int) =~= args@);
    out
}

// ── Lookups ──────────────────────────────────────────────────────────────────

/// The first model in `models` with this name.
pub open spec fn find_model(models: Seq<Model>, name: Seq<char>) -> Option<Model>
    decreases models.len(),
{
    if models.len() == 0 {
        None
    } else if models[0].name@ == name {
        Some(models[0])
    } else {
        find_model(models.drop_first(), name)
    }
}

/// The indexed model with this name: its location, then its file's first
/// model of that name.
pub open spec fn lookup_model(st: WorkspaceState, name: Seq<char>) -> Option<Model> {
    if st.model_index@.contains_key(name) {
        let uri = st.model_index@[name].uri@;
        if st.file_models@.contains_key(uri) {
            find_model(st.file_models@[uri]@, name)
        } else {
            None
        }
    } else {
        None
    }
}

/// The model a foreign key's table part names: by table, else by class name.
pub open spec fn fk_target_name(st: WorkspaceState, table: Seq<char>) -> Option<Seq<char>> {
    if st.table_index@.contains_key(table) {
        Some(st.table_index@[table]@)
    } else if st.model_index@.contains_key(table) {
        Some(table)
    } else {
        None
    }
}

pub(crate) fn find_model_exec<'a>(models: &'a Vec<Model>, name: &str) -> (r: Option<&'a Model>)
    ensures
        match r {
            Some(m) => find_model(models@, name@) == Some(*m),
            None => find_model(models@, name@) is None,
        },
{
    assert(models@.skip(0) =~= models@);
    let mut i: usize = 0;
    while i < models.len()
        invariant
            i <= models@.len(),
            find_model(models@, name@) == find_model(models@.skip(i as int), name@),
        decreases models@.len() - i,
    {
        if str_eq(models[i].name.as_str(), name) {
            return Some(&models[i]);
        }
        proof {
            assert(models@.skip(i as int).drop_first() =~= models@.skip(i + 1));
        }
        i = i + 1;
    }
    None
}

/// Find an indexed model by name.
pub fn lookup_model_exec<'a>(state: &'a WorkspaceState, name: &str) -> (r: Option<&'a Model>)
    ensures
        match r {
            Some(m) => lookup_model(*state, name@) == Some(*m),
            None => lookup_model(*state, name@) is None,
        },
{
    match state.model_index.get(name) {
        None => None,
        Some(loc) => match state.file_models.get(loc.uri.as_str()) {
            None => None,
            Some(models) => find_model_exec(models, name),
        },
    }
}

fn fk_target_name_exec(state: &WorkspaceState, table: &str) -> (r: Option<String>)
    ensures
        match r {
            Some(n) => fk_target_name(*state, table@) == Some(n@),
            None => fk_target_name(*state, table@) is None,
        },
{
    match state.table_index.get(table) {
        Some(v) => Some(v.clone()),
        None => if state.model_index.contains_key(table) {
            Some(to_owned(table))
        } else {
            None
        },
    }
}

// ── Column rules (W201, E301, E302, W303) ────────────────────────────────────

/// The rules that look at one column at a time.
#[derive(Clone, Copy, PartialEq, Eq, Structural)]
pub enum ColRule {
    W201,
    E301,
    E302,
    W303,
}

/// What a column rule reports for one column.
pub open spec fn col_rule(rule: ColRule, st: WorkspaceState, c: Column) -> Seq<DiagView> {
    match rule {
        ColRule::W201 => if c.foreign_key.is_some() && c.args.nullable && !c.args.primary_key
            && !(c.mapped_type@ is Optional) && !(c.mapped_type@ is Unknown) {
            one(
                "SQLA-W201"@,
                Severity::Warning,
                "Column `"@ + c.name@ + "` is nullable but type is not Optional"@,
                c.name_range,
            )
        } else {
            Seq::empty()
        },
        ColRule::E301 => match c.foreign_key {
            Some(fk) => if !st.table_index@.contains_key(fk.table@)
                && !st.model_index@.contains_key(fk.table@) {
                one(
                    "SQLA-E301"@,
                    Severity::Error,
                    "Foreign key references unknown table `"@ + fk.table@ + "`"@,
                    fk.range,
                )
            } else {
                Seq::empty()
            },
            None => Seq::empty(),
        },
        ColRule::E302 => match c.foreign_key {
            Some(fk) => match fk_target_name(st, fk.table@) {
                Some(tn) => match lookup_model(st, tn) {
                    Some(tm) => if !tm.columns@.contains_key(fk.column@) {
                        one(
                            "SQLA-E302"@,
                            Severity::Error,
                            "Foreign key column `"@ + fk.column@ + "` not found on `"@ + tn + "`"@,
                            fk.range,
                        )
                    } else {
                        Seq::empty()
                    },
                    None => Seq::empty(),
                },
                None => Seq::empty(),
            },
            None => Seq::empty(),
        },
        ColRule::W303 => match c.foreign_key {
            Some(fk) => match fk_target_name(st, fk.table@) {
                Some(tn) => match lookup_model(st, tn) {
                    Some(tm) => if tm.columns@.contains_key(fk.column@) && types_match_v(
                        c.mapped_type@,
                        tm.columns@[fk.column@].mapped_type@,
                    ) == Some(false) {
                        one(
                            "SQLA-W303"@,
                            Severity::Warning,
                            "FK type mismatch: `"@ + c.name@ + "` is `"@ + type_text(c.mapped_type@)
                                + "` but `"@ + tn + "."@ + fk.column@ + "` is `"@ + type_text(
                                tm.columns@[fk.column@].mapped_type@,
                            ) + "`"@,
                            fk.range,
                        )
                    } else {
                        Seq::empty()
                    },
                    None => Seq::empty(),
                },
                None => Seq::empty(),
            },
            None => Seq::empty(),
        },
    }
}

pub open spec fn col_rule_f(rule: ColRule, st: WorkspaceState) -> spec_fn(Column) -> Seq<DiagView> {
    |c: Column| col_rule(rule, st, c)
}

fn col_rule_exec(rule: ColRule, state: &WorkspaceState, c: &Column, out: &mut Vec<LspDiagnostic>)
    ensures
        dviews(final(out)@) == dviews(old(out)@) + col_rule(rule, *state, *c),
{
    let ghost start = dviews(out@);
    match rule {
        ColRule::W201 => {
            if c.foreign_key.is_some() && c.args.nullable && !c.args.primary_key && !is_optional(
                &c.mapped_type,
            ) && !matches!(c.mapped_type, MappedType::Unknown(_)) {
                let msg = concat3("Column `", c.name.as_str(), "` is nullable but type is not Optional");
                push_diag(out, make_diag("SQLA-W201", Severity::Warning, msg, c.name_range));
            }
        },
        ColRule::E301 => {
            if let Some(fk) = &c.foreign_key {
                if !state.table_index.contains_key(fk.table.as_str())
                    && !state.model_index.contains_key(fk.table.as_str()) {
                    let msg = concat3("Foreign key references unknown table `", fk.table.as_str(), "`");
                    push_diag(out, make_diag("SQLA-E301", Severity::Error, msg, fk.range));
                }
            }
        },
        ColRule::E302 => {
            if let Some(fk) = &c.foreign_key {
                if let Some(tn) = fk_target_name_exec(state, fk.table.as_str()) {
                    if let Some(tm) = lookup_model_exec(state, tn.as_str()) {
                        if !tm.columns.contains_key(fk.column.as_str()) {
                            let msg = concat5(
                                "Foreign key column `",
                                fk.column.as_str(),
                                "` not found on `",
                                tn.as_str(),
                                "`",
                            );
                            push_diag(out, make_diag("SQLA-E302", Severity::Error, msg, fk.range));
                        }
                    }
                }
            }
        },
        ColRule::W303 => {
            if let Some(fk) = &c.foreign_key {
                if let Some(tn) = fk_target_name_exec(state, fk.table.as_str()) {
                    if let Some(tm) = lookup_model_exec(state, tn.as_str()) {
                        if let Some(tc) = tm.columns.get(fk.column.as_str()) {
                            if types_match(&c.mapped_type, &tc.mapped_type) == Some(false) {
                                let mut msg = concat3("FK type mismatch: `", c.name.as_str(), "` is `");
                                let a = c.mapped_type.to_display();
                                push_str(&mut msg, a.as_str());
                                push_str(&mut msg, "` but `");
                                push_str(&mut msg, tn.as_str());
                                push_str(&mut msg, ".");
                                push_str(&mut msg, fk.column.as_str());
                                push_str(&mut msg, "` is `");
                                let b = tc.mapped_type.to_display();
                                push_str(&mut msg, b.as_str());
                                push_str(&mut msg, "`");
                                push_diag(out, make_diag("SQLA-W303", Severity::Warning, msg, fk.range));
                            }
                        }
                    }
                }
            }
        },
    }
}

/// Run one column rule over every column of a model, in column order.
fn run_col_rule(rule: ColRule, model: &Model, state: &WorkspaceState, out: &mut Vec<LspDiagnostic>)
    ensures
        dviews(final(out)@) == dviews(old(out)@) + over(model.columns.seq(), col_rule_f(rule, *state)),
{
    let ghost start = dviews(out@);
    let cols = model.columns.entries();
    let mut i: usize = 0;
    while i < cols.len()
        invariant
            i <= cols@.len(),
            cols@ == model.columns.seq(),
            dviews(out@) == start + over(cols@.take(i as int), col_rule_f(rule, *state)),
        decreases cols@.len() - i,
    {
        proof {
            lemma_over_take(cols@, col_rule_f(rule, *state), i as int);
        }
        col_rule_exec(rule, state, &cols[i].1, out);
        i = i + 1;
    }
    assert(cols@.take(cols@.len() as int) =~= cols@);
}

// ── Relationship rules (E401..W409) ──────────────────────────────────────────

/// The rules that look at one relationship at a time.
#[derive(Clone, Copy, PartialEq, Eq, Structural)]
pub enum RelRule {
    E401,
    W402W403,
    W404,
    W405,
    H406,
    H407,
    W408,
    W409,
}

/// The first range if present, else the second.
pub open spec fn or_range(r: Option<Range>, d: Range) -> Range {
    match r {
        Some(x) => x,
        None => d,
    }
}

/// The table of an indexed model, if it has one.
pub open spec fn target_table(st: WorkspaceState, target: Seq<char>) -> Option<Seq<char>> {
    match lookup_model(st, target) {
        Some(m) => match m.table_name {
            Some(t) => Some(t@),
            None => None,
        },
        None => None,
    }
}

/// The column's foreign key points at `target` by class or table name.
pub open spec fn links_to(c: Column, target: Seq<char>, table: Option<Seq<char>>) -> bool {
    match c.foreign_key {
        Some(fk) => fk.table@ == target || table == Some(fk.table@),
        None => false,
    }
}

/// Some column of `cols` links to `target`.
pub open spec fn has_link(cols: Seq<(String, Column)>, target: Seq<char>, table: Option<Seq<char>>) -> bool {
    exists|i: int| 0 <= i < cols.len() && links_to(#[trigger] cols[i].1, target, table)
}

/// The table a model is stored in: its `__tablename__`, else its class name.
pub open spec fn own_table(m: Model) -> Seq<char> {
    match m.table_name {
        Some(t) => t@,
        None => m.name@,
    }
}

/// The indexed model `target` has a foreign key pointing at `current`.
pub open spec fn target_has_fk_to(st: WorkspaceState, target: Seq<char>, current: Model) -> bool {
    match lookup_model(st, target) {
        Some(t) => exists|i: int|
            0 <= i < t.columns.seq().len() && #[trigger] links_to(
                t.columns.seq()[i].1,
                current.name@,
                Some(own_table(current)),
            ),
        None => false,
    }
}

/// The cascade options SQLAlchemy accepts.
pub open spec fn valid_cascade(t: Seq<char>) -> bool {
    t == "all"@ || t == "save-update"@ || t == "merge"@ || t == "expunge"@ || t == "delete"@ || t
        == "delete-orphan"@ || t == "refresh-expire"@
}

/// W408 for each listed cascade option.
pub open spec fn w408_tokens(toks: Seq<Seq<char>>, r: Range) -> Seq<DiagView>
    decreases toks.len(),
{
    if toks.len() == 0 {
        Seq::empty()
    } else {
        w408_tokens(toks.drop_last(), r) + if valid_cascade(toks.last()) {
            Seq::<DiagView>::empty()
        } else {
            one("SQLA-W408"@, Severity::Warning, "Unknown cascade option `"@ + toks.last() + "`"@, r)
        }
    }
}

/// The text a `bool` prints as.
pub open spec fn bool_text(b: bool) -> Seq<char> {
    if b {
        "true"@
    } else {
        "false"@
    }
}

/// How the counterpart's `back_populates` is shown: quoted, or `absent`.
pub open spec fn bp_text(bp: Option<String>) -> Seq<char> {
    match bp {
        Some(s) => "\""@ + s@ + "\""@,
        None => "absent"@,
    }
}

/// H407 for one column of a one-to-one relationship.
pub open spec fn h407_col(rel: Relationship, table: Option<Seq<char>>, c: Column) -> Seq<DiagView> {
    if links_to(c, rel.target_model@, table) && !c.args.unique && !c.args.primary_key {
        one(
            "SQLA-H407"@,
            Severity::Hint,
            "One-to-one relationship `"@ + rel.name@ + "` but FK column `"@ + c.name@
                + "` is not unique"@,
            c.name_range,
        )
    } else {
        Seq::empty()
    }
}

pub open spec fn h407_f(rel: Relationship, table: Option<Seq<char>>) -> spec_fn(Column) -> Seq<DiagView> {
    |c: Column| h407_col(rel, table, c)
}

/// What a relationship rule reports for one relationship of model `m`.
pub open spec fn rel_rule(rule: RelRule, st: WorkspaceState, m: Model, rel: Relationship) -> Seq<DiagView> {
    let target = rel.target_model@;
    match rule {
        RelRule::E401 => if target.len() > 0 && !st.model_index@.contains_key(target)
            && !st.table_index@.contains_key(target) {
            one(
                "SQLA-E401"@,
                Severity::Error,
                "Relationship target `"@ + target + "` not found"@,
                or_range(rel.target_range, rel.full_range),
            )
        } else {
            Seq::empty()
        },
        RelRule::W402W403 => match rel.back_populates {
            Some(bp) => match lookup_model(st, target) {
                Some(tm) => if !tm.relationships@.contains_key(bp@) {
                    one(
                        "SQLA-W403"@,
                        Severity::Warning,
                        "Attribute `"@ + bp@ + "` not found on `"@ + target + "`"@,
                        or_range(rel.back_populates_range, rel.full_range),
                    )
                } else {
                    let other = tm.relationships@[bp@].back_populates;
                    if other is Some && other->0@ == rel.name@ {
                        Seq::empty()
                    } else {
                        one(
                            "SQLA-W402"@,
                            Severity::Warning,
                            "`"@ + target + "."@ + bp@ + ".back_populates` should be \""@ + rel.name@
                                + "\" but is "@ + bp_text(other),
                            or_range(rel.back_populates_range, rel.full_range),
                        )
                    }
                },
                None => Seq::empty(),
            },
            None => Seq::empty(),
        },
        RelRule::W404 => match rel.uselist {
            Some(u) => if u != rel.is_list {
                one(
                    "SQLA-W404"@,
                    Severity::Warning,
                    "`"@ + rel.name@ + "` has uselist="@ + bool_text(u) + " but annotation is "@
                        + if rel.is_list {
                        "List"@
                    } else {
                        "scalar"@
                    },
                    rel.full_range,
                )
            } else {
                Seq::empty()
            },
            None => Seq::empty(),
        },
        RelRule::W405 => match rel.explicit_target {
            Some(e) => if e@ != target {
                one(
                    "SQLA-W405"@,
                    Severity::Warning,
                    "Annotation says `"@ + target + "` but relationship() argument says `"@ + e@
                        + "`"@,
                    or_range(rel.target_range, rel.full_range),
                )
            } else {
                Seq::empty()
            },
            None => Seq::empty(),
        },
        RelRule::H406 => if rel.is_list || target.len() == 0 || !st.model_index@.contains_key(target)
            || has_link(m.columns.seq(), target, target_table(st, target))
            || m.columns@.contains_key(rel.name@ + "_id"@)
            || m.columns@.contains_key(lowercase(target) + "_id"@)
            || target_has_fk_to(st, target, m) {
            Seq::empty()
        } else {
            one(
                "SQLA-H406"@,
                Severity::Hint,
                "No foreign key found for relationship `"@ + rel.name@ + "`"@,
                rel.name_range,
            )
        },
        RelRule::H407 => if rel.uselist != Some(false) || rel.is_list {
            Seq::empty()
        } else {
            over(m.columns.seq(), h407_f(rel, target_table(st, target)))
        },
        RelRule::W408 => match rel.cascade {
            Some(c) => w408_tokens(
                split_trim_nonempty(c@, ','),
                or_range(rel.cascade_range, rel.full_range),
            ),
            None => Seq::empty(),
        },
        RelRule::W409 => match rel.cascade {
            Some(c) => {
                let toks = split_trim_nonempty(c@, ',');
                if toks.contains("delete-orphan"@) && !toks.contains("delete"@) && !toks.contains(
                    "all"@,
                ) {
                    one(
                        "SQLA-W409"@,
                        Severity::Warning,
                        "`delete-orphan` cascade requires `delete` or `all`"@,
                        or_range(rel.cascade_range, rel.full_range),
                    )
                } else {
                    Seq::empty()
                }
            },
            None => Seq::empty(),
        },
    }
}

pub open spec fn rel_rule_f(rule: RelRule, st: WorkspaceState, m: Model) -> spec_fn(Relationship) -> Seq<DiagView> {
    |r: Relationship| rel_rule(rule, st, m, r)
}

pub(crate) fn range_or(r: Option<Range>, d: Range) -> (x: Range)
    ensures
        x == or_range(r, d),
{
    match r {
        Some(x) => x,
        None => d,
    }
}

pub(crate) fn target_table_exec<'a>(state: &'a WorkspaceState, target: &str) -> (r: Option<&'a String>)
    ensures
        match r {
            Some(t) => target_table(*state, target@) == Some(t@),
            None => target_table(*state, target@) is None,
        },
{
    match lookup_model_exec(state, target) {
        Some(m) => match &m.table_name {
            Some(t) => Some(t),
            None => None,
        },
        None => None,
    }
}

pub(crate) fn links_to_exec(c: &Column, target: &str, table: Option<&String>) -> (r: bool)
    ensures
        r == links_to(
            *c,
            target@,
            match table {
                Some(t) => Some(t@),
                None => None,
            },
        ),
{
    match &c.foreign_key {
        Some(fk) => str_eq(fk.table.as_str(), target) || match table {
            Some(t) => str_eq(t.as_str(), fk.table.as_str()),
            None => false,
        },
        None => false,
    }
}

fn has_link_exec(cols: &Vec<(String, Column)>, target: &str, table: Option<&String>) -> (r: bool)
    ensures
        r == has_link(
            cols@,
            target@,
            match table {
                Some(t) => Some(t@),
                None => None,
            },
        ),
{
    let ghost tv = match table {
        Some(t) => Some(t@),
        None => None::<Seq<char>>,
    };
    let mut i: usize = 0;
    while i < cols.len()
        invariant
            i <= cols@.len(),
            tv == match table {
                Some(t) => Some(t@),
                None => None,
            },
            forall|j: int| 0 <= j < i ==> !links_to(#[trigger] cols@[j].1, target@, tv),
        decreases cols@.len() - i,
    {
        if links_to_exec(&cols[i].1, target, table) {
            assert(links_to(cols@[i as int].1, target@, tv));
            return true;
        }
        i = i + 1;
    }
    false
}

fn target_has_fk_to_exec(state: &WorkspaceState, target: &str, current: &Model) -> (r: bool)
    ensures
        r == target_has_fk_to(*state, target@, *current),
{
    match lookup_model_exec(state, target) {
        None => false,
        Some(t) => {
            let own = match &current.table_name {
                Some(x) => x,
                None => &current.name,
            };
            has_link_exec(t.columns.entries(), current.name.as_str(), Some(own))
        },
    }
}

fn valid_cascade_exec(t: &[char]) -> (r: bool)
    ensures
        r == valid_cascade(t@),
{
    let s = crate::text::from_chars(t);
    let s = s.as_str();
    str_eq(s, "all") || str_eq(s, "save-update") || str_eq(s, "merge") || str_eq(s, "expunge")
        || str_eq(s, "delete") || str_eq(s, "delete-orphan") || str_eq(s, "refresh-expire")
}

fn cascade_tokens(c: &String) -> (r: Vec<Vec<char>>)
    ensures
        r@.len() == split_trim_nonempty(c@, ',').len(),
        forall|i: int| 0 <= i < r@.len() ==> #[trigger] r@[i]@ == split_trim_nonempty(c@, ',')[i],
{
    let chars = crate::text::to_chars(c.as_str());
    crate::text::split_trim_nonempty_exec(chars.as_slice(), ',')
}

fn tokens_contain(toks: &Vec<Vec<char>>, w: &str, Ghost(spec_toks): Ghost<Seq<Seq<char>>>) -> (r: bool)
    requires
        toks@.len() == spec_toks.len(),
        forall|i: int| 0 <= i < toks@.len() ==> #[trigger] toks@[i]@ == spec_toks[i],
    ensures
        r == spec_toks.contains(w@),
{
    let mut i: usize = 0;
    while i < toks.len()
        invariant
            i <= toks@.len(),
            toks@.len() == spec_toks.len(),
            forall|k: int| 0 <= k < toks@.len() ==> #[trigger] toks@[k]@ == spec_toks[k],
            forall|k: int| 0 <= k < i ==> spec_toks[k] != w@,
        decreases toks@.len() - i,
    {
        let s = crate::text::from_chars(toks[i].as_slice());
        if str_eq(s.as_str(), w) {
            assert(spec_toks[i as int] == w@);
            return true;
        }
        i = i + 1;
    }
    false
}

fn w408_tokens_exec(toks: &Vec<Vec<char>>, r: Range, Ghost(spec_toks): Ghost<Seq<Seq<char>>>, out: &mut Vec<LspDiagnostic>)
    requires
        toks@.len() == spec_toks.len(),
        forall|i: int| 0 <= i < toks@.len() ==> #[trigger] toks@[i]@ == spec_toks[i],
    ensures
        dviews(final(out)@) == dviews(old(out)@) + w408_tokens(spec_toks, r),
{
    let ghost start = dviews(out@);
    let mut i: usize = 0;
    while i < toks.len()
        invariant
            i <= toks@.len(),
            toks@.len() == spec_toks.len(),
            forall|k: int| 0 <= k < toks@.len() ==> #[trigger] toks@[k]@ == spec_toks[k],
            dviews(out@) == start + w408_tokens(spec_toks.take(i as int), r),
        decreases toks@.len() - i,
    {
        proof {
            assert(spec_toks.take(i + 1).drop_last() =~= spec_toks.take(i as int));
        }
        if !valid_cascade_exec(toks[i].as_slice()) {
            let t = crate::text::from_chars(toks[i].as_slice());
            let msg = concat3("Unknown cascade option `", t.as_str(), "`");
            push_diag(out, make_diag("SQLA-W408", Severity::Warning, msg, r));
        }
        i = i + 1;
    }
    assert(spec_toks.take(spec_toks.len() as int) =~= spec_toks);
}

fn h407_cols_exec(model: &Model, rel: &Relationship, table: Option<&String>, out: &mut Vec<LspDiagnostic>)
    ensures
        dviews(final(out)@) == dviews(old(out)@) + over(
            model.columns.seq(),
            h407_f(
                *rel,
                match table {
                    Some(t) => Some(t@),
                    None => None,
                },
            ),
        ),
{
    let ghost start = dviews(out@);
    let ghost tv = match table {
        Some(t) => Some(t@),
        None => None::<Seq<char>>,
    };
    let cols = model.columns.entries();
    let mut i: usize = 0;
    while i < cols.len()
        invariant
            i <= cols@.len(),
            cols@ == model.columns.seq(),
            tv == match table {
                Some(t) => Some(t@),
                None => None,
            },
            dviews(out@) == start + over(cols@.take(i as int), h407_f(*rel, tv)),
        decreases cols@.len() - i,
    {
        proof {
            lemma_over_take(cols@, h407_f(*rel, tv), i as int);
        }
        let c = &cols[i].1;
        if links_to_exec(c, rel.target_model.as_str(), table) && !c.args.unique && !c.args.primary_key {
            let mut msg = concat5(
                "One-to-one relationship `",
                rel.name.as_str(),
                "` but FK column `",
                c.name.as_str(),
                "` is not unique",
            );
            push_diag(out, make_diag("SQLA-H407", Severity::Hint, msg, c.name_range));
        }
        i = i + 1;
    }
    assert(cols@.take(cols@.len() as int) =~= cols@);
}

fn e401_exec(state: &WorkspaceState, model: &Model, rel: &Relationship, out: &mut Vec<LspDiagnostic>)
    ensures
        dviews(final(out)@) == dviews(old(out)@) + rel_rule(RelRule::E401, *state, *model, *rel),
{
    let target = rel.target_model.as_str();
    if !target.is_empty() && !state.model_index.contains_key(target)
        && !state.table_index.contains_key(target) {
        let msg = concat3("Relationship target `", target, "` not found");
        let range = range_or(rel.target_range, rel.full_range);
        push_diag(out, make_diag("SQLA-E401", Severity::Error, msg, range));
    }
}

fn w402w403_exec(state: &WorkspaceState, model: &Model, rel: &Relationship, out: &mut Vec<LspDiagnostic>)
    ensures
        dviews(final(out)@) == dviews(old(out)@) + rel_rule(RelRule::W402W403, *state, *model, *rel),
{
    let target = rel.target_model.as_str();
    if let Some(bp) = &rel.back_populates {
        if let Some(tm) = lookup_model_exec(state, target) {
            let range = range_or(rel.back_populates_range, rel.full_range);
            match tm.relationships.get(bp.as_str()) {
                None => {
                    let msg = concat5("Attribute `", bp.as_str(), "` not found on `", target, "`");
                    push_diag(out, make_diag("SQLA-W403", Severity::Warning, msg, range));
                },
                Some(tr) => {
                    let same = match &tr.back_populates {
                        Some(o) => str_eq(o.as_str(), rel.name.as_str()),
                        None => false,
                    };
                    if !same {
                        let mut msg = concat5("`", target, ".", bp.as_str(), ".back_populates` should be \"");
                        push_str(&mut msg, rel.name.as_str());
                        push_str(&mut msg, "\" but is ");
                        let shown = match &tr.back_populates {
                            Some(o) => concat3("\"", o.as_str(), "\""),
                            None => to_owned("absent"),
                        };
                        push_str(&mut msg, shown.as_str());
                        push_diag(out, make_diag("SQLA-W402", Severity::Warning, msg, range));
                    }
                },
            }
        }
    }
}

fn w404_exec(state: &WorkspaceState, model: &Model, rel: &Relationship, out: &mut Vec<LspDiagnostic>)
    ensures
        dviews(final(out)@) == dviews(old(out)@) + rel_rule(RelRule::W404, *state, *model, *rel),
{
    let target = rel.target_model.as_str();
    if let Some(u) = rel.uselist {
        if u != rel.is_list {
            let mut msg = concat3("`", rel.name.as_str(), "` has uselist=");
            push_str(&mut msg, if u { "true" } else { "false" });
            push_str(&mut msg, " but annotation is ");
            push_str(&mut msg, if rel.is_list { "List" } else { "scalar" });
            push_diag(out, make_diag("SQLA-W404", Severity::Warning, msg, rel.full_range));
        }
    }
}

fn w405_exec(state: &WorkspaceState, model: &Model, rel: &Relationship, out: &mut Vec<LspDiagnostic>)
    ensures
        dviews(final(out)@) == dviews(old(out)@) + rel_rule(RelRule::W405, *state, *model, *rel),
{
    let target = rel.target_model.as_str();
    if let Some(e) = &rel.explicit_target {
        if !str_eq(e.as_str(), target) {
            let msg = concat5(
                "Annotation says `",
                target,
                "` but relationship() argument says `",
                e.as_str(),
                "`",
            );
            push_diag(
                out,
                make_diag(
                    "SQLA-W405",
                    Severity::Warning,
                    msg,
                    range_or(rel.target_range, rel.full_range),
                ),
            );
        }
    }
}

fn h406_exec(state: &WorkspaceState, model: &Model, rel: &Relationship, out: &mut Vec<LspDiagnostic>)
    ensures
        dviews(final(out)@) == dviews(old(out)@) + rel_rule(RelRule::H406, *state, *model, *rel),
{
    let target = rel.target_model.as_str();
    if rel.is_list || target.is_empty() || !state.model_index.contains_key(target) {
        return ;
    }
    let table = target_table_exec(state, target);
    if has_link_exec(model.columns.entries(), target, table) {
        return ;
    }
    let by_rel = crate::text::concat2(rel.name.as_str(), "_id");
    let lower = crate::text::to_lowercase(target);
    let by_target = crate::text::concat2(lower.as_str(), "_id");
    if model.columns.contains_key(by_rel.as_str()) || model.columns.contains_key(
        by_target.as_str(),
    ) {
        return ;
    }
    if target_has_fk_to_exec(state, target, model) {
        return ;
    }
    let msg = concat3("No foreign key found for relationship `", rel.name.as_str(), "`");
    push_diag(out, make_diag("SQLA-H406", Severity::Hint, msg, rel.name_range));
}

fn h407_exec(state: &WorkspaceState, model: &Model, rel: &Relationship, out: &mut Vec<LspDiagnostic>)
    ensures
        dviews(final(out)@) == dviews(old(out)@) + rel_rule(RelRule::H407, *state, *model, *rel),
{
    let target = rel.target_model.as_str();
    if rel.uselist != Some(false) || rel.is_list {
        return ;
    }
    let table = target_table_exec(state, target);
    h407_cols_exec(model, rel, table, out);
}

fn w408_exec(state: &WorkspaceState, model: &Model, rel: &Relationship, out: &mut Vec<LspDiagnostic>)
    ensures
        dviews(final(out)@) == dviews(old(out)@) + rel_rule(RelRule::W408, *state, *model, *rel),
{
    let target = rel.target_model.as_str();
    if let Some(c) = &rel.cascade {
        let toks = cascade_tokens(c);
        w408_tokens_exec(
            &toks,
            range_or(rel.cascade_range, rel.full_range),
            Ghost(split_trim_nonempty(c@, ',')),
            out,
        );
    }
}

fn w409_exec(state: &WorkspaceState, model: &Model, rel: &Relationship, out: &mut Vec<LspDiagnostic>)
    ensures
        dviews(final(out)@) == dviews(old(out)@) + rel_rule(RelRule::W409, *state, *model, *rel),
{
    let target = rel.target_model.as_str();
    if let Some(c) = &rel.cascade {
        let toks = cascade_tokens(c);
        let ghost st = split_trim_nonempty(c@, ',');
        if tokens_contain(&toks, "delete-orphan", Ghost(st)) && !tokens_contain(
            &toks,
            "delete",
            Ghost(st),
        ) && !tokens_contain(&toks, "all", Ghost(st)) {
            let msg = to_owned("`delete-orphan` cascade requires `delete` or `all`");
            push_diag(
                out,
                make_diag(
                    "SQLA-W409",
                    Severity::Warning,
                    msg,
                    range_or(rel.cascade_range, rel.full_range),
                ),
            );
        }
    }
}

fn rel_rule_exec(
    rule: RelRule,
    state: &WorkspaceState,
    model: &Model,
    rel: &Relationship,
    out: &mut Vec<LspDiagnostic>,
)
    ensures
        dviews(final(out)@) == dviews(old(out)@) + rel_rule(rule, *state, *model, *rel),
{
    match rule {
        RelRule::E401 => e401_exec(state, model, rel, out),
        RelRule::W402W403 => w402w403_exec(state, model, rel, out),
        RelRule::W404 => w404_exec(state, model, rel, out),
        RelRule::W405 => w405_exec(state, model, rel, out),
        RelRule::H406 => h406_exec(state, model, rel, out),
        RelRule::H407 => h407_exec(state, model, rel, out),
        RelRule::W408 => w408_exec(state, model, rel, out),
        RelRule::W409 => w409_exec(state, model, rel, out),
    }
}

/// Run one relationship rule over every relationship of a model, in order.
fn run_rel_rule(rule: RelRule, model: &Model, state: &WorkspaceState, out: &mut Vec<LspDiagnostic>)
    ensures
        dviews(final(out)@) == dviews(old(out)@) + over(
            model.relationships.seq(),
            rel_rule_f(rule, *state, *model),
        ),
{
    let ghost start = dviews(out@);
    let rels = model.relationships.entries();
    let mut i: usize = 0;
    while i < rels.len()
        invariant
            i <= rels@.len(),
            rels@ == model.relationships.seq(),
            dviews(out@) == start + over(rels@.take(i as int), rel_rule_f(rule, *state, *model)),
        decreases rels@.len() - i,
    {
        proof {
            lemma_over_take(rels@, rel_rule_f(rule, *state, *model), i as int);
        }
        rel_rule_exec(rule, state, model, &rels[i].1, out);
        i = i + 1;
    }
    assert(rels@.take(rels@.len() as int) =~= rels@);
}

// ── Per model ────────────────────────────────────────────────────────────────

/// Every rule but H410 on one model, in rule order.
pub open spec fn model_findings(st: WorkspaceState, m: Model) -> Seq<DiagView> {
    w101_spec(m) + e102_spec(m, owners_all(st.file_models.seq(), m.table_name->0@)) + e103_spec(
        m.duplicate_columns@,
        m.name@,
    ) + e105_spec(m.table_args@, m) + over(m.columns.seq(), col_rule_f(ColRule::W201, st)) + over(
        m.columns.seq(),
        col_rule_f(ColRule::E301, st),
    ) + over(m.columns.seq(), col_rule_f(ColRule::E302, st)) + over(
        m.columns.seq(),
        col_rule_f(ColRule::W303, st),
    ) + over(m.relationships.seq(), rel_rule_f(RelRule::E401, st, m)) + over(
        m.relationships.seq(),
        rel_rule_f(RelRule::W402W403, st, m),
    ) + over(m.relationships.seq(), rel_rule_f(RelRule::W404, st, m)) + over(
        m.relationships.seq(),
        rel_rule_f(RelRule::W405, st, m),
    ) + over(m.relationships.seq(), rel_rule_f(RelRule::H406, st, m)) + over(
        m.relationships.seq(),
        rel_rule_f(RelRule::H407, st, m),
    ) + over(m.relationships.seq(), rel_rule_f(RelRule::W408, st, m)) + over(
        m.relationships.seq(),
        rel_rule_f(RelRule::W409, st, m),
    )
}

/// The per-model findings of each model in turn.
pub open spec fn models_findings(st: WorkspaceState, models: Seq<Model>) -> Seq<DiagView>
    decreases models.len(),
{
    if models.len() == 0 {
        Seq::empty()
    } else {
        models_findings(st, models.drop_last()) + model_findings(st, models.last())
    }
}

fn check_model(model: &Model, state: &WorkspaceState) -> (r: Vec<LspDiagnostic>)
    ensures
        dviews(r@) == model_findings(*state, *model),
{
    let mut out = w101(model);
    append_diags(&mut out, e102(model, state));
    append_diags(&mut out, e103(model));
    append_diags(&mut out, e105(model));
    run_col_rule(ColRule::W201, model, state, &mut out);
    run_col_rule(ColRule::E301, model, state, &mut out);
    run_col_rule(ColRule::E302, model, state, &mut out);
    run_col_rule(ColRule::W303, model, state, &mut out);
    run_rel_rule(RelRule::E401, model, state, &mut out);
    run_rel_rule(RelRule::W402W403, model, state, &mut out);
    run_rel_rule(RelRule::W404, model, state, &mut out);
    run_rel_rule(RelRule::W405, model, state, &mut out);
    run_rel_rule(RelRule::H406, model, state, &mut out);
    run_rel_rule(RelRule::H407, model, state, &mut out);
    run_rel_rule(RelRule::W408, model, state, &mut out);
    run_rel_rule(RelRule::W409, model, state, &mut out);
    out
}

fn check_models(models: &[Model], state: &WorkspaceState) -> (r: Vec<LspDiagnostic>)
    ensures
        dviews(r@) == models_findings(*state, models@),
{
    let mut out: Vec<LspDiagnostic> = Vec::new();
    let mut i: usize = 0;
    while i < models.len()
        invariant
            i <= models@.len(),
            dviews(out@) == models_findings(*state, models@.take(i as int)),
        decreases models@.len() - i,
    {
        proof {
            assert(models@.take(i + 1).drop_last() =~= models@.take(i as int));
        }
        append_diags(&mut out, check_model(&models[i], state));
        i = i + 1;
    }
    assert(models@.take(models@.len() as int) =~= models@);
    out
}

// ── H410: circular relationships ─────────────────────────────────────────────

/// The distinct model names of a file, in order of first appearance.
pub open spec fn node_names(models: Seq<Model>) -> Seq<Seq<char>>
    decreases models.len(),
{
    if models.len() == 0 {
        Seq::empty()
    } else {
        let r = node_names(models.drop_last());
        if r.contains(models.last().name@) {
            r
        } else {
            r.push(models.last().name@)
        }
    }
}

/// The first index of `name` in `nodes`, or -1.
pub open spec fn index_in(nodes: Seq<Seq<char>>, name: Seq<char>) -> int
    decreases nodes.len(),
{
    if nodes.len() == 0 {
        -1
    } else {
        let k = index_in(nodes.drop_last(), name);
        if k >= 0 {
            k
        } else if nodes.last() == name {
            nodes.len() - 1
        } else {
            -1
        }
    }
}

/// The edge a relationship contributes: none when it is one side of a
/// `back_populates` pair or points outside the file.
pub open spec fn edge_of(r: Relationship, nodes: Seq<Seq<char>>) -> Seq<(usize, Range)> {
    if r.back_populates is None && r.target_model@.len() > 0 && index_in(nodes, r.target_model@)
        >= 0 {
        seq![(index_in(nodes, r.target_model@) as usize, r.name_range)]
    } else {
        Seq::empty()
    }
}

pub open spec fn rel_edges(rels: Seq<(String, Relationship)>, nodes: Seq<Seq<char>>) -> Seq<(usize, Range)>
    decreases rels.len(),
{
    if rels.len() == 0 {
        Seq::empty()
    } else {
        rel_edges(rels.drop_last(), nodes) + edge_of(rels.last().1, nodes)
    }
}

/// The out-edges of the node called `name`, from every model of that name.
pub open spec fn node_edges(models: Seq<Model>, nodes: Seq<Seq<char>>, name: Seq<char>) -> Seq<(usize, Range)>
    decreases models.len(),
{
    if models.len() == 0 {
        Seq::empty()
    } else {
        node_edges(models.drop_last(), nodes, name) + if models.last().name@ == name {
            rel_edges(models.last().relationships.seq(), nodes)
        } else {
            Seq::empty()
        }
    }
}

/// The relationship graph of one file: node k is `node_names(models)[k]`,
/// each edge carries the target node and the relationship's name range.
pub open spec fn graph(models: Seq<Model>) -> Seq<Seq<(usize, Range)>> {
    let nodes = node_names(models);
    Seq::new(nodes.len(), |k: int| node_edges(models, nodes, nodes[k]))
}

/// Every edge points at a node.
pub open spec fn graph_wf(g: Seq<Seq<(usize, Range)>>) -> bool {
    forall|a: int, j: int| 0 <= a < g.len() && 0 <= j < g[a].len() ==> (#[trigger] g[a][j]).0 < g.len()
}

/// The first edge of `es` that points at `b`, or -1.
pub open spec fn first_to(es: Seq<(usize, Range)>, b: int) -> int
    decreases es.len(),
{
    if es.len() == 0 {
        -1
    } else {
        let k = first_to(es.drop_last(), b);
        if k >= 0 {
            k
        } else if es.last().0 == b {
            es.len() - 1
        } else {
            -1
        }
    }
}

pub open spec fn has_edge(g: Seq<Seq<(usize, Range)>>, a: int, b: int) -> bool {
    0 <= a < g.len() && first_to(g[a], b) >= 0
}

/// The node after position `i` of a closed walk.
pub open spec fn next_in(c: Seq<int>, i: int) -> int {
    if i + 1 < c.len() {
        c[i + 1]
    } else {
        c[0]
    }
}

/// `c` is a cycle of at least three distinct nodes.
pub open spec fn is_cycle(g: Seq<Seq<(usize, Range)>>, c: Seq<int>) -> bool {
    &&& c.len() >= 3
    &&& forall|i: int, j: int| 0 <= i < j < c.len() ==> c[i] != c[j]
    &&& forall|i: int| 0 <= i < c.len() ==> has_edge(g, #[trigger] c[i], next_in(c, i))
}

/// The range of the first edge from `a` to `b`.
pub open spec fn edge_range(g: Seq<Seq<(usize, Range)>>, a: int, b: int) -> Range {
    g[a][first_to(g[a], b)].1
}

/// `r` is the range of an edge on some cycle of at least three models.
pub open spec fn on_cycle(g: Seq<Seq<(usize, Range)>>, r: Range) -> bool {
    exists|c: Seq<int>, i: int|
        is_cycle(g, c) && 0 <= i < c.len() && r == #[trigger] edge_range(g, c[i], next_in(c, i))
}

/// How many nodes are still unvisited.
pub open spec fn whites(c: Seq<u8>) -> nat
    decreases c.len(),
{
    if c.len() == 0 {
        0
    } else {
        whites(c.drop_last()) + if c.last() == 0 {
            1nat
        } else {
            0nat
        }
    }
}

proof fn lemma_whites_update(c: Seq<u8>, k: int, x: u8)
    requires
        0 <= k < c.len(),
    ensures
        whites(c.update(k, x)) + (if c[k] == 0 {
            1nat
        } else {
            0nat
        }) == whites(c) + (if x == 0 {
            1nat
        } else {
            0nat
        }),
    decreases c.len(),
{
    if k == c.len() - 1 {
        assert(c.update(k, x).drop_last() =~= c.drop_last());
    } else {
        lemma_whites_update(c.drop_last(), k, x);
        assert(c.update(k, x).drop_last() =~= c.drop_last().update(k, x));
    }
}

proof fn lemma_first_to_found(es: Seq<(usize, Range)>, b: int, j: int)
    requires
        0 <= j < es.len(),
        es[j].0 == b,
    ensures
        0 <= first_to(es, b) <= j,
        es[first_to(es, b)].0 == b,
    decreases es.len(),
{
    if j < es.len() - 1 {
        lemma_first_to_found(es.drop_last(), b, j);
    } else {
        lemma_first_to_props(es.drop_last(), b);
    }
}

proof fn lemma_first_to_props(es: Seq<(usize, Range)>, b: int)
    ensures
        -1 <= first_to(es, b) < es.len(),
        first_to(es, b) >= 0 ==> es[first_to(es, b)].0 == b,
        first_to(es, b) >= 0 ==> forall|j: int| 0 <= j < first_to(es, b) ==> es[j].0 != b,
        first_to(es, b) < 0 ==> forall|j: int| 0 <= j < es.len() ==> es[j].0 != b,
    decreases es.len(),
{
    if es.len() > 0 {
        lemma_first_to_props(es.drop_last(), b);
        assert(forall|j: int| 0 <= j < es.len() - 1 ==> es.drop_last()[j] == es[j]);
    }
}

/// Position of the first edge of `es` pointing at `b`.
fn first_to_exec(es: &Vec<(usize, Range)>, b: usize) -> (r: Option<usize>)
    ensures
        match r {
            Some(j) => j < es@.len() && j as int == first_to(es@, b as int),
            None => first_to(es@, b as int) < 0,
        },
{
    proof {
        lemma_first_to_props(es@, b as int);
    }
    let mut j: usize = 0;
    while j < es.len()
        invariant
            j <= es@.len(),
            forall|k: int| 0 <= k < j ==> es@[k].0 != b,
        decreases es@.len() - j,
    {
        if es[j].0 == b {
            proof {
                lemma_first_to_found(es@, b as int, j as int);
            }
            return Some(j);
        }
        j = j + 1;
    }
    None
}

/// The path is a walk of distinct nodes, and exactly its nodes are gray.
pub open spec fn dfs_inv(g: Seq<Seq<(usize, Range)>>, color: Seq<u8>, path: Seq<usize>) -> bool {
    &&& graph_wf(g)
    &&& color.len() == g.len()
    &&& forall|i: int| 0 <= i < path.len() ==> (#[trigger] path[i]) < g.len()
    &&& forall|i: int, j: int| 0 <= i < j < path.len() ==> path[i] != path[j]
    &&& forall|i: int| 0 <= i < path.len() - 1 ==> has_edge(g, #[trigger] path[i] as int, path[i + 1] as int)
    &&& forall|v: int| 0 <= v < g.len() ==> (#[trigger] color[v] == 1 <==> path.contains(v as usize))
    &&& forall|v: int| 0 <= v < g.len() ==> #[trigger] color[v] <= 2
}

pub open spec fn all_on_cycle(g: Seq<Seq<(usize, Range)>>, rs: Seq<Range>) -> bool {
    forall|i: int| 0 <= i < rs.len() ==> on_cycle(g, #[trigger] rs[i])
}

/// The closed walk formed by the path from position `k` to its end.
pub open spec fn closed_walk(p: Seq<usize>, k: int) -> Seq<int> {
    p.subrange(k, p.len() as int).map_values(|v: usize| v as int)
}

/// The ranges of the edges of the closed walk `c`, in walk order.
pub open spec fn cycle_ranges(g: Seq<Seq<(usize, Range)>>, c: Seq<int>) -> Seq<Range> {
    Seq::new(c.len(), |i: int| edge_range(g, c[i], next_in(c, i)))
}

/// What a back edge to `t` adds: the ranges of the cycle it closes on the
/// path `p`, when that cycle has three or more models.
pub open spec fn back_edge_ranges(g: Seq<Seq<(usize, Range)>>, p: Seq<usize>, t: usize) -> Seq<Range> {
    if exists|k: int| 0 <= k < p.len() && p[k] == t {
        let k = choose|k: int| 0 <= k < p.len() && p[k] == t;
        if p.len() - k > 2 {
            cycle_ranges(g, closed_walk(p, k))
        } else {
            Seq::empty()
        }
    } else {
        Seq::empty()
    }
}

/// The search state: the colour of each node and the ranges collected.
pub type DfsState = (Seq<u8>, Seq<Range>);

/// The state after a depth-first visit of `v` with `p` on the stack.
pub open spec fn dfs_node(g: Seq<Seq<(usize, Range)>>, p: Seq<usize>, st: DfsState, v: usize) -> DfsState
    decreases g.len() - p.len(), 0int, 0int,
{
    if p.len() >= g.len() || v >= g.len() {
        st
    } else {
        let st2 = dfs_edges(g, p.push(v), (st.0.update(v as int, 1), st.1), v, 0);
        (st2.0.update(v as int, 2), st2.1)
    }
}

/// The state after following the out-edges of `v` from the `j`-th on.
pub open spec fn dfs_edges(g: Seq<Seq<(usize, Range)>>, p: Seq<usize>, st: DfsState, v: usize, j: int) -> DfsState
    decreases g.len() - p.len(), 1int, g[v as int].len() - j,
{
    if j < 0 || v >= g.len() || j >= g[v as int].len() {
        st
    } else {
        let t = g[v as int][j].0;
        let st1 = if st.0[t as int] == 1 {
            (st.0, st.1 + back_edge_ranges(g, p, t))
        } else if st.0[t as int] == 0 {
            dfs_node(g, p, st, t)
        } else {
            st
        };
        dfs_edges(g, p, st1, v, j + 1)
    }
}

/// The state after starting a search at every unvisited node from `k` on.
pub open spec fn dfs_from(g: Seq<Seq<(usize, Range)>>, st: DfsState, k: int) -> DfsState
    decreases g.len() - k,
{
    if k < 0 || k >= g.len() {
        st
    } else {
        let st1 = if st.0[k] == 0 {
            dfs_node(g, Seq::empty(), st, k as usize)
        } else {
            st
        };
        dfs_from(g, st1, k + 1)
    }
}

/// The edge ranges the whole search collects, repeats included, in the
/// order found.
pub open spec fn cycle_edges(g: Seq<Seq<(usize, Range)>>) -> Seq<Range> {
    dfs_from(g, (Seq::new(g.len(), |i: int| 0u8), Seq::empty()), 0).1
}

/// A path of distinct nodes is no longer than the graph has nodes.
proof fn lemma_distinct_len(s: Seq<usize>, n: int)
    requires
        0 <= n,
        forall|i: int| 0 <= i < s.len() ==> (#[trigger] s[i]) < n,
        forall|i: int, j: int| 0 <= i < j < s.len() ==> s[i] != s[j],
    ensures
        s.len() <= n,
{
    let t = s.map_values(|x: usize| x as int);
    assert(t.no_duplicates()) by {
        assert forall|i: int, j: int| 0 <= i < t.len() && 0 <= j < t.len() && i != j implies t[i] != t[j] by {
            if i < j {
                assert(s[i] != s[j]);
            } else {
                assert(s[j] != s[i]);
            }
        }
    }
    t.unique_seq_to_set();
    vstd::set_lib::lemma_int_range(0, n);
    assert forall|x: int| t.to_set().contains(x) implies vstd::set_lib::set_int_range(0, n).contains(x) by {
        let i = choose|i: int| 0 <= i < t.len() && t[i] == x;
        assert(s[i] < n);
    }
    vstd::set_lib::lemma_len_subset(t.to_set(), vstd::set_lib::set_int_range(0, n));
}

/// The ranges of the cycle closed by the back edge `node -> target`,
/// where `target` sits at `start` on the path.
fn collect_cycle(
    adj: &Vec<Vec<(usize, Range)>>,
    path: &Vec<usize>,
    start: usize,
    target: usize,
    cycles: &mut Vec<Range>,
)
    requires
        path@.len() >= 1,
        start < path@.len(),
        path@[start as int] == target,
        path@.len() - start > 2,
        has_edge(gv(adj@), path@.last() as int, target as int),
        forall|i: int| 0 <= i < path@.len() ==> (#[trigger] path@[i]) < adj@.len(),
        forall|i: int, j: int| 0 <= i < j < path@.len() ==> path@[i] != path@[j],
        forall|i: int| 0 <= i < path@.len() - 1 ==> has_edge(gv(adj@), #[trigger] path@[i] as int, path@[i + 1] as int),
        all_on_cycle(gv(adj@), old(cycles)@),
    ensures
        all_on_cycle(gv(adj@), final(cycles)@),
        final(cycles)@ == old(cycles)@ + cycle_ranges(gv(adj@), closed_walk(path@, start as int)),
{
    let ghost g = gv(adj@);
    let ghost cy0 = cycles@;
    let ghost c: Seq<int> = path@.subrange(start as int, path@.len() as int).map_values(|v: usize| v as int);
    proof {
        assert(is_cycle(g, c)) by {
            assert forall|i: int| 0 <= i < c.len() implies has_edge(g, #[trigger] c[i], next_in(c, i)) by {
                if i + 1 < c.len() {
                    assert(c[i] == path@[start + i]);
                    assert(c[i + 1] == path@[start + i + 1]);
                } else {
                    assert(c[i] == path@.last());
                    assert(c[0] == target);
                }
            }
        }
    }
    let n = path.len();
    let mut i: usize = start;
    while i < n
        invariant
            start <= i <= n,
            n == path@.len(),
            g == gv(adj@),
            forall|k: int| 0 <= k < path@.len() ==> (#[trigger] path@[k]) < g.len(),
            is_cycle(g, c),
            c == path@.subrange(start as int, path@.len() as int).map_values(|v: usize| v as int),
            path@[start as int] == target,
            all_on_cycle(g, cycles@),
            c == closed_walk(path@, start as int),
            cycles@ == cy0 + cycle_ranges(g, c).take(i - start),
        decreases n - i,
    {
        let from = path[i];
        let to = if i + 1 < n {
            path[i + 1]
        } else {
            target
        };
        let ghost ci: int = i - start;
        proof {
            assert(c[ci] == from as int);
            assert(next_in(c, ci) == to as int);
            assert(has_edge(g, c[ci], next_in(c, ci)));
        }
        let es = &adj[from];
        match first_to_exec(es, to) {
            Some(j) => {
                let r = es[j].1;
                proof {
                    assert(r == edge_range(g, c[ci], next_in(c, ci)));
                    assert(on_cycle(g, r));
                }
                let ghost before = cycles@;
                cycles.push(r);
                proof {
                    assert forall|k: int| 0 <= k < cycles@.len() implies on_cycle(g, #[trigger] cycles@[k]) by {
                        if k < before.len() {
                            assert(cycles@[k] == before[k]);
                        }
                    }
                }
            },
            None => {
                proof {
                    lemma_first_to_props(g[c[ci]], next_in(c, ci));
                    assert(false);
                }
            },
        }
        proof {
            assert(cycle_ranges(g, c).take(ci + 1) =~= cycle_ranges(g, c).take(ci).push(edge_range(g, c[ci], next_in(c, ci))));
        }
        i = i + 1;
    }
    proof {
        assert(cycle_ranges(g, c).take(n - start) =~= cycle_ranges(g, c));
    }
}

/// The edge lists of an adjacency vector.
pub open spec fn gv(adj: Seq<Vec<(usize, Range)>>) -> Seq<Seq<(usize, Range)>> {
    adj.map_values(|v: Vec<(usize, Range)>| v@)
}

/// Depth-first search from `node` over the relationship graph, recording in
/// `cycles` the edge ranges of each cycle of three or more models that a
/// back edge closes. `color` is 0 (unvisited), 1 (on `path`) or 2 (done).
pub fn dfs_cycles(
    node: usize,
    adj: &Vec<Vec<(usize, Range)>>,
    color: &mut Vec<u8>,
    path: &mut Vec<usize>,
    cycles: &mut Vec<Range>,
)
    requires
        dfs_inv(gv(adj@), old(color)@, old(path)@),
        node < adj@.len(),
        old(color)@[node as int] == 0,
        old(path)@.len() > 0 ==> has_edge(gv(adj@), old(path)@.last() as int, node as int),
        all_on_cycle(gv(adj@), old(cycles)@),
    ensures
        dfs_inv(gv(adj@), final(color)@, final(path)@),
        final(path)@ == old(path)@,
        final(color)@.len() == old(color)@.len(),
        forall|v: int|
            0 <= v < old(color)@.len() && old(color)@[v] != 0 ==> #[trigger] final(color)@[v]
                == old(color)@[v],
        final(color)@[node as int] == 2,
        whites(final(color)@) < whites(old(color)@),
        all_on_cycle(gv(adj@), final(cycles)@),
        (final(color)@, final(cycles)@) == dfs_node(gv(adj@), old(path)@, (old(color)@, old(cycles)@), node),
    decreases whites(old(color)@),
{
    let ghost g = gv(adj@);
    let ghost c0 = color@;
    let ghost p0 = path@;
    let ghost cy0 = cycles@;
    let n = color.len();
    proof {
        lemma_whites_update(color@, node as int, 1);
        assert(g.len() == adj@.len());
    }
    color[node] = 1;
    path.push(node);
    proof {
        assert forall|v: int| 0 <= v < g.len() implies (#[trigger] color@[v] == 1 <==> path@.contains(v as usize)) by {
            if v == node {
                assert(path@[path@.len() - 1] == node);
            } else {
                if p0.contains(v as usize) {
                    let k = choose|k: int| 0 <= k < p0.len() && p0[k] == v as usize;
                    assert(path@[k] == v as usize);
                }
                if path@.contains(v as usize) {
                    let k = choose|k: int| 0 <= k < path@.len() && path@[k] == v as usize;
                    assert(path@ == p0.push(node));
                    if k == p0.len() {
                        assert(path@[k] == node);
                    }
                    assert(k < p0.len());
                    assert(p0[k] == v as usize);
                }
            }
        }
        assert forall|i: int, j: int| 0 <= i < j < path@.len() implies path@[i] != path@[j] by {
            if j == path@.len() - 1 {
                if path@[i] == node {
                    assert(p0[i] == node);
                    assert(p0.contains(node));
                    assert(c0[node as int] == 1);
                }
            }
        }
    }
    proof {
        lemma_distinct_len(path@, g.len() as int);
    }
    let ghost st2 = dfs_edges(g, path@, (color@, cycles@), node, 0);
    let edges = &adj[node];
    let mut j: usize = 0;
    while j < edges.len()
        invariant
            dfs_edges(g, path@, (color@, cycles@), node, j as int) == st2,
            p0.len() < g.len(),
            g == gv(adj@),
            node < g.len(),
            edges@ == g[node as int],
            j <= edges@.len(),
            dfs_inv(g, color@, path@),
            path@ == p0.push(node),
            c0 == old(color)@,
            color@.len() == c0.len(),
            color@[node as int] == 1,
            forall|v: int| 0 <= v < c0.len() && c0[v] != 0 ==> #[trigger] color@[v] == c0[v],
            whites(color@) < whites(c0),
            all_on_cycle(g, cycles@),
        decreases edges@.len() - j,
    {
        let target = edges[j].0;
        proof {
            assert(g[node as int][j as int].0 < g.len());
            lemma_first_to_found(g[node as int], target as int, j as int);
            assert(has_edge(g, node as int, target as int));
        }
        let ghost before: DfsState = (color@, cycles@);
        let c = color[target];
        if c == 1 {
            let mut k: usize = 0;
            while k < path.len() && path[k] != target
                invariant
                    k <= path@.len(),
                    forall|i: int| 0 <= i < k ==> path@[i] != target,
                decreases path@.len() - k,
            {
                k = k + 1;
            }
            proof {
                let p = path@;
                if k < path.len() {
                    assert(p[k as int] == target);
                    let kk = choose|kk: int| 0 <= kk < p.len() && p[kk] == target;
                    if kk < k {
                        assert(p[kk] != p[k as int]);
                    }
                    if k < kk {
                        assert(p[k as int] != p[kk]);
                    }
                    assert(kk == k);
                } else {
                    assert(!(exists|kk: int| 0 <= kk < p.len() && p[kk] == target));
                }
            }
            if k < path.len() && path.len() - k > 2 {
                proof {
                    assert(path@.last() == node);
                }
                collect_cycle(adj, path, k, target, cycles);
            }
            proof {
                assert(cycles@ == before.1 + back_edge_ranges(g, path@, target));
            }
        } else if c == 0 {
            proof {
                assert(path@.last() == node);
            }
            dfs_cycles(target, adj, color, path, cycles);
        }
        proof {
            assert(dfs_edges(g, path@, before, node, j as int) == dfs_edges(g, path@, (color@, cycles@), node, j + 1));
        }
        j = j + 1;
    }
    let ghost c1 = color@;
    proof {
        lemma_whites_update(color@, node as int, 2);
    }
    path.pop();
    color[node] = 2;
    proof {
        assert((c1, cycles@) == st2);
        assert(dfs_node(g, p0, (c0, cy0), node) == (c1.update(node as int, 2), cycles@));
        assert(path@ =~= p0);
        assert forall|v: int| 0 <= v < g.len() implies (#[trigger] color@[v] == 1 <==> path@.contains(v as usize)) by {
            if v == node {
                if p0.contains(node) {
                    let k = choose|k: int| 0 <= k < p0.len() && p0[k] == node;
                    assert(p0.push(node)[k] == p0.push(node)[p0.len() as int]);
                }
            } else {
                assert(c1[v] == 1 <==> p0.push(node).contains(v as usize));
                if p0.push(node).contains(v as usize) {
                    let k = choose|k: int| 0 <= k < p0.len() + 1 && p0.push(node)[k] == v as usize;
                    if k == p0.len() {
                        assert(p0.push(node)[k] == node);
                    }
                    assert(k < p0.len());
                    assert(p0[k] == v as usize);
                }
                if p0.contains(v as usize) {
                    let k = choose|k: int| 0 <= k < p0.len() && p0[k] == v as usize;
                    assert(p0.push(node)[k] == v as usize);
                }
            }
        }
    }
}

proof fn lemma_index_in_props(nodes: Seq<Seq<char>>, name: Seq<char>)
    ensures
        -1 <= index_in(nodes, name) < nodes.len(),
        index_in(nodes, name) >= 0 ==> nodes[index_in(nodes, name)] == name,
        index_in(nodes, name) >= 0 ==> forall|j: int| 0 <= j < index_in(nodes, name) ==> nodes[j] != name,
        index_in(nodes, name) < 0 <==> !nodes.contains(name),
    decreases nodes.len(),
{
    if nodes.len() > 0 {
        lemma_index_in_props(nodes.drop_last(), name);
        assert(forall|j: int| 0 <= j < nodes.len() - 1 ==> nodes.drop_last()[j] == nodes[j]);
        if nodes.contains(name) {
            let k = choose|k: int| 0 <= k < nodes.len() && nodes[k] == name;
            if k < nodes.len() - 1 {
                assert(nodes.drop_last()[k] == name);
            }
        }
        if index_in(nodes, name) >= 0 {
            assert(nodes[index_in(nodes, name)] == name);
        }
    }
}

fn index_in_exec(nodes: &Vec<String>, name: &str) -> (r: Option<usize>)
    ensures
        match r {
            Some(i) => i < nodes@.len() && i as int == index_in(sviews(nodes@), name@),
            None => index_in(sviews(nodes@), name@) < 0,
        },
{
    let ghost s = sviews(nodes@);
    proof {
        lemma_index_in_props(s, name@);
    }
    let mut i: usize = 0;
    while i < nodes.len()
        invariant
            i <= nodes@.len(),
            s == sviews(nodes@),
            forall|k: int| 0 <= k < i ==> s[k] != name@,
        decreases nodes@.len() - i,
    {
        if str_eq(nodes[i].as_str(), name) {
            proof {
                assert(s[i as int] == name@);
                assert(s.contains(name@));
                lemma_index_in_props(s, name@);
                let x = index_in(s, name@);
                if x < i {
                    assert(s[x] == name@);
                }
                if x > i {
                    assert(s[i as int] != name@);
                }
            }
            return Some(i);
        }
        i = i + 1;
    }
    proof {
        if s.contains(name@) {
            let k = choose|k: int| 0 <= k < s.len() && s[k] == name@;
            assert(s[k] != name@);
        }
    }
    None
}

fn node_names_exec(models: &[Model]) -> (r: Vec<String>)
    ensures
        sviews(r@) == node_names(models@),
{
    let mut nodes: Vec<String> = Vec::new();
    let mut i: usize = 0;
    while i < models.len()
        invariant
            i <= models@.len(),
            sviews(nodes@) == node_names(models@.take(i as int)),
        decreases models@.len() - i,
    {
        proof {
            assert(models@.take(i + 1).drop_last() =~= models@.take(i as int));
            lemma_index_in_props(sviews(nodes@), models@[i as int].name@);
        }
        if index_in_exec(&nodes, models[i].name.as_str()).is_none() {
            push_string(&mut nodes, models[i].name.clone());
        }
        i = i + 1;
    }
    assert(models@.take(models@.len() as int) =~= models@);
    nodes
}

fn rel_edges_exec(rels: &Vec<(String, Relationship)>, nodes: &Vec<String>, out: &mut Vec<(usize, Range)>)
    ensures
        final(out)@ == old(out)@ + rel_edges(rels@, sviews(nodes@)),
{
    let ghost start = out@;
    let mut i: usize = 0;
    while i < rels.len()
        invariant
            i <= rels@.len(),
            out@ == start + rel_edges(rels@.take(i as int), sviews(nodes@)),
        decreases rels@.len() - i,
    {
        proof {
            assert(rels@.take(i + 1).drop_last() =~= rels@.take(i as int));
        }
        let r = &rels[i].1;
        if r.back_populates.is_none() && !r.target_model.as_str().is_empty() {
            match index_in_exec(nodes, r.target_model.as_str()) {
                Some(t) => {
                    out.push((t, r.name_range));
                },
                None => {},
            }
        }
        proof {
            assert(out@ =~= start + rel_edges(rels@.take(i + 1), sviews(nodes@)));
        }
        i = i + 1;
    }
    assert(rels@.take(rels@.len() as int) =~= rels@);
}

fn node_edges_exec(models: &[Model], nodes: &Vec<String>, k: usize) -> (r: Vec<(usize, Range)>)
    requires
        k < nodes@.len(),
    ensures
        r@ == node_edges(models@, sviews(nodes@), nodes@[k as int]@),
{
    let mut out: Vec<(usize, Range)> = Vec::new();
    let mut i: usize = 0;
    while i < models.len()
        invariant
            i <= models@.len(),
            k < nodes@.len(),
            out@ == node_edges(models@.take(i as int), sviews(nodes@), nodes@[k as int]@),
        decreases models@.len() - i,
    {
        proof {
            assert(models@.take(i + 1).drop_last() =~= models@.take(i as int));
        }
        if str_eq(models[i].name.as_str(), nodes[k].as_str()) {
            rel_edges_exec(models[i].relationships.entries(), nodes, &mut out);
        } else {
            proof {
                assert(out@ =~= out@ + Seq::<(usize, Range)>::empty());
            }
        }
        i = i + 1;
    }
    assert(models@.take(models@.len() as int) =~= models@);
    out
}

proof fn lemma_rel_edges_wf(rels: Seq<(String, Relationship)>, nodes: Seq<Seq<char>>)
    ensures
        forall|j: int| 0 <= j < rel_edges(rels, nodes).len() ==> (#[trigger] rel_edges(rels, nodes)[j]).0 < nodes.len(),
    decreases rels.len(),
{
    if rels.len() > 0 {
        lemma_rel_edges_wf(rels.drop_last(), nodes);
        lemma_index_in_props(nodes, rels.last().1.target_model@);
        let a = rel_edges(rels.drop_last(), nodes);
        let b = edge_of(rels.last().1, nodes);
        assert forall|j: int| 0 <= j < (a + b).len() implies (#[trigger] (a + b)[j]).0 < nodes.len() by {
            if j < a.len() {
                assert((a + b)[j] == a[j]);
            }
        }
    }
}

proof fn lemma_node_edges_wf(models: Seq<Model>, nodes: Seq<Seq<char>>, name: Seq<char>)
    ensures
        forall|j: int| 0 <= j < node_edges(models, nodes, name).len() ==> (#[trigger] node_edges(models, nodes, name)[j]).0 < nodes.len(),
    decreases models.len(),
{
    if models.len() > 0 {
        lemma_node_edges_wf(models.drop_last(), nodes, name);
        lemma_rel_edges_wf(models.last().relationships.seq(), nodes);
        let a = node_edges(models.drop_last(), nodes, name);
        let b = if models.last().name@ == name {
            rel_edges(models.last().relationships.seq(), nodes)
        } else {
            Seq::empty()
        };
        assert forall|j: int| 0 <= j < (a + b).len() implies (#[trigger] (a + b)[j]).0 < nodes.len() by {
            if j < a.len() {
                assert((a + b)[j] == a[j]);
            } else {
                assert((a + b)[j] == b[j - a.len()]);
            }
        }
    }
}

/// The relationship graph of a file, as adjacency lists.
fn build_graph(models: &[Model]) -> (adj: Vec<Vec<(usize, Range)>>)
    ensures
        gv(adj@) == graph(models@),
        graph_wf(graph(models@)),
{
    let nodes = node_names_exec(models);
    let ghost ns = sviews(nodes@);
    let mut adj: Vec<Vec<(usize, Range)>> = Vec::new();
    let mut k: usize = 0;
    while k < nodes.len()
        invariant
            k <= nodes@.len(),
            ns == sviews(nodes@),
            ns == node_names(models@),
            adj@.len() == k,
            forall|a: int| 0 <= a < k ==> #[trigger] adj@[a]@ == node_edges(models@, ns, ns[a]),
        decreases nodes@.len() - k,
    {
        let es = node_edges_exec(models, &nodes, k);
        adj.push(es);
        k = k + 1;
    }
    proof {
        assert(gv(adj@) =~= graph(models@));
        assert forall|a: int, j: int| 0 <= a < graph(models@).len() && 0 <= j < graph(models@)[a].len() implies (#[trigger] graph(models@)[a][j]).0 < graph(models@).len() by {
            lemma_node_edges_wf(models@, ns, ns[a]);
            assert(graph(models@)[a] == node_edges(models@, ns, ns[a]));
        }
    }
    adj
}

/// The ranges with repeats dropped, first occurrences kept in order.
pub open spec fn dedup(rs: Seq<Range>) -> Seq<Range>
    decreases rs.len(),
{
    if rs.len() == 0 {
        Seq::empty()
    } else {
        let d = dedup(rs.drop_last());
        if d.contains(rs.last()) {
            d
        } else {
            d.push(rs.last())
        }
    }
}

/// The ranges of a list of findings.
pub open spec fn diag_ranges(ds: Seq<LspDiagnostic>) -> Seq<Range> {
    ds.map_values(|d: LspDiagnostic| d.range)
}

/// The H410 finding for one cycle edge.
pub open spec fn h410_view(r: Range) -> DiagView {
    dv("SQLA-H410"@, Severity::Hint, "Circular relationship detected"@, r)
}

/// H410: the edges of each cycle of three or more models of this file that a
/// depth-first search (models in file order) closes with a back edge, each
/// range once, in the order first found. A relationship with
/// `back_populates` is an intended pair and is no edge.
fn h410(models: &[Model]) -> (r: Vec<LspDiagnostic>)
    ensures
        forall|i: int| 0 <= i < r@.len() ==> #[trigger] r@[i]@ == h410_view(r@[i].range) && on_cycle(graph(models@), r@[i].range),
        forall|i: int, j: int| 0 <= i < j < r@.len() ==> r@[i].range != r@[j].range,
        diag_ranges(r@) == dedup(cycle_edges(graph(models@))),
{
    let adj = build_graph(models);
    let ghost g = graph(models@);
    let n = adj.len();
    let mut color: Vec<u8> = Vec::new();
    let mut k: usize = 0;
    while k < n
        invariant
            k <= n,
            n == adj@.len(),
            color@.len() == k,
            forall|v: int| 0 <= v < k ==> #[trigger] color@[v] == 0,
        decreases n - k,
    {
        color.push(0);
        k = k + 1;
    }
    let mut path: Vec<usize> = Vec::new();
    let mut cycles: Vec<Range> = Vec::new();
    proof {
        assert(color@ =~= Seq::new(g.len(), |i: int| 0u8));
        assert(cycles@ =~= Seq::<Range>::empty());
    }
    let ghost full = dfs_from(g, (color@, cycles@), 0);
    let mut start: usize = 0;
    while start < n
        invariant
            dfs_from(g, (color@, cycles@), start as int) == full,
            full.1 == cycle_edges(g),
            n == adj@.len(),
            g == gv(adj@),
            graph_wf(g),
            dfs_inv(g, color@, path@),
            path@.len() == 0,
            all_on_cycle(g, cycles@),
        decreases n - start,
    {
        let ghost before: DfsState = (color@, cycles@);
        if color[start] == 0 {
            proof {
                assert(path@ =~= Seq::<usize>::empty());
            }
            dfs_cycles(start, &adj, &mut color, &mut path, &mut cycles);
        }
        proof {
            assert(dfs_from(g, before, start as int) == dfs_from(g, (color@, cycles@), start + 1));
        }
        start = start + 1;
    }
    let mut out: Vec<LspDiagnostic> = Vec::new();
    let mut i: usize = 0;
    while i < cycles.len()
        invariant
            i <= cycles@.len(),
            all_on_cycle(g, cycles@),
            g == graph(models@),
            forall|a: int| 0 <= a < out@.len() ==> #[trigger] out@[a]@ == h410_view(out@[a].range) && on_cycle(g, out@[a].range),
            forall|a: int, b: int| 0 <= a < b < out@.len() ==> out@[a].range != out@[b].range,
            cycles@ == cycle_edges(g),
            diag_ranges(out@) == dedup(cycles@.take(i as int)),
        decreases cycles@.len() - i,
    {
        let r = cycles[i];
        let mut seen = false;
        let mut j: usize = 0;
        while j < out.len()
            invariant
                j <= out@.len(),
                seen ==> exists|a: int| 0 <= a < out@.len() && out@[a].range == r,
                !seen ==> forall|a: int| 0 <= a < j ==> out@[a].range != r,
            decreases out@.len() - j,
        {
            if out[j].range == r {
                seen = true;
            }
            j = j + 1;
        }
        proof {
            assert(cycles@.take(i + 1).drop_last() =~= cycles@.take(i as int));
            if seen {
                let a = choose|a: int| 0 <= a < out@.len() && out@[a].range == r;
                assert(diag_ranges(out@)[a] == r);
            } else {
                assert forall|a: int| 0 <= a < diag_ranges(out@).len() implies diag_ranges(out@)[a] != r by {
                    assert(out@[a].range != r);
                }
            }
        }
        let ghost before = out@;
        if !seen {
            let d = make_diag("SQLA-H410", Severity::Hint, to_owned("Circular relationship detected"), r);
            out.push(d);
            proof {
                assert(diag_ranges(out@) =~= diag_ranges(before).push(r));
            }
        }
        i = i + 1;
    }
    proof {
        assert(cycles@.take(cycles@.len() as int) =~= cycles@);
    }
    out
}

// ── Entry point ──────────────────────────────────────────────────────────────

/// What the ORM rules report on a file's models: the per-model findings in
/// order, then one H410 finding per distinct range that the depth-first cycle
/// search collects, in the order first found.
pub open spec fn orm_findings_ok(st: WorkspaceState, models: Seq<Model>, r: Seq<LspDiagnostic>) -> bool {
    let k = models_findings(st, models).len();
    &&& r.len() >= k
    &&& dviews(r.take(k as int)) == models_findings(st, models)
    &&& forall|i: int| k <= i < r.len() ==> #[trigger] r[i]@ == h410_view(r[i].range) && on_cycle(graph(models), r[i].range)
    &&& forall|i: int, j: int| k <= i < j < r.len() ==> r[i].range != r[j].range
    &&& diag_ranges(r.skip(k as int)) == dedup(cycle_edges(graph(models)))
}

/// Run every ORM rule on the models of one file against the workspace index:
/// for each model in turn the rules W101 to W409 in code order (each rule
/// walking columns or relationships in index order), then the file-wide H410
/// cycle findings.
pub fn check_file(models: &[Model], state: &WorkspaceState) -> (r: Vec<LspDiagnostic>)
    ensures
        r@.len() >= models_findings(*state, models@).len(),
        dviews(r@.take(models_findings(*state, models@).len() as int)) == models_findings(
            *state,
            models@,
        ),
        forall|i: int|
            models_findings(*state, models@).len() <= i < r@.len() ==> #[trigger] r@[i]@
                == h410_view(r@[i].range) && on_cycle(graph(models@), r@[i].range),
        forall|i: int, j: int|
            models_findings(*state, models@).len() <= i < j < r@.len() ==> r@[i].range
                != r@[j].range,
        diag_ranges(r@.skip(models_findings(*state, models@).len() as int)) == dedup(
            cycle_edges(graph(models@)),
        ),
{
    let mut out = check_models(models, state);
    let ghost k = out@.len();
    let cyc = h410(models);
    let ghost before = out@;
    let ghost cy = cyc@;
    let m = cyc.len();
    for d in it: cyc
        invariant
            m == cy.len(),
            it.seq() == cy,
            out@ == before + cy.take(it.index() as int),
    {
        out.push(d);
        proof {
            assert(out@ =~= before + cy.take(it.index() + 1));
        }
    }
    proof {
        assert(cy.take(m as int) =~= cy);
        assert(out@.take(k as int) =~= before);
        assert forall|i: int| k <= i < out@.len() implies out@[i] == cy[i - k] by {}
        assert(out@.skip(k as int) =~= cy);
    }
    out
}

/// A finding of `f` on some element of `s` is a finding of the walk.
proof fn lemma_over_has<T>(s: Seq<(String, T)>, f: spec_fn(T) -> Seq<DiagView>, i: int, d: DiagView)
    requires
        0 <= i < s.len(),
        f(s[i].1).contains(d),
    ensures
        over(s, f).contains(d),
    decreases s.len(),
{
    let p = s.drop_last();
    if i < s.len() - 1 {
        assert(p[i] == s[i]);
        lemma_over_has(p, f, i, d);
        let j = choose|j: int| 0 <= j < over(p, f).len() && #[trigger] over(p, f)[j] == d;
        assert(over(s, f)[j] == d);
    } else {
        let j = choose|j: int| 0 <= j < f(s[i].1).len() && #[trigger] f(s[i].1)[j] == d;
        assert(over(s, f)[over(p, f).len() + j] == d);
    }
}

/// Every finding of the walk is a finding of `f` on some element of `s`.
proof fn lemma_over_from<T>(s: Seq<(String, T)>, f: spec_fn(T) -> Seq<DiagView>, k: int)
    requires
        0 <= k < over(s, f).len(),
    ensures
        exists|i: int| 0 <= i < s.len() && #[trigger] f(s[i].1).contains(over(s, f)[k]),
    decreases s.len(),
{
    let p = s.drop_last();
    let d = over(s, f)[k];
    if k < over(p, f).len() {
        assert(over(p, f)[k] == d);
        lemma_over_from(p, f, k);
        let i = choose|i: int| 0 <= i < p.len() && #[trigger] f(p[i].1).contains(over(p, f)[k]);
        assert(p[i] == s[i]);
        assert(f(s[i].1).contains(d));
    } else {
        let j = k - over(p, f).len();
        assert(f(s.last().1)[j] == d);
        assert(f(s[s.len() - 1].1).contains(d));
    }
}

/// The SQLA-H407 finding for relationship `rel` at column `c`.
pub open spec fn h407_finding(rel: Relationship, c: Column) -> DiagView {
    dv(
        "SQLA-H407"@,
        Severity::Hint,
        "One-to-one relationship `"@ + rel.name@ + "` but FK column `"@ + c.name@ + "` is not unique"@,
        c.name_range,
    )
}

/// A column that a one-to-one relationship needs unique: its foreign key
/// points at the target, and it is neither unique nor a primary key.
pub open spec fn needs_unique(c: Column, rel: Relationship, table: Option<Seq<char>>) -> bool {
    &&& c.foreign_key is Some
    &&& (c.foreign_key->0.table@ == rel.target_model@ || table == Some(c.foreign_key->0.table@))
    &&& !c.args.unique
    &&& !c.args.primary_key
}

/// A one-to-one relationship (`uselist=False` on a scalar annotation) gets
/// an SQLA-H407 hint at every foreign-key column pointing at its target
/// that is neither unique nor a primary key, and nothing else: a column
/// already marked `unique=True` or `primary_key=True` gets no hint. Other
/// relationships get none at all.
pub proof fn law_h407_flags_non_unique_fk(st: WorkspaceState, m: Model, rel: Relationship)
    ensures
        (rel.uselist != Some(false) || rel.is_list) ==> rel_rule(RelRule::H407, st, m, rel).len() == 0,
        rel.uselist == Some(false) && !rel.is_list ==> forall|i: int|
            0 <= i < m.columns.seq().len() && needs_unique(
                #[trigger] m.columns.seq()[i].1,
                rel,
                target_table(st, rel.target_model@),
            ) ==> rel_rule(RelRule::H407, st, m, rel).contains(h407_finding(rel, m.columns.seq()[i].1)),
        forall|k: int|
            #![trigger rel_rule(RelRule::H407, st, m, rel)[k]]
            0 <= k < rel_rule(RelRule::H407, st, m, rel).len() ==> exists|i: int|
                #![trigger m.columns.seq()[i]]
                0 <= i < m.columns.seq().len() && needs_unique(
                    m.columns.seq()[i].1,
                    rel,
                    target_table(st, rel.target_model@),
                ) && rel_rule(RelRule::H407, st, m, rel)[k] == h407_finding(rel, m.columns.seq()[i].1),
{
    let cols = m.columns.seq();
    let table = target_table(st, rel.target_model@);
    let f = h407_f(rel, table);
    if rel.uselist == Some(false) && !rel.is_list {
        let out = rel_rule(RelRule::H407, st, m, rel);
        assert(out == over(cols, f));
        assert forall|i: int|
            0 <= i < cols.len() && needs_unique(#[trigger] cols[i].1, rel, table) implies out.contains(
            h407_finding(rel, cols[i].1),
        ) by {
            assert(f(cols[i].1) == h407_col(rel, table, cols[i].1));
            assert(f(cols[i].1)[0] == h407_finding(rel, cols[i].1));
            lemma_over_has(cols, f, i, h407_finding(rel, cols[i].1));
        }
        assert forall|k: int| 0 <= k < out.len() implies exists|i: int|
            #![trigger cols[i]]
            0 <= i < cols.len() && needs_unique(cols[i].1, rel, table) && #[trigger] out[k]
                == h407_finding(rel, cols[i].1) by {
            lemma_over_from(cols, f, k);
            let i = choose|i: int| 0 <= i < cols.len() && #[trigger] f(cols[i].1).contains(over(cols, f)[k]);
            assert(f(cols[i].1) == h407_col(rel, table, cols[i].1));
            assert(needs_unique(cols[i].1, rel, table));
        }
    }
}

} // verus!
