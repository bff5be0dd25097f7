//! Best-practice lints (SQLA-1xx..5xx): code that is valid but carries a
//! hidden cost or relies on a legacy API.
use vstd::prelude::*;

use crate::diagnostics::{dv, dv_deprecated, dviews, make_diag, make_diag_deprecated, DiagView, LspDiagnostic};
use crate::f01::{
    append_diags, concat5, links_to, links_to_exec, lookup_model, lookup_model_exec, one, over,
    push_diag, target_table, target_table_exec,
};
use crate::state::WorkspaceState;
use crate::text::{
    concat2, concat3, contains, dec, ends_with, eq_ignore_ascii_case, push_dec, push_str, starts_with, str_eq,
    to_chars, trim,
};
use crate::types::{Column, MappedType, Model, Relationship, Severity, TypeV};

verus! {

// ── Mutable defaults ─────────────────────────────────────────────────────────

/// A default expression that builds a shared mutable value: `dict(...)`,
/// `list(...)`, `set(...)`, or a `{...}` / `[...]` literal.
pub open spec fn mutable_default(text: Seq<char>) -> bool {
    let t = trim(text);
    starts_with(t, "dict("@) || starts_with(t, "list("@) || starts_with(t, "set("@) || (starts_with(
        t,
        seq!['{'],
    ) && ends_with(t, seq!['}'])) || (starts_with(t, seq!['[']) && ends_with(t, seq![']']))
}

/// Whether a default expression is a mutable literal.
pub fn is_mutable_default(text: &str) -> (r: bool)
    ensures
        r == mutable_default(text@),
{
    let chars = to_chars(text);
    let t = crate::text::trim_exec(chars.as_slice());
    let t = t.as_slice();
    let dict = to_chars("dict(");
    let list = to_chars("list(");
    let set = to_chars("set(");
    let ob = vec!['{'];
    let cb = vec!['}'];
    let os = vec!['['];
    let cs = vec![']'];
    proof {
        assert(ob@ == seq!['{']);
        assert(cb@ == seq!['}']);
        assert(os@ == seq!['[']);
        assert(cs@ == seq![']']);
    }
    crate::text::starts_with_exec(t, dict.as_slice()) || crate::text::starts_with_exec(t, list.as_slice())
        || crate::text::starts_with_exec(t, set.as_slice()) || (crate::text::starts_with_exec(
        t,
        ob.as_slice(),
    ) && crate::text::ends_with_exec(t, cb.as_slice())) || (crate::text::starts_with_exec(
        t,
        os.as_slice(),
    ) && crate::text::ends_with_exec(t, cs.as_slice()))
}

// ── W104, H106 ───────────────────────────────────────────────────────────────

/// Some column is a primary key.
pub open spec fn has_pk_col(cols: Seq<(String, Column)>) -> bool {
    exists|i: int| 0 <= i < cols.len() && (#[trigger] cols[i].1).args.primary_key
}

/// Some table argument is a `PrimaryKeyConstraint`.
pub open spec fn has_pk_constraint(args: Seq<crate::types::TableArg>) -> bool {
    exists|i: int| 0 <= i < args.len() && (#[trigger] args[i]).kind@ == "PrimaryKeyConstraint"@
}

/// W104: a table model without a primary key.
pub open spec fn w104_spec(m: Model) -> Seq<DiagView> {
    if m.table_name.is_some() && !has_pk_col(m.columns.seq()) && !has_pk_constraint(m.table_args@) {
        one(
            "SQLA-W104"@,
            Severity::Warning,
            "Model `"@ + m.name@
                + "` has no primary key; add primary_key=True to a column or a PrimaryKeyConstraint"@,
            m.name_range,
        )
    } else {
        Seq::empty()
    }
}

fn w104(model: &Model) -> (r: Vec<LspDiagnostic>)
    ensures
        dviews(r@) == w104_spec(*model),
{
    if model.table_name.is_none() {
        return Vec::new();
    }
    let cols = model.columns.entries();
    let mut i: usize = 0;
    while i < cols.len()
        invariant
            i <= cols@.len(),
            cols@ == model.columns.seq(),
            forall|j: int| 0 <= j < i ==> !(#[trigger] cols@[j].1).args.primary_key,
        decreases cols@.len() - i,
    {
        if cols[i].1.args.primary_key {
            assert(cols@[i as int].1.args.primary_key);
            return Vec::new();
        }
        i = i + 1;
    }
    let mut k: usize = 0;
    while k < model.table_args.len()
        invariant
            k <= model.table_args@.len(),
            forall|j: int| 0 <= j < k ==> (#[trigger] model.table_args@[j]).kind@ != "PrimaryKeyConstraint"@,
        decreases model.table_args@.len() - k,
    {
        if str_eq(model.table_args[k].kind.as_str(), "PrimaryKeyConstraint") {
            assert(model.table_args@[k as int].kind@ == "PrimaryKeyConstraint"@);
            return Vec::new();
        }
        k = k + 1;
    }
    let msg = concat3(
        "Model `",
        model.name.as_str(),
        "` has no primary key; add primary_key=True to a column or a PrimaryKeyConstraint",
    );
    let mut out: Vec<LspDiagnostic> = Vec::new();
    push_diag(&mut out, make_diag("SQLA-W104", Severity::Warning, msg, model.name_range));
    out
}

/// H106: a named-constraint-less `Index` / `UniqueConstraint`, one per argument.
pub open spec fn h106_spec(args: Seq<crate::types::TableArg>) -> Seq<DiagView>
    decreases args.len(),
{
    if args.len() == 0 {
        Seq::empty()
    } else {
        let ta = args.last();
        h106_spec(args.drop_last()) + if ta.kind@ != "PrimaryKeyConstraint"@ && ta.name.is_none() {
            one(
                "SQLA-H106"@,
                Severity::Hint,
                ta.kind@
                    + " has no name; add name= or set a naming_convention so migrations can target it"@,
                ta.full_range,
            )
        } else {
            Seq::<DiagView>::empty()
        }
    }
}

fn h106(model: &Model) -> (r: Vec<LspDiagnostic>)
    ensures
        dviews(r@) == h106_spec(model.table_args@),
{
    let args = &model.table_args;
    let mut out: Vec<LspDiagnostic> = Vec::new();
    let mut i: usize = 0;
    while i < args.len()
        invariant
            i <= args@.len(),
            args@ == model.table_args@,
            dviews(out@) == h106_spec(args@.take(i as int)),
        decreases args@.len() - i,
    {
        proof {
            assert(args@.take(i + 1).drop_last() =~= args@.take(i as int));
        }
        let ta = &args[i];
        if !str_eq(ta.kind.as_str(), "PrimaryKeyConstraint") && ta.name.is_none() {
            let mut msg = crate::text::to_owned(ta.kind.as_str());
            push_str(
                &mut msg,
                " has no name; add name= or set a naming_convention so migrations can target it",
            );
            push_diag(&mut out, make_diag("SQLA-H106", Severity::Hint, msg, ta.full_range));
        }
        i = i + 1;
    }
    assert(args@.take(args@.len() as int) =~= args@);
    out
}

// ── Column lints (H202, W203, W204, H205) ────────────────────────────────────

/// Some argument mentions `timezone`.
pub open spec fn mentions_timezone(args: Seq<String>) -> bool {
    exists|i: int| 0 <= i < args.len() && contains(#[trigger] args[i]@, "timezone"@)
}

/// A `DateTime` column type with no timezone: `datetime`, `Optional[datetime]`,
/// or an SQL `DateTime(...)` without a `timezone` argument.
pub open spec fn naive_datetime(t: MappedType) -> bool {
    match t {
        MappedType::DateTime => true,
        MappedType::Optional(inner) => *inner is DateTime,
        MappedType::SqlType { name, args } => eq_ignore_ascii_case(name@, "datetime"@)
            && !mentions_timezone(args@),
        _ => false,
    }
}

/// `Model.column`.
pub open spec fn dotted(a: Seq<char>, b: Seq<char>) -> Seq<char> {
    a + "."@ + b
}

pub open spec fn h202_c(q: Seq<char>, c: Column) -> Seq<DiagView> {
    if c.args.explicit_nullable_false && c.mapped_type@ is Optional {
        one(
            "SQLA-H202"@,
            Severity::Hint,
            "Column `"@ + q
                + "` is typed Optional but declared nullable=False; the annotation and the column disagree"@,
            c.name_range,
        )
    } else {
        Seq::empty()
    }
}

pub open spec fn w203_c(q: Seq<char>, c: Column) -> Seq<DiagView> {
    match c.args.default {
        Some(d) => if mutable_default(d@) {
            one(
                "SQLA-W203"@,
                Severity::Warning,
                "Mutable default `"@ + d@ + "` on `"@ + q + "` is shared across rows"@
                    + "; wrap it in a callable, e.g. default=list"@,
                c.name_range,
            )
        } else {
            Seq::empty()
        },
        None => Seq::empty(),
    }
}

pub open spec fn w204_c(q: Seq<char>, c: Column) -> Seq<DiagView> {
    if c.args.default.is_some() && c.args.server_default.is_some() {
        one(
            "SQLA-W204"@,
            Severity::Warning,
            "Column `"@ + q + "` sets both default and server_default; they can diverge — keep one"@,
            c.name_range,
        )
    } else {
        Seq::empty()
    }
}

pub open spec fn h205_c(q: Seq<char>, c: Column) -> Seq<DiagView> {
    if naive_datetime(c.mapped_type) {
        one(
            "SQLA-H205"@,
            Severity::Hint,
            "DateTime column `"@ + q + "` is timezone-naive; pass timezone=True"@,
            c.name_range,
        )
    } else {
        Seq::empty()
    }
}

/// The lints on one column, in order H202, W203, W204, H205.
pub open spec fn col_lints(model: Seq<char>, c: Column) -> Seq<DiagView> {
    let q = dotted(model, c.name@);
    h202_c(q, c) + w203_c(q, c) + w204_c(q, c) + h205_c(q, c)
}

pub open spec fn col_lints_f(model: Seq<char>) -> spec_fn(Column) -> Seq<DiagView> {
    |c: Column| col_lints(model, c)
}

fn mentions_timezone_exec(args: &Vec<String>) -> (r: bool)
    ensures
        r == mentions_timezone(args@),
{
    let tz = to_chars("timezone");
    let mut i: usize = 0;
    while i < args.len()
        invariant
            i <= args@.len(),
            tz@ == "timezone"@,
            forall|j: int| 0 <= j < i ==> !contains(#[trigger] args@[j]@, "timezone"@),
        decreases args@.len() - i,
    {
        let a = to_chars(args[i].as_str());
        if crate::text::contains_exec(a.as_slice(), tz.as_slice()) {
            assert(contains(args@[i as int]@, "timezone"@));
            return true;
        }
        i = i + 1;
    }
    false
}

fn naive_datetime_exec(t: &MappedType) -> (r: bool)
    ensures
        r == naive_datetime(*t),
{
    match t {
        MappedType::DateTime => true,
        MappedType::Optional(inner) => matches!(**inner, MappedType::DateTime),
        MappedType::SqlType { name, args } => {
            let n = to_chars(name.as_str());
            let dt = to_chars("datetime");
            crate::text::eq_ignore_ascii_case_exec(n.as_slice(), dt.as_slice())
                && !mentions_timezone_exec(args)
        },
        _ => false,
    }
}

fn col_lints_exec(model: &str, c: &Column, out: &mut Vec<LspDiagnostic>)
    ensures
        dviews(final(out)@) == dviews(old(out)@) + col_lints(model@, *c),
{
    let ghost start = dviews(out@);
    let qs = concat3(model, ".", c.name.as_str());
    let q = qs.as_str();
    let ghost qv = dotted(model@, c.name@);
    assert(q@ == qv);
    if c.args.explicit_nullable_false && crate::f01::is_optional(&c.mapped_type) {
        let msg = concat3(
            "Column `",
            q,
            "` is typed Optional but declared nullable=False; the annotation and the column disagree",
        );
        push_diag(out, make_diag("SQLA-H202", Severity::Hint, msg, c.name_range));
    }
    let ghost s1 = dviews(out@);
    assert(s1 == start + h202_c(qv, *c));
    if let Some(d) = &c.args.default {
        if is_mutable_default(d.as_str()) {
            let mut msg = concat5("Mutable default `", d.as_str(), "` on `", q, "` is shared across rows");
            push_str(&mut msg, "; wrap it in a callable, e.g. default=list");
            push_diag(out, make_diag("SQLA-W203", Severity::Warning, msg, c.name_range));
        }
    }
    let ghost s2 = dviews(out@);
    assert(s2 == s1 + w203_c(qv, *c));
    if c.args.default.is_some() && c.args.server_default.is_some() {
        let msg = concat3(
            "Column `",
            q,
            "` sets both default and server_default; they can diverge — keep one",
        );
        push_diag(out, make_diag("SQLA-W204", Severity::Warning, msg, c.name_range));
    }
    let ghost s3 = dviews(out@);
    assert(s3 == s2 + w204_c(qv, *c));
    if naive_datetime_exec(&c.mapped_type) {
        let msg = concat3("DateTime column `", q, "` is timezone-naive; pass timezone=True");
        push_diag(out, make_diag("SQLA-H205", Severity::Hint, msg, c.name_range));
    }
    assert(dviews(out@) == s3 + h205_c(qv, *c));
    proof {
        assert(dviews(out@) =~= start + col_lints(model@, *c));
    }
}

fn run_col_lints(model: &Model, out: &mut Vec<LspDiagnostic>)
    ensures
        dviews(final(out)@) == dviews(old(out)@) + over(model.columns.seq(), col_lints_f(model.name@)),
{
    let ghost start = dviews(out@);
    let cols = model.columns.entries();
    let mut i: usize = 0;
    while i < cols.len()
        invariant
            i <= cols@.len(),
            cols@ == model.columns.seq(),
            dviews(out@) == start + over(cols@.take(i as int), col_lints_f(model.name@)),
        decreases cols@.len() - i,
    {
        proof {
            crate::f01::lemma_over_take(cols@, col_lints_f(model.name@), i as int);
        }
        col_lints_exec(model.name.as_str(), &cols[i].1, out);
        i = i + 1;
    }
    assert(cols@.take(cols@.len() as int) =~= cols@);
}

// ── W304 ─────────────────────────────────────────────────────────────────────

/// How many columns of `cols` link to `target`.
pub open spec fn link_count(cols: Seq<(String, Column)>, target: Seq<char>, table: Option<Seq<char>>) -> nat
    decreases cols.len(),
{
    if cols.len() == 0 {
        0
    } else {
        link_count(cols.drop_last(), target, table) + if links_to(cols.last().1, target, table) {
            1nat
        } else {
            0nat
        }
    }
}

/// W304: two or more foreign keys to the target with no `foreign_keys=`.
pub open spec fn w304_rel(m: Model, st: WorkspaceState, rel: Relationship) -> Seq<DiagView> {
    let target = rel.target_model@;
    let n = link_count(m.columns.seq(), target, target_table(st, target));
    if !rel.has_foreign_keys && target.len() > 0 && n >= 2 {
        one(
            "SQLA-W304"@,
            Severity::Warning,
            "Relationship `"@ + dotted(m.name@, rel.name@) + "` is ambiguous: `"@ + m.name@ + "` has "@
                + dec(n) + " FKs to `"@ + target + "`; add foreign_keys="@,
            rel.name_range,
        )
    } else {
        Seq::empty()
    }
}

pub open spec fn w304_f(m: Model, st: WorkspaceState) -> spec_fn(Relationship) -> Seq<DiagView> {
    |r: Relationship| w304_rel(m, st, r)
}

fn link_count_exec(cols: &Vec<(String, Column)>, target: &str, table: Option<&String>) -> (n: u64)
    ensures
        n == link_count(
            cols@,
            target@,
            match table {
                Some(t) => Some(t@),
                None => None,
            },
        ),
{
    let ghost tv = match table {
        Some(t) => Some(t@),
        None => None::<Seq<char>>,
    };
    let mut n: u64 = 0;
    let mut i: usize = 0;
    while i < cols.len()
        invariant
            i <= cols@.len(),
            tv == match table {
                Some(t) => Some(t@),
                None => None,
            },
            n == link_count(cols@.take(i as int), target@, tv),
            n <= i,
        decreases cols@.len() - i,
    {
        proof {
            assert(cols@.take(i + 1).drop_last() =~= cols@.take(i as int));
        }
        if links_to_exec(&cols[i].1, target, table) {
            n = n + 1;
        }
        i = i + 1;
    }
    assert(cols@.take(cols@.len() as int) =~= cols@);
    n
}

fn w304_exec(model: &Model, state: &WorkspaceState, rel: &Relationship, out: &mut Vec<LspDiagnostic>)
    ensures
        dviews(final(out)@) == dviews(old(out)@) + w304_rel(*model, *state, *rel),
{
    let target = rel.target_model.as_str();
    if rel.has_foreign_keys || target.is_empty() {
        return ;
    }
    let table = target_table_exec(state, target);
    let n = link_count_exec(model.columns.entries(), target, table);
    if n >= 2 {
        let q = concat3(model.name.as_str(), ".", rel.name.as_str());
        let mut msg = concat3("Relationship `", q.as_str(), "` is ambiguous: `");
        push_str(&mut msg, model.name.as_str());
        push_str(&mut msg, "` has ");
        push_dec(&mut msg, n);
        push_str(&mut msg, " FKs to `");
        push_str(&mut msg, target);
        push_str(&mut msg, "`; add foreign_keys=");
        push_diag(out, make_diag("SQLA-W304", Severity::Warning, msg, rel.name_range));
    }
}

// ── Relationship lints (W411, W413, H414, H415), W501 ────────────────────────

pub open spec fn w411_r(m: Model, rel: Relationship) -> Seq<DiagView> {
    if !rel.is_list && rel.target_model@ == m.name@ && !rel.remote_side {
        one(
            "SQLA-W411"@,
            Severity::Warning,
            "Self-referential relationship `"@ + dotted(m.name@, rel.name@)
                + "` needs remote_side= to orient the self-join"@,
            rel.name_range,
        )
    } else {
        Seq::empty()
    }
}

/// The counterpart named by `back_populates` on the indexed target model.
pub open spec fn counterpart(st: WorkspaceState, rel: Relationship) -> Option<Relationship> {
    match rel.back_populates {
        Some(bp) => match lookup_model(st, rel.target_model@) {
            Some(tm) => if tm.relationships@.contains_key(bp@) {
                Some(tm.relationships@[bp@])
            } else {
                None
            },
            None => None,
        },
        None => None,
    }
}

pub open spec fn w413_r(m: Model, st: WorkspaceState, rel: Relationship) -> Seq<DiagView> {
    if !rel.is_list && rel.uselist.is_none() {
        match counterpart(st, rel) {
            Some(tr) => if tr.is_list && tr.secondary.is_some() {
                let t = rel.target_model@;
                one(
                    "SQLA-W413"@,
                    Severity::Warning,
                    "Relationship `"@ + dotted(m.name@, rel.name@) + "` is typed as a scalar but `"@
                        + dotted(t, rel.back_populates->0@)
                        + "` is a many-to-many collection; use Mapped[list["@ + t + "]]"@,
                    rel.name_range,
                )
            } else {
                Seq::empty()
            },
            None => Seq::empty(),
        }
    } else {
        Seq::empty()
    }
}

/// The `lazy=` loading strategy, `select` when absent.
pub open spec fn lazy_of(rel: Relationship) -> Seq<char> {
    match rel.lazy {
        Some(l) => l@,
        None => "select"@,
    }
}

pub open spec fn h414_r(m: Model, st: WorkspaceState, rel: Relationship) -> Seq<DiagView> {
    if rel.is_list {
        Seq::empty()
    } else if counterpart(st, rel) is Some && !counterpart(st, rel)->0.is_list {
        Seq::empty()
    } else if lazy_of(rel) == "select"@ {
        one(
            "SQLA-H414"@,
            Severity::Hint,
            "Scalar relationship `"@ + dotted(m.name@, rel.name@)
                + "` uses lazy=\"select\" (N+1 risk); consider lazy=\"joined\""@,
            rel.name_range,
        )
    } else {
        Seq::empty()
    }
}

pub open spec fn h415_r(m: Model, rel: Relationship) -> Seq<DiagView> {
    if rel.is_list && rel.lazy is Some && rel.lazy->0@ == "joined"@ {
        one(
            "SQLA-H415"@,
            Severity::Hint,
            "Collection relationship `"@ + dotted(m.name@, rel.name@)
                + "` uses lazy=\"joined\" (row blow-up); prefer lazy=\"selectin\""@,
            rel.name_range,
        )
    } else {
        Seq::empty()
    }
}

/// The lints on one relationship, in order W411, W413, H414, H415.
pub open spec fn rel_lints(m: Model, st: WorkspaceState, rel: Relationship) -> Seq<DiagView> {
    w411_r(m, rel) + w413_r(m, st, rel) + h414_r(m, st, rel) + h415_r(m, rel)
}

pub open spec fn rel_lints_f(m: Model, st: WorkspaceState) -> spec_fn(Relationship) -> Seq<DiagView> {
    |r: Relationship| rel_lints(m, st, r)
}

/// W501: a legacy `backref=`; the finding is tagged deprecated.
pub open spec fn w501_r(m: Model, rel: Relationship) -> Seq<DiagView> {
    if rel.backref.is_some() {
        seq![
            dv_deprecated(
                "SQLA-W501"@,
                Severity::Warning,
                "`"@ + dotted(m.name@, rel.name@)
                    + "` uses `backref` (legacy); declare an explicit back_populates pair instead"@,
                rel.name_range,
            ),
        ]
    } else {
        Seq::empty()
    }
}

pub open spec fn w501_f(m: Model) -> spec_fn(Relationship) -> Seq<DiagView> {
    |r: Relationship| w501_r(m, r)
}

fn counterpart_exec<'a>(state: &'a WorkspaceState, rel: &Relationship) -> (r: Option<&'a Relationship>)
    ensures
        match r {
            Some(x) => counterpart(*state, *rel) == Some(*x),
            None => counterpart(*state, *rel) is None,
        },
{
    match &rel.back_populates {
        None => None,
        Some(bp) => match lookup_model_exec(state, rel.target_model.as_str()) {
            None => None,
            Some(tm) => tm.relationships.get(bp.as_str()),
        },
    }
}

fn rel_lints_exec(model: &Model, state: &WorkspaceState, rel: &Relationship, out: &mut Vec<LspDiagnostic>)
    ensures
        dviews(final(out)@) == dviews(old(out)@) + rel_lints(*model, *state, *rel),
{
    let ghost start = dviews(out@);
    let q = concat3(model.name.as_str(), ".", rel.name.as_str());
    let q = q.as_str();
    if !rel.is_list && str_eq(rel.target_model.as_str(), model.name.as_str()) && !rel.remote_side {
        let msg = concat3("Self-referential relationship `", q, "` needs remote_side= to orient the self-join");
        push_diag(out, make_diag("SQLA-W411", Severity::Warning, msg, rel.name_range));
    }
    let ghost s1 = dviews(out@);
    assert(s1 == start + w411_r(*model, *rel));
    let cp = counterpart_exec(state, rel);
    if !rel.is_list && rel.uselist.is_none() {
        if let Some(tr) = cp {
            if tr.is_list && tr.secondary.is_some() {
                let t = rel.target_model.as_str();
                let bp = match &rel.back_populates {
                    Some(b) => b.as_str(),
                    None => "",
                };
                let tb = concat3(t, ".", bp);
                let mut msg = concat3("Relationship `", q, "` is typed as a scalar but `");
                push_str(&mut msg, tb.as_str());
                push_str(&mut msg, "` is a many-to-many collection; use Mapped[list[");
                push_str(&mut msg, t);
                push_str(&mut msg, "]]");
                push_diag(out, make_diag("SQLA-W413", Severity::Warning, msg, rel.name_range));
            }
        }
    }
    let ghost s2 = dviews(out@);
    assert(s2 == s1 + w413_r(*model, *state, *rel));
    let skip = match cp {
        Some(tr) => !tr.is_list,
        None => false,
    };
    if !rel.is_list && !skip {
        let is_select = match &rel.lazy {
            Some(l) => str_eq(l.as_str(), "select"),
            None => true,
        };
        if is_select {
            let msg = concat3(
                "Scalar relationship `",
                q,
                "` uses lazy=\"select\" (N+1 risk); consider lazy=\"joined\"",
            );
            push_diag(out, make_diag("SQLA-H414", Severity::Hint, msg, rel.name_range));
        }
    }
    let ghost s3 = dviews(out@);
    assert(s3 == s2 + h414_r(*model, *state, *rel));
    if rel.is_list {
        if let Some(l) = &rel.lazy {
            if str_eq(l.as_str(), "joined") {
                let msg = concat3(
                    "Collection relationship `",
                    q,
                    "` uses lazy=\"joined\" (row blow-up); prefer lazy=\"selectin\"",
                );
                push_diag(out, make_diag("SQLA-H415", Severity::Hint, msg, rel.name_range));
            }
        }
    }
    assert(dviews(out@) == s3 + h415_r(*model, *rel));
    proof {
        assert(dviews(out@) =~= start + rel_lints(*model, *state, *rel));
    }
}

/// Which per-relationship pass to run.
#[derive(Clone, Copy, PartialEq, Eq, Structural)]
pub enum RelPass {
    W304,
    Lints,
    W501,
}

pub open spec fn rel_pass_f(p: RelPass, m: Model, st: WorkspaceState) -> spec_fn(Relationship) -> Seq<DiagView> {
    match p {
        RelPass::W304 => w304_f(m, st),
        RelPass::Lints => rel_lints_f(m, st),
        RelPass::W501 => w501_f(m),
    }
}

fn rel_pass_exec(p: RelPass, model: &Model, state: &WorkspaceState, rel: &Relationship, out: &mut Vec<LspDiagnostic>)
    ensures
        dviews(final(out)@) == dviews(old(out)@) + rel_pass_f(p, *model, *state)(*rel),
{
    match p {
        RelPass::W304 => w304_exec(model, state, rel, out),
        RelPass::Lints => rel_lints_exec(model, state, rel, out),
        RelPass::W501 => {
            if rel.backref.is_some() {
                let q = concat3(model.name.as_str(), ".", rel.name.as_str());
                let mut msg = concat2("`", q.as_str());
                push_str(
                    &mut msg,
                    "` uses `backref` (legacy); declare an explicit back_populates pair instead",
                );
                push_diag(
                    out,
                    make_diag_deprecated("SQLA-W501", Severity::Warning, msg, rel.name_range),
                );
            }
        },
    }
}

fn run_rel_pass(p: RelPass, model: &Model, state: &WorkspaceState, out: &mut Vec<LspDiagnostic>)
    ensures
        dviews(final(out)@) == dviews(old(out)@) + over(
            model.relationships.seq(),
            rel_pass_f(p, *model, *state),
        ),
{
    let ghost start = dviews(out@);
    let rels = model.relationships.entries();
    let mut i: usize = 0;
    while i < rels.len()
        invariant
            i <= rels@.len(),
            rels@ == model.relationships.seq(),
            dviews(out@) == start + over(rels@.take(i as int), rel_pass_f(p, *model, *state)),
        decreases rels@.len() - i,
    {
        proof {
            crate::f01::lemma_over_take(rels@, rel_pass_f(p, *model, *state), i as int);
        }
        rel_pass_exec(p, model, state, &rels[i].1, out);
        i = i + 1;
    }
    assert(rels@.take(rels@.len() as int) =~= rels@);
}

// ── Entry point ──────────────────────────────────────────────────────────────

/// Every lint on one model, in the order the lints run.
pub open spec fn model_lints(st: WorkspaceState, m: Model) -> Seq<DiagView> {
    w104_spec(m) + h106_spec(m.table_args@) + over(m.columns.seq(), col_lints_f(m.name@)) + over(
        m.relationships.seq(),
        w304_f(m, st),
    ) + over(m.relationships.seq(), rel_lints_f(m, st)) + over(m.relationships.seq(), w501_f(m))
}

pub open spec fn models_lints(st: WorkspaceState, models: Seq<Model>) -> Seq<DiagView>
    decreases models.len(),
{
    if models.len() == 0 {
        Seq::empty()
    } else {
        models_lints(st, models.drop_last()) + model_lints(st, models.last())
    }
}

fn lint_model(model: &Model, state: &WorkspaceState) -> (r: Vec<LspDiagnostic>)
    ensures
        dviews(r@) == model_lints(*state, *model),
{
    let mut out = w104(model);
    append_diags(&mut out, h106(model));
    run_col_lints(model, &mut out);
    run_rel_pass(RelPass::W304, model, state, &mut out);
    run_rel_pass(RelPass::Lints, model, state, &mut out);
    run_rel_pass(RelPass::W501, model, state, &mut out);
    out
}

/// Run every best-practice lint on the models of one file, model by model.
pub fn check_file(models: &[Model], state: &WorkspaceState) -> (r: Vec<LspDiagnostic>)
    ensures
        dviews(r@) == models_lints(*state, models@),
{
    let mut out: Vec<LspDiagnostic> = Vec::new();
    let mut i: usize = 0;
    while i < models.len()
        invariant
            i <= models@.len(),
            dviews(out@) == models_lints(*state, models@.take(i as int)),
        decreases models@.len() - i,
    {
        proof {
            assert(models@.take(i + 1).drop_last() =~= models@.take(i as int));
        }
        append_diags(&mut out, lint_model(&models[i], state));
        i = i + 1;
    }
    assert(models@.take(models@.len() as int) =~= models@);
    out
}

} // verus!
