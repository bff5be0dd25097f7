//! Alembic migration rules (SQLA-7xx) over the migration index: broken
//! chains, multiple heads, unknown tables and unnamed constraints.
use vstd::prelude::*;

use crate::alembic::{DownRevision, MigrationFile, OpCall};
use crate::diagnostics::{dviews, make_diag, DiagView, LspDiagnostic};
use crate::f01::{append_diags, one, push_diag, push_string, range_or, sviews};
use crate::sort::{sort_strings, sorted_strs};
use crate::state::WorkspaceState;
use crate::text::{concat2, concat3, push_str, str_eq, to_owned};
use crate::types::{join, push_joined, Range, Severity};

verus! {

/// The all-zero range, for findings with no better anchor.
pub fn zero_range() -> (r: Range)
    ensures
        r == (Range { start_line: 0, start_col: 0, end_line: 0, end_col: 0 }),
{
    Range { start_line: 0, start_col: 0, end_line: 0, end_col: 0 }
}

pub open spec fn zero() -> Range {
    Range { start_line: 0, start_col: 0, end_line: 0, end_col: 0 }
}

// ── Heads ────────────────────────────────────────────────────────────────────

/// The migration names `r` as a parent.
pub open spec fn names_parent(mf: MigrationFile, r: Seq<char>) -> bool {
    match mf.down_revision {
        DownRevision::Root => false,
        DownRevision::Single(x) => x@ == r,
        DownRevision::Multiple(v) => sviews(v@).contains(r),
    }
}

/// Some indexed migration other than one declaring `r` itself names `r` as
/// a parent.
pub open spec fn is_parent(st: WorkspaceState, r: Seq<char>) -> bool {
    exists|i: int|
        0 <= i < st.migration_files.seq().len() && names_parent(
            #[trigger] st.migration_files.seq()[i].1,
            r,
        ) && !(st.migration_files.seq()[i].1.revision is Some && st.migration_files.seq()[i].1.revision->0@
            == r)
}

/// Some migration stored under a URI other than `owner` names `r` as a
/// parent.
pub open spec fn is_parent_elsewhere(st: WorkspaceState, r: Seq<char>, owner: Seq<char>) -> bool {
    exists|i: int|
        0 <= i < st.migration_files.seq().len() && names_parent(
            #[trigger] st.migration_files.seq()[i].1,
            r,
        ) && st.migration_files.seq()[i].0@ != owner
}

/// The indexed revisions (each paired with the URI of the file that defines
/// it) that no other file names as a parent, in index order.
pub open spec fn heads_of(revs: Seq<(String, String)>, st: WorkspaceState) -> Seq<Seq<char>>
    decreases revs.len(),
{
    if revs.len() == 0 {
        Seq::empty()
    } else {
        let rest = heads_of(revs.drop_last(), st);
        if is_parent_elsewhere(st, revs.last().0@, revs.last().1@) {
            rest
        } else {
            rest.push(revs.last().0@)
        }
    }
}

/// No string occurs twice.
pub open spec fn distinct_strs(v: Seq<Seq<char>>) -> bool {
    forall|i: int, j: int| 0 <= i < j < v.len() ==> v[i] != v[j]
}

fn names_parent_exec(mf: &MigrationFile, r: &str) -> (b: bool)
    ensures
        b == names_parent(*mf, r@),
{
    match &mf.down_revision {
        DownRevision::Root => false,
        DownRevision::Single(x) => str_eq(x.as_str(), r),
        DownRevision::Multiple(v) => contains_str(v, r),
    }
}

fn declares(mf: &MigrationFile, r: &str) -> (b: bool)
    ensures
        b == (mf.revision is Some && mf.revision->0@ == r@),
{
    match &mf.revision {
        Some(x) => str_eq(x.as_str(), r),
        None => false,
    }
}

pub(crate) fn is_parent_exec(state: &WorkspaceState, r: &str) -> (b: bool)
    ensures
        b == is_parent(*state, r@),
{
    let files = state.migration_files.entries();
    let mut i: usize = 0;
    while i < files.len()
        invariant
            i <= files@.len(),
            files@ == state.migration_files.seq(),
            forall|j: int|
                0 <= j < i ==> !(names_parent(#[trigger] files@[j].1, r@) && !(files@[j].1.revision is Some
                    && files@[j].1.revision->0@ == r@)),
        decreases files@.len() - i,
    {
        if names_parent_exec(&files[i].1, r) && !declares(&files[i].1, r) {
            assert(names_parent(files@[i as int].1, r@));
            return true;
        }
        i = i + 1;
    }
    false
}

fn is_parent_elsewhere_exec(state: &WorkspaceState, r: &str, owner: &str) -> (b: bool)
    ensures
        b == is_parent_elsewhere(*state, r@, owner@),
{
    let files = state.migration_files.entries();
    let mut i: usize = 0;
    while i < files.len()
        invariant
            i <= files@.len(),
            files@ == state.migration_files.seq(),
            forall|j: int|
                0 <= j < i ==> !(names_parent(#[trigger] files@[j].1, r@) && files@[j].0@ != owner@),
        decreases files@.len() - i,
    {
        if names_parent_exec(&files[i].1, r) && !str_eq(files[i].0.as_str(), owner) {
            assert(names_parent(files@[i as int].1, r@));
            return true;
        }
        i = i + 1;
    }
    false
}

proof fn lemma_heads_distinct(revs: Seq<(String, String)>, st: WorkspaceState)
    requires
        crate::strmap::keys_distinct(revs),
    ensures
        distinct_strs(heads_of(revs, st)),
        forall|k: int|
            0 <= k < heads_of(revs, st).len() ==> exists|j: int|
                0 <= j < revs.len() && (#[trigger] heads_of(revs, st)[k]) == revs[j].0@,
    decreases revs.len(),
{
    if revs.len() > 0 {
        let d = revs.drop_last();
        assert(crate::strmap::keys_distinct(d));
        lemma_heads_distinct(d, st);
        let h = heads_of(d, st);
        assert forall|k: int| 0 <= k < h.len() implies #[trigger] h[k] != revs.last().0@ by {
            let j = choose|j: int| 0 <= j < d.len() && h[k] == d[j].0@;
            assert(revs[j] == d[j]);
        }
        assert forall|k: int| 0 <= k < heads_of(revs, st).len() implies exists|j: int|
            0 <= j < revs.len() && (#[trigger] heads_of(revs, st)[k]) == revs[j].0@ by {
            if k < h.len() {
                let j = choose|j: int| 0 <= j < d.len() && h[k] == d[j].0@;
                assert(revs[j] == d[j]);
            } else {
                assert(heads_of(revs, st)[k] == revs[revs.len() - 1].0@);
            }
        }
    }
}

/// The head revisions: every indexed revision that no migration file other
/// than its own names as a parent, each once, in index order.
pub fn compute_head_set(state: &WorkspaceState) -> (r: Vec<String>)
    ensures
        sviews(r@) == heads_of(state.revision_index.seq(), *state),
        distinct_strs(sviews(r@)),
{
    let revs = state.revision_index.entries();
    let mut out: Vec<String> = Vec::new();
    let mut i: usize = 0;
    while i < revs.len()
        invariant
            i <= revs@.len(),
            revs@ == state.revision_index.seq(),
            sviews(out@) == heads_of(revs@.take(i as int), *state),
        decreases revs@.len() - i,
    {
        proof {
            assert(revs@.take(i + 1).drop_last() =~= revs@.take(i as int));
        }
        if !is_parent_elsewhere_exec(state, revs[i].0.as_str(), revs[i].1.as_str()) {
            push_string(&mut out, revs[i].0.clone());
        }
        i = i + 1;
    }
    proof {
        assert(revs@.take(revs@.len() as int) =~= revs@);
        lemma_heads_distinct(revs@, *state);
    }
    out
}

// ── W701 ─────────────────────────────────────────────────────────────────────

/// W701 for each listed parent missing from the revision index.
pub open spec fn w701_revs(revs: Seq<String>, st: WorkspaceState, r: Range) -> Seq<DiagView>
    decreases revs.len(),
{
    if revs.len() == 0 {
        Seq::empty()
    } else {
        w701_revs(revs.drop_last(), st, r) + w701_one(revs.last()@, st, r)
    }
}

pub open spec fn w701_one(rev: Seq<char>, st: WorkspaceState, r: Range) -> Seq<DiagView> {
    if !st.revision_index@.contains_key(rev) {
        one(
            "SQLA-W701"@,
            Severity::Warning,
            "down_revision `"@ + rev + "` not found in migration chain"@,
            r,
        )
    } else {
        Seq::empty()
    }
}

/// W701: a parent revision that no indexed migration defines.
pub open spec fn w701_spec(mf: MigrationFile, st: WorkspaceState) -> Seq<DiagView> {
    let r = range_of(mf.down_revision_range);
    match mf.down_revision {
        DownRevision::Root => Seq::empty(),
        DownRevision::Single(x) => w701_one(x@, st, r),
        DownRevision::Multiple(v) => w701_revs(v@, st, r),
    }
}

/// A recorded range, or the zero range.
pub open spec fn range_of(r: Option<Range>) -> Range {
    match r {
        Some(x) => x,
        None => zero(),
    }
}

fn w701_one_exec(rev: &str, state: &WorkspaceState, r: Range, out: &mut Vec<LspDiagnostic>)
    ensures
        dviews(final(out)@) == dviews(old(out)@) + w701_one(rev@, *state, r),
{
    if !state.revision_index.contains_key(rev) {
        let msg = concat3("down_revision `", rev, "` not found in migration chain");
        push_diag(out, make_diag("SQLA-W701", Severity::Warning, msg, r));
    }
}

fn w701(mf: &MigrationFile, state: &WorkspaceState) -> (out: Vec<LspDiagnostic>)
    ensures
        dviews(out@) == w701_spec(*mf, *state),
{
    let r = range_or(mf.down_revision_range, zero_range());
    let mut out: Vec<LspDiagnostic> = Vec::new();
    match &mf.down_revision {
        DownRevision::Root => {},
        DownRevision::Single(x) => w701_one_exec(x.as_str(), state, r, &mut out),
        DownRevision::Multiple(v) => {
            let mut i: usize = 0;
            while i < v.len()
                invariant
                    i <= v@.len(),
                    dviews(out@) == w701_revs(v@.take(i as int), *state, r),
                decreases v@.len() - i,
            {
                proof {
                    assert(v@.take(i + 1).drop_last() =~= v@.take(i as int));
                }
                w701_one_exec(v[i].as_str(), state, r, &mut out);
                i = i + 1;
            }
            assert(v@.take(v@.len() as int) =~= v@);
        },
    }
    out
}

// ── W702 ─────────────────────────────────────────────────────────────────────

/// W702: this migration is one of two or more heads; the finding lists every
/// head in sorted order.
pub open spec fn w702_spec(mf: MigrationFile, heads: Seq<Seq<char>>) -> Seq<DiagView> {
    match mf.revision {
        Some(rev) => if heads.len() >= 2 && heads.contains(rev@) {
            one(
                "SQLA-W702"@,
                Severity::Warning,
                "Multiple head revisions detected: "@ + join(sorted_strs(heads), ", "@),
                range_of(mf.revision_range),
            )
        } else {
            Seq::empty()
        },
        None => Seq::empty(),
    }
}

fn contains_str(v: &Vec<String>, s: &str) -> (r: bool)
    ensures
        r == sviews(v@).contains(s@),
{
    let mut i: usize = 0;
    while i < v.len()
        invariant
            i <= v@.len(),
            forall|j: int| 0 <= j < i ==> v@[j]@ != s@,
        decreases v@.len() - i,
    {
        if str_eq(v[i].as_str(), s) {
            assert(sviews(v@)[i as int] == s@);
            return true;
        }
        i = i + 1;
    }
    proof {
        if sviews(v@).contains(s@) {
            let k = choose|k: int| 0 <= k < sviews(v@).len() && sviews(v@)[k] == s@;
            assert(v@[k]@ == s@);
        }
    }
    false
}

fn w702(mf: &MigrationFile, heads: &Vec<String>) -> (out: Vec<LspDiagnostic>)
    ensures
        dviews(out@) == w702_spec(*mf, sviews(heads@)),
{
    let mut out: Vec<LspDiagnostic> = Vec::new();
    if heads.len() < 2 {
        return out;
    }
    match &mf.revision {
        None => out,
        Some(rev) => {
            if !contains_str(heads, rev.as_str()) {
                return out;
            }
            let sorted = sort_strings(heads);
            let mut msg = to_owned("Multiple head revisions detected: ");
            push_joined(&mut msg, &sorted, ", ");
            proof {
                assert(crate::types::views(sorted@) =~= sorted@.map_values(|s: String| s@));
                assert(sviews(heads@) =~= heads@.map_values(|s: String| s@));
            }
            let r = range_or(mf.revision_range, zero_range());
            push_diag(&mut out, make_diag("SQLA-W702", Severity::Warning, msg, r));
            out
        },
    }
}

// ── H703, W704 ───────────────────────────────────────────────────────────────

/// Tables this migration itself creates with `op.create_table`.
pub open spec fn creates_table(ops: Seq<OpCall>, t: Seq<char>) -> bool {
    exists|i: int|
        0 <= i < ops.len() && (#[trigger] ops[i]).operation@ == "create_table"@
            && ops[i].table_name is Some && ops[i].table_name->0.name@ == t
}

pub open spec fn h703_op(op: OpCall, all: Seq<OpCall>, st: WorkspaceState) -> Seq<DiagView> {
    match op.table_name {
        Some(tref) => if op.operation@ != "create_table"@ && !creates_table(all, tref.name@)
            && !st.table_index@.contains_key(tref.name@) {
            one(
                "SQLA-H703"@,
                Severity::Hint,
                "Table `"@ + tref.name@ + "` not found in indexed models"@,
                tref.range,
            )
        } else {
            Seq::empty()
        },
        None => Seq::empty(),
    }
}

/// H703: an `op.*` call names a table that no model owns and this migration
/// does not create.
pub open spec fn h703_spec(ops: Seq<OpCall>, all: Seq<OpCall>, st: WorkspaceState) -> Seq<DiagView>
    decreases ops.len(),
{
    if ops.len() == 0 {
        Seq::empty()
    } else {
        h703_spec(ops.drop_last(), all, st) + h703_op(ops.last(), all, st)
    }
}

fn creates_table_exec(ops: &Vec<OpCall>, t: &str) -> (r: bool)
    ensures
        r == creates_table(ops@, t@),
{
    let mut i: usize = 0;
    while i < ops.len()
        invariant
            i <= ops@.len(),
            forall|j: int|
                0 <= j < i ==> !((#[trigger] ops@[j]).operation@ == "create_table"@
                    && ops@[j].table_name is Some && ops@[j].table_name->0.name@ == t@),
        decreases ops@.len() - i,
    {
        let op = &ops[i];
        if str_eq(op.operation.as_str(), "create_table") {
            if let Some(tr) = &op.table_name {
                if str_eq(tr.name.as_str(), t) {
                    assert(ops@[i as int].operation@ == "create_table"@);
                    return true;
                }
            }
        }
        i = i + 1;
    }
    false
}

fn h703(mf: &MigrationFile, state: &WorkspaceState) -> (out: Vec<LspDiagnostic>)
    ensures
        dviews(out@) == h703_spec(mf.op_calls@, mf.op_calls@, *state),
{
    let ops = &mf.op_calls;
    let mut out: Vec<LspDiagnostic> = Vec::new();
    let mut i: usize = 0;
    while i < ops.len()
        invariant
            i <= ops@.len(),
            ops@ == mf.op_calls@,
            dviews(out@) == h703_spec(ops@.take(i as int), ops@, *state),
        decreases ops@.len() - i,
    {
        proof {
            assert(ops@.take(i + 1).drop_last() =~= ops@.take(i as int));
        }
        let op = &ops[i];
        if let Some(tref) = &op.table_name {
            if !str_eq(op.operation.as_str(), "create_table") && !creates_table_exec(
                ops,
                tref.name.as_str(),
            ) && !state.table_index.contains_key(tref.name.as_str()) {
                let msg = concat3("Table `", tref.name.as_str(), "` not found in indexed models");
                push_diag(&mut out, make_diag("SQLA-H703", Severity::Hint, msg, tref.range));
            }
        }
        i = i + 1;
    }
    assert(ops@.take(ops@.len() as int) =~= ops@);
    out
}

/// W704: a constraint operation that passes `None` (or nothing) as its name.
pub open spec fn w704_spec(ops: Seq<OpCall>) -> Seq<DiagView>
    decreases ops.len(),
{
    if ops.len() == 0 {
        Seq::empty()
    } else {
        let op = ops.last();
        w704_spec(ops.drop_last()) + match op.null_constraint_name_range {
            Some(r) => one(
                "SQLA-W704"@,
                Severity::Warning,
                "op."@ + op.operation@
                    + " uses None as the constraint name; name the constraint explicitly (or rely on a configured naming_convention) so the migration is reproducible and targetable"@,
                r,
            ),
            None => Seq::<DiagView>::empty(),
        }
    }
}

fn w704(mf: &MigrationFile) -> (out: Vec<LspDiagnostic>)
    ensures
        dviews(out@) == w704_spec(mf.op_calls@),
{
    let ops = &mf.op_calls;
    let mut out: Vec<LspDiagnostic> = Vec::new();
    let mut i: usize = 0;
    while i < ops.len()
        invariant
            i <= ops@.len(),
            ops@ == mf.op_calls@,
            dviews(out@) == w704_spec(ops@.take(i as int)),
        decreases ops@.len() - i,
    {
        proof {
            assert(ops@.take(i + 1).drop_last() =~= ops@.take(i as int));
        }
        let op = &ops[i];
        if let Some(r) = op.null_constraint_name_range {
            let mut msg = concat2("op.", op.operation.as_str());
            push_str(
                &mut msg,
                " uses None as the constraint name; name the constraint explicitly (or rely on a configured naming_convention) so the migration is reproducible and targetable",
            );
            push_diag(&mut out, make_diag("SQLA-W704", Severity::Warning, msg, r));
        }
        i = i + 1;
    }
    assert(ops@.take(ops@.len() as int) =~= ops@);
    out
}

// ── Entry point ──────────────────────────────────────────────────────────────

/// Every Alembic rule on one migration, in order W701, W702, H703, W704.
pub open spec fn migration_findings(mf: MigrationFile, st: WorkspaceState, heads: Seq<Seq<char>>) -> Seq<
    DiagView,
> {
    w701_spec(mf, st) + w702_spec(mf, heads) + h703_spec(mf.op_calls@, mf.op_calls@, st) + w704_spec(
        mf.op_calls@,
    )
}

/// Run the Alembic rules on one migration file; `heads` is the head set from
/// `compute_head_set`, each revision once.
pub fn check_migration(mf: &MigrationFile, state: &WorkspaceState, heads: &Vec<String>) -> (r: Vec<
    LspDiagnostic,
>)
    requires
        distinct_strs(sviews(heads@)),
    ensures
        dviews(r@) == migration_findings(*mf, *state, sviews(heads@)),
{
    let mut out = w701(mf, state);
    append_diags(&mut out, w702(mf, heads));
    append_diags(&mut out, h703(mf, state));
    append_diags(&mut out, w704(mf));
    out
}

} // verus!
