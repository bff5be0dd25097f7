//! `stats`: what the workspace index holds, counted, and the text report.
use vstd::prelude::*;

use crate::alembic_diag::{is_parent, is_parent_exec};
use crate::diagnostics::LspDiagnostic;
use crate::f01::sviews;
use crate::hover::{has_fk, names_where};
use crate::rename::{cat_map, lemma_cat_map_take};
use crate::report::{push_spaces, spaces};
use crate::sort::{sort_strings, sorted_strs};
use crate::state::WorkspaceState;
use crate::text::{dec, push_dec, push_str, str_eq, to_owned};
use crate::types::{join, push_joined, Column, Model};

verus! {

/// The workspace's numbers as `stats` reports them.
pub struct WorkspaceStats {
    pub files_checked: usize,
    pub models: usize,
    pub columns: usize,
    pub relationships: usize,
    pub foreign_keys: usize,
    pub migration_heads: usize,
    /// Each finding code with how often it occurs, in code order.
    pub findings_by_code: Vec<(String, usize)>,
    pub total_findings: usize,
    /// The indexed model names, sorted.
    pub model_names: Vec<String>,
}

/// The numbers of `WorkspaceStats` as values.
pub struct StatsV {
    pub files_checked: nat,
    pub models: nat,
    pub columns: nat,
    pub relationships: nat,
    pub foreign_keys: nat,
    pub migration_heads: nat,
    pub findings_by_code: Seq<(Seq<char>, nat)>,
    pub total_findings: nat,
    pub model_names: Seq<Seq<char>>,
}

impl View for WorkspaceStats {
    type V = StatsV;

    open spec fn view(&self) -> StatsV {
        StatsV {
            files_checked: self.files_checked as nat,
            models: self.models as nat,
            columns: self.columns as nat,
            relationships: self.relationships as nat,
            foreign_keys: self.foreign_keys as nat,
            migration_heads: self.migration_heads as nat,
            findings_by_code: count_views(self.findings_by_code@),
            total_findings: self.total_findings as nat,
            model_names: sviews(self.model_names@),
        }
    }
}

/// What `stats` reports of a workspace index.
pub open spec fn stats_of(st: WorkspaceState) -> StatsV {
    StatsV {
        files_checked: st.file_sources@.dom().len(),
        models: st.model_index@.dom().len(),
        columns: count_cols(all_models(st)),
        relationships: count_rels(all_models(st)),
        foreign_keys: count_fks(all_models(st)),
        migration_heads: head_revisions(st).len(),
        findings_by_code: code_counts(st),
        total_findings: all_codes(st).len(),
        model_names: sorted_strs(index_names(st)),
    }
}

/// Every indexed model, file by file.
pub open spec fn all_models(st: WorkspaceState) -> Seq<Model> {
    cat_map(st.file_models.seq(), |e: (String, Vec<Model>)| e.1@)
}

/// Total columns, relationships and foreign keys of a list of models.
pub open spec fn count_cols(ms: Seq<Model>) -> nat
    decreases ms.len(),
{
    if ms.len() == 0 {
        0
    } else {
        count_cols(ms.drop_last()) + ms.last().columns.seq().len()
    }
}

pub open spec fn count_rels(ms: Seq<Model>) -> nat
    decreases ms.len(),
{
    if ms.len() == 0 {
        0
    } else {
        count_rels(ms.drop_last()) + ms.last().relationships.seq().len()
    }
}

pub open spec fn count_fks(ms: Seq<Model>) -> nat
    decreases ms.len(),
{
    if ms.len() == 0 {
        0
    } else {
        count_fks(ms.drop_last()) + names_where(ms.last().columns.seq(), has_fk()).len()
    }
}

/// The totals fit the machine's counters.
pub open spec fn totals_fit(st: WorkspaceState) -> bool {
    &&& count_cols(all_models(st)) <= usize::MAX
    &&& count_rels(all_models(st)) <= usize::MAX
    &&& count_fks(all_models(st)) <= usize::MAX
}

/// The revisions the indexed migrations declare.
pub open spec fn revisions(st: WorkspaceState) -> Set<Seq<char>> {
    Set::new(
        |r: Seq<char>|
            exists|i: int|
                0 <= i < st.migration_files.seq().len() && (
                #[trigger] st.migration_files.seq()[i]).1.revision is Some
                    && st.migration_files.seq()[i].1.revision->0@ == r,
    )
}

/// The migration heads: declared revisions no other migration names as a
/// parent.
pub open spec fn head_revisions(st: WorkspaceState) -> Set<Seq<char>> {
    revisions(st).filter(|r: Seq<char>| !is_parent(st, r))
}

/// The code of every published diagnostic, file by file.
pub open spec fn all_codes(st: WorkspaceState) -> Seq<Seq<char>> {
    cat_map(
        st.diagnostics.seq(),
        |e: (String, Vec<LspDiagnostic>)| e.1@.map_values(|d: LspDiagnostic| d.code@),
    )
}

/// Runs of equal neighbours, each with its length.
pub open spec fn runs(s: Seq<Seq<char>>) -> Seq<(Seq<char>, nat)>
    decreases s.len(),
{
    if s.len() == 0 {
        Seq::empty()
    } else {
        let r = runs(s.drop_last());
        if r.len() > 0 && r.last().0 == s.last() {
            r.update(r.len() - 1, (s.last(), r.last().1 + 1))
        } else {
            r.push((s.last(), 1nat))
        }
    }
}

/// Each code with its number of findings, in code order.
pub open spec fn code_counts(st: WorkspaceState) -> Seq<(Seq<char>, nat)> {
    runs(sorted_strs(all_codes(st)))
}

pub open spec fn count_views(v: Seq<(String, usize)>) -> Seq<(Seq<char>, nat)> {
    v.map_values(|p: (String, usize)| (p.0@, p.1 as nat))
}

/// The model index's names.
pub open spec fn index_names(st: WorkspaceState) -> Seq<Seq<char>> {
    st.model_index.seq().map_values(|e: (String, crate::types::ModelLocation)| e.0@)
}

fn model_totals(state: &WorkspaceState) -> (r: (usize, usize, usize))
    requires
        totals_fit(*state),
    ensures
        r.0 == count_cols(all_models(*state)),
        r.1 == count_rels(all_models(*state)),
        r.2 == count_fks(all_models(*state)),
{
    let ghost ff = |e: (String, Vec<Model>)| e.1@;
    let ghost all = all_models(*state);
    let files = state.file_models.entries();
    let mut cols: usize = 0;
    let mut rels: usize = 0;
    let mut fks: usize = 0;
    let mut i: usize = 0;
    proof {
        lemma_counts_prefix(all, 0);
    }
    while i < files.len()
        invariant
            i <= files@.len(),
            files@ == state.file_models.seq(),
            ff == (|e: (String, Vec<Model>)| e.1@),
            all == cat_map(files@, ff),
            totals_fit(*state),
            all == all_models(*state),
            cat_map(files@.take(i as int), ff).len() <= all.len(),
            all.take(cat_map(files@.take(i as int), ff).len() as int) == cat_map(files@.take(i as int), ff),
            cols == count_cols(cat_map(files@.take(i as int), ff)),
            rels == count_rels(cat_map(files@.take(i as int), ff)),
            fks == count_fks(cat_map(files@.take(i as int), ff)),
        decreases files@.len() - i,
    {
        proof {
            lemma_cat_map_take(files@, ff, i as int);
            lemma_cat_map_prefix(files@, ff, i + 1);
        }
        let models = &files[i].1;
        let ghost done = cat_map(files@.take(i as int), ff);
        let mut j: usize = 0;
        while j < models.len()
            invariant
                j <= models@.len(),
                totals_fit(*state),
                all == all_models(*state),
                done + models@ == cat_map(files@.take(i + 1), ff),
                cat_map(files@.take(i + 1), ff).len() <= all.len(),
                all.take(cat_map(files@.take(i + 1), ff).len() as int) == cat_map(files@.take(i + 1), ff),
                cols == count_cols(done + models@.take(j as int)),
                rels == count_rels(done + models@.take(j as int)),
                fks == count_fks(done + models@.take(j as int)),
            decreases models@.len() - j,
        {
            let m = &models[j];
            proof {
                assert((done + models@.take(j + 1)).drop_last() =~= done + models@.take(j as int));
                assert((done + models@.take(j + 1)).last() == *m);
                let pre = done + models@.take(j + 1);
                assert(pre =~= all.take(pre.len() as int));
                lemma_counts_prefix(all, pre.len() as int);
            }
            let cc = m.columns.len();
            let rc = m.relationships.len();
            let fc = fk_count(m);
            cols = cols + cc;
            rels = rels + rc;
            fks = fks + fc;
            j = j + 1;
        }
        assert(models@.take(models@.len() as int) =~= models@);
        i = i + 1;
    }
    assert(files@.take(files@.len() as int) =~= files@);
    (cols, rels, fks)
}

/// Whether the workspace's column, relationship and foreign-key totals fit
/// the machine's counters (what `compute_stats` needs).
pub fn totals_fit_exec(state: &WorkspaceState) -> (b: bool)
    ensures
        b == totals_fit(*state),
{
    let ghost ff = |e: (String, Vec<Model>)| e.1@;
    let ghost all = all_models(*state);
    let files = state.file_models.entries();
    let mut cols: usize = 0;
    let mut rels: usize = 0;
    let mut fks: usize = 0;
    let mut i: usize = 0;
    proof {
        lemma_counts_prefix(all, 0);
    }
    while i < files.len()
        invariant
            i <= files@.len(),
            files@ == state.file_models.seq(),
            ff == (|e: (String, Vec<Model>)| e.1@),
            all == cat_map(files@, ff),
            all == all_models(*state),
            cat_map(files@.take(i as int), ff).len() <= all.len(),
            all.take(cat_map(files@.take(i as int), ff).len() as int) == cat_map(files@.take(i as int), ff),
            cols == count_cols(cat_map(files@.take(i as int), ff)),
            rels == count_rels(cat_map(files@.take(i as int), ff)),
            fks == count_fks(cat_map(files@.take(i as int), ff)),
        decreases files@.len() - i,
    {
        proof {
            lemma_cat_map_take(files@, ff, i as int);
            lemma_cat_map_prefix(files@, ff, i + 1);
        }
        let models = &files[i].1;
        let ghost done = cat_map(files@.take(i as int), ff);
        let mut j: usize = 0;
        while j < models.len()
            invariant
                j <= models@.len(),
                all == all_models(*state),
                done + models@ == cat_map(files@.take(i + 1), ff),
                cat_map(files@.take(i + 1), ff).len() <= all.len(),
                all.take(cat_map(files@.take(i + 1), ff).len() as int) == cat_map(files@.take(i + 1), ff),
                cols == count_cols(done + models@.take(j as int)),
                rels == count_rels(done + models@.take(j as int)),
                fks == count_fks(done + models@.take(j as int)),
            decreases models@.len() - j,
        {
            let m = &models[j];
            proof {
                assert((done + models@.take(j + 1)).drop_last() =~= done + models@.take(j as int));
                assert((done + models@.take(j + 1)).last() == *m);
                let pre = done + models@.take(j + 1);
                assert(pre =~= all.take(pre.len() as int));
                lemma_counts_prefix(all, pre.len() as int);
            }
            let cc = m.columns.len();
            let rc = m.relationships.len();
            let fc = fk_count(m);
            match (cols.checked_add(cc), rels.checked_add(rc), fks.checked_add(fc)) {
                (Some(a), Some(b), Some(c)) => {
                    cols = a;
                    rels = b;
                    fks = c;
                },
                _ => {
                    return false;
                },
            }
            j = j + 1;
        }
        assert(models@.take(models@.len() as int) =~= models@);
        i = i + 1;
    }
    assert(files@.take(files@.len() as int) =~= files@);
    true
}

/// The counts of a prefix are at most those of the whole.
proof fn lemma_counts_prefix(ms: Seq<Model>, k: int)
    requires
        0 <= k <= ms.len(),
    ensures
        count_cols(ms.take(k)) <= count_cols(ms),
        count_rels(ms.take(k)) <= count_rels(ms),
        count_fks(ms.take(k)) <= count_fks(ms),
    decreases ms.len(),
{
    if k < ms.len() {
        assert(ms.take(k) =~= ms.drop_last().take(k));
        lemma_counts_prefix(ms.drop_last(), k);
    } else {
        assert(ms.take(k) =~= ms);
    }
}

/// A prefix of the list maps to a prefix of the flattened list.
proof fn lemma_cat_map_prefix<T, U>(s: Seq<T>, f: spec_fn(T) -> Seq<U>, k: int)
    requires
        0 <= k <= s.len(),
    ensures
        cat_map(s.take(k), f).len() <= cat_map(s, f).len(),
        cat_map(s, f).take(cat_map(s.take(k), f).len() as int) == cat_map(s.take(k), f),
    decreases s.len(),
{
    if k < s.len() {
        assert(s.take(k) =~= s.drop_last().take(k));
        lemma_cat_map_prefix(s.drop_last(), f, k);
        let a = cat_map(s.drop_last(), f);
        assert(cat_map(s, f) == a + f(s.last()));
        assert((a + f(s.last())).take(cat_map(s.take(k), f).len() as int) =~= a.take(
            cat_map(s.take(k), f).len() as int,
        ));
    } else {
        assert(s.take(k) =~= s);
        assert(cat_map(s, f).take(cat_map(s, f).len() as int) =~= cat_map(s, f));
    }
}

fn fk_count(m: &Model) -> (n: usize)
    ensures
        n == names_where(m.columns.seq(), has_fk()).len(),
{
    let cols = m.columns.entries();
    let mut n: usize = 0;
    let mut i: usize = 0;
    while i < cols.len()
        invariant
            i <= cols@.len(),
            cols@ == m.columns.seq(),
            n == names_where(cols@.take(i as int), has_fk()).len(),
            n <= i,
        decreases cols@.len() - i,
    {
        proof {
            assert(cols@.take(i + 1).drop_last() =~= cols@.take(i as int));
        }
        if cols[i].1.foreign_key.is_some() {
            n = n + 1;
        }
        i = i + 1;
    }
    assert(cols@.take(cols@.len() as int) =~= cols@);
    n
}

fn strs_contain(v: &Vec<String>, s: &str) -> (r: bool)
    ensures
        r == sviews(v@).contains(s@),
{
    let mut i: usize = 0;
    while i < v.len()
        invariant
            i <= v@.len(),
            forall|k: int| 0 <= k < i ==> sviews(v@)[k] != s@,
        decreases v@.len() - i,
    {
        if str_eq(v[i].as_str(), s) {
            assert(sviews(v@)[i as int] == s@);
            return true;
        }
        i = i + 1;
    }
    false
}

/// The declared revisions among the first `k` migrations.
pub open spec fn revisions_upto(st: WorkspaceState, k: int) -> Set<Seq<char>> {
    Set::new(
        |r: Seq<char>|
            exists|i: int|
                0 <= i < k && (#[trigger] st.migration_files.seq()[i]).1.revision is Some
                    && st.migration_files.seq()[i].1.revision->0@ == r,
    )
}

proof fn lemma_revisions_step(st: WorkspaceState, i: int)
    requires
        0 <= i < st.migration_files.seq().len(),
    ensures
        revisions_upto(st, i + 1) == match st.migration_files.seq()[i].1.revision {
            Some(r) => revisions_upto(st, i).insert(r@),
            None => revisions_upto(st, i),
        },
{
    let fs = st.migration_files.seq();
    match fs[i].1.revision {
        Some(rv) => {
            assert forall|r: Seq<char>| #[trigger] revisions_upto(st, i + 1).contains(r) <==> revisions_upto(st, i).insert(rv@).contains(r) by {
                if revisions_upto(st, i + 1).contains(r) {
                    let j = choose|j: int| 0 <= j < i + 1 && (#[trigger] fs[j]).1.revision is Some && fs[j].1.revision->0@ == r;
                    if j < i {
                        assert(revisions_upto(st, i).contains(r));
                    }
                }
                if revisions_upto(st, i).contains(r) {
                    let j = choose|j: int| 0 <= j < i && (#[trigger] fs[j]).1.revision is Some && fs[j].1.revision->0@ == r;
                    assert(0 <= j < i + 1);
                }
                if r == rv@ {
                    assert(fs[i].1.revision is Some && fs[i].1.revision->0@ == r);
                }
            }
            assert(revisions_upto(st, i + 1) =~= revisions_upto(st, i).insert(rv@));
        },
        None => {
            assert forall|r: Seq<char>| #[trigger] revisions_upto(st, i + 1).contains(r) <==> revisions_upto(st, i).contains(r) by {
                if revisions_upto(st, i + 1).contains(r) {
                    let j = choose|j: int| 0 <= j < i + 1 && (#[trigger] fs[j]).1.revision is Some && fs[j].1.revision->0@ == r;
                    assert(j != i);
                }
                if revisions_upto(st, i).contains(r) {
                    let j = choose|j: int| 0 <= j < i && (#[trigger] fs[j]).1.revision is Some && fs[j].1.revision->0@ == r;
                    assert(0 <= j < i + 1);
                }
            }
            assert(revisions_upto(st, i + 1) =~= revisions_upto(st, i));
        },
    }
}

fn head_count(state: &WorkspaceState) -> (n: usize)
    ensures
        n == head_revisions(*state).len(),
        head_revisions(*state).finite(),
{
    let ghost st = *state;
    let ghost p = |r: Seq<char>| !is_parent(st, r);
    let files = state.migration_files.entries();
    let mut seen: Vec<String> = Vec::new();
    let mut heads: Vec<String> = Vec::new();
    let mut i: usize = 0;
    assert(sviews(seen@).to_set() =~= revisions_upto(st, 0));
    assert(sviews(heads@).to_set() =~= revisions_upto(st, 0).filter(p));
    while i < files.len()
        invariant
            i <= files@.len(),
            files@ == st.migration_files.seq(),
            st == *state,
            p == (|r: Seq<char>| !is_parent(st, r)),
            sviews(seen@).to_set() == revisions_upto(st, i as int),
            sviews(heads@).to_set() == revisions_upto(st, i as int).filter(p),
            sviews(heads@).no_duplicates(),
        decreases files@.len() - i,
    {
        let ghost old_seen = sviews(seen@);
        let ghost old_heads = sviews(heads@);
        proof {
            lemma_revisions_step(st, i as int);
        }
        match &files[i].1.revision {
            Some(rev) => {
                if !strs_contain(&seen, rev.as_str()) {
                    seen.push(rev.clone());
                    proof {
                        assert(sviews(seen@) =~= old_seen.push(rev@));
                        old_seen.lemma_push_to_set_commute(rev@);
                    }
                    if !is_parent_exec(state, rev.as_str()) {
                        heads.push(rev.clone());
                        proof {
                            assert(sviews(heads@) =~= old_heads.push(rev@));
                            old_heads.lemma_push_to_set_commute(rev@);
                            assert(!old_heads.contains(rev@)) by {
                                if old_heads.contains(rev@) {
                                    assert(old_heads.to_set().contains(rev@));
                                    assert(old_seen.to_set().contains(rev@));
                                }
                            }
                            assert(sviews(heads@).to_set() =~= revisions_upto(st, i + 1).filter(p));
                        }
                    } else {
                        assert(sviews(heads@) =~= old_heads);
                        assert(sviews(heads@).to_set() =~= revisions_upto(st, i + 1).filter(p));
                    }
                } else {
                    assert(old_seen.to_set().contains(rev@));
                    assert(revisions_upto(st, i + 1) =~= revisions_upto(st, i as int));
                }
            },
            None => {},
        }
        i = i + 1;
    }
    proof {
        assert(revisions_upto(st, files@.len() as int) =~= revisions(st));
        sviews(heads@).unique_seq_to_set();
    }
    heads.len()
}

fn collect_codes(state: &WorkspaceState) -> (r: Vec<String>)
    ensures
        sviews(r@) == all_codes(*state),
{
    let ghost f = |e: (String, Vec<LspDiagnostic>)| e.1@.map_values(|d: LspDiagnostic| d.code@);
    let ents = state.diagnostics.entries();
    let mut out: Vec<String> = Vec::new();
    let mut i: usize = 0;
    while i < ents.len()
        invariant
            i <= ents@.len(),
            ents@ == state.diagnostics.seq(),
            f == (|e: (String, Vec<LspDiagnostic>)| e.1@.map_values(|d: LspDiagnostic| d.code@)),
            sviews(out@) == cat_map(ents@.take(i as int), f),
        decreases ents@.len() - i,
    {
        proof {
            lemma_cat_map_take(ents@, f, i as int);
        }
        let diags = &ents[i].1;
        let ghost start = sviews(out@);
        let mut j: usize = 0;
        while j < diags.len()
            invariant
                j <= diags@.len(),
                sviews(out@) == start + diags@.take(j as int).map_values(|d: LspDiagnostic| d.code@),
            decreases diags@.len() - j,
        {
            let ghost o = sviews(out@);
            out.push(diags[j].code.clone());
            proof {
                assert(sviews(out@) =~= o.push(diags@[j as int].code@));
                assert(diags@.take(j + 1).map_values(|d: LspDiagnostic| d.code@) =~= diags@.take(
                    j as int,
                ).map_values(|d: LspDiagnostic| d.code@).push(diags@[j as int].code@));
            }
            j = j + 1;
        }
        assert(diags@.take(diags@.len() as int) =~= diags@);
        i = i + 1;
    }
    assert(ents@.take(ents@.len() as int) =~= ents@);
    out
}

/// Runs of equal neighbours in a list of strings.
fn runs_exec(v: &Vec<String>) -> (r: Vec<(String, usize)>)
    ensures
        count_views(r@) == runs(sviews(v@)),
{
    let ghost sv = sviews(v@);
    let mut out: Vec<(String, usize)> = Vec::new();
    let mut i: usize = 0;
    while i < v.len()
        invariant
            i <= v@.len(),
            sv == sviews(v@),
            count_views(out@) == runs(sv.take(i as int)),
            forall|k: int| 0 <= k < out@.len() ==> (#[trigger] out@[k]).1 <= i,
        decreases v@.len() - i,
    {
        proof {
            assert(sv.take(i + 1).drop_last() =~= sv.take(i as int));
            assert(sv.take(i + 1).last() == v@[i as int]@);
        }
        let n = out.len();
        let ghost o = out@;
        if n > 0 && str_eq(out[n - 1].0.as_str(), v[i].as_str()) {
            let c = out[n - 1].1;
            let key = v[i].clone();
            out.set(n - 1, (key, c + 1));
            proof {
                assert(count_views(out@) =~= count_views(o).update(
                    n - 1,
                    (v@[i as int]@, count_views(o).last().1 + 1),
                ));
            }
        } else {
            out.push((v[i].clone(), 1));
            proof {
                assert(count_views(out@) =~= count_views(o).push((v@[i as int]@, 1nat)));
            }
        }
        i = i + 1;
    }
    assert(sv.take(v@.len() as int) =~= sv);
    out
}

/// Count what the workspace index holds.
pub fn compute_stats(state: &WorkspaceState) -> (r: WorkspaceStats)
    requires
        totals_fit(*state),
    ensures
        r@ == stats_of(*state),
{
    let (columns, relationships, foreign_keys) = model_totals(state);
    let migration_heads = head_count(state);
    let codes = collect_codes(state);
    let total_findings = codes.len();
    let sorted = sort_strings(&codes);
    let findings_by_code = runs_exec(&sorted);
    let ents = state.model_index.entries();
    let mut names: Vec<String> = Vec::new();
    let mut i: usize = 0;
    while i < ents.len()
        invariant
            i <= ents@.len(),
            ents@ == state.model_index.seq(),
            sviews(names@) == ents@.take(i as int).map_values(
                |e: (String, crate::types::ModelLocation)| e.0@,
            ),
        decreases ents@.len() - i,
    {
        let ghost o = sviews(names@);
        names.push(ents[i].0.clone());
        proof {
            assert(sviews(names@) =~= o.push(ents@[i as int].0@));
            assert(ents@.take(i + 1).map_values(|e: (String, crate::types::ModelLocation)| e.0@)
                =~= ents@.take(i as int).map_values(
                |e: (String, crate::types::ModelLocation)| e.0@,
            ).push(ents@[i as int].0@));
        }
        i = i + 1;
    }
    assert(ents@.take(ents@.len() as int) =~= ents@);
    assert(sviews(names@) == index_names(*state));
    let model_names = sort_strings(&names);
    assert(sviews(codes@) == all_codes(*state));
    let r = WorkspaceStats {
        files_checked: state.file_sources.len(),
        models: state.model_index.len(),
        columns,
        relationships,
        foreign_keys,
        migration_heads,
        findings_by_code,
        total_findings,
        model_names,
    };
    assert(r@ =~= stats_of(*state));
    r
}

// ── The text report ──────────────────────────────────────────────────────────

/// `s` padded with spaces on the right to `w` characters (`{:<w}`).
pub open spec fn pad_to(s: Seq<char>, w: int) -> Seq<char> {
    if s.len() < w {
        s + spaces(w - s.len())
    } else {
        s
    }
}

/// The model names in parentheses, or `none`.
pub open spec fn names_text(names: Seq<Seq<char>>) -> Seq<char> {
    if names.len() == 0 {
        "none"@
    } else {
        "("@ + join(names, ", "@) + ")"@
    }
}

/// One line of the findings table.
pub open spec fn count_line(p: (Seq<char>, nat)) -> Seq<char> {
    "  "@ + pad_to(p.0, 12) + " "@ + dec(p.1) + "\n"@
}

pub open spec fn count_line_f() -> spec_fn((Seq<char>, nat)) -> Seq<char> {
    |p: (Seq<char>, nat)| count_line(p)
}

/// The findings part of the report: a line per code, a rule and the total,
/// or `none`.
pub open spec fn findings_text(counts: Seq<(Seq<char>, nat)>, total: nat) -> Seq<char> {
    if counts.len() == 0 {
        "  none\n"@
    } else {
        cat_map(counts, count_line_f()) + "  "@ + Seq::new(13, |_i: int| '─') + "\n"@
            + "  Total        "@ + dec(total) + "\n"@
    }
}

/// The text report of `stats` for the workspace at `root`.
pub open spec fn stats_text(s: StatsV, root: Seq<char>) -> Seq<char> {
    "Workspace: "@ + root + "   (checked "@ + dec(s.files_checked) + " files)\n"@ + "\n"@
        + "  Models           "@ + pad_to(dec(s.models), 5) + " "@ + names_text(s.model_names)
        + "\n"@ + "  Columns          "@ + dec(s.columns) + "\n"@ + "  Relationships    "@ + dec(
        s.relationships,
    ) + "\n"@ + "  Foreign keys     "@ + dec(s.foreign_keys) + "\n"@ + "  Migration heads  "@
        + dec(s.migration_heads) + "\n"@ + "\n"@ + "Findings by code\n"@ + findings_text(
        s.findings_by_code,
        s.total_findings,
    )
}

fn push_padded(out: &mut String, t: &str, w: usize)
    ensures
        final(out)@ == old(out)@ + pad_to(t@, w as int),
{
    let n = crate::text::to_chars(t).len();
    push_str(out, t);
    if n < w {
        push_spaces(out, (w - n) as u64);
    }
}

fn dec_string(n: usize) -> (s: String)
    ensures
        s@ == dec(n as nat),
{
    let mut s = String::new();
    push_dec(&mut s, n as u64);
    s
}

fn push_findings(out: &mut String, counts: &Vec<(String, usize)>, total: usize)
    ensures
        final(out)@ == old(out)@ + findings_text(count_views(counts@), total as nat),
{
    let ghost cv = count_views(counts@);
    if counts.len() == 0 {
        push_str(out, "  none\n");
        return;
    }
    let ghost start = out@;
    let mut i: usize = 0;
    while i < counts.len()
        invariant
            i <= counts@.len(),
            cv == count_views(counts@),
            out@ == start + cat_map(cv.take(i as int), count_line_f()),
        decreases counts@.len() - i,
    {
        proof {
            lemma_cat_map_take(cv, count_line_f(), i as int);
        }
        let ghost o = out@;
        push_str(out, "  ");
        push_padded(out, counts[i].0.as_str(), 12);
        push_str(out, " ");
        push_dec(out, counts[i].1 as u64);
        push_str(out, "\n");
        assert(out@ =~= o + count_line(cv[i as int]));
        i = i + 1;
    }
    assert(cv.take(cv.len() as int) =~= cv);
    let ghost mid = out@;
    push_str(out, "  ");
    let mut k: usize = 0;
    let ghost before_rule = out@;
    while k < 13
        invariant
            k <= 13,
            out@ == before_rule + Seq::new(k as nat, |_i: int| '─'),
        decreases 13 - k,
    {
        crate::text::push_char(out, '─');
        k = k + 1;
        assert(out@ =~= before_rule + Seq::new(k as nat, |_i: int| '─'));
    }
    push_str(out, "\n");
    push_str(out, "  Total        ");
    push_dec(out, total as u64);
    push_str(out, "\n");
    assert(out@ =~= old(out)@ + findings_text(cv, total as nat));
}

/// The text report of `stats`.
pub fn render_stats_text(stats: &WorkspaceStats, root: &str) -> (r: String)
    ensures
        r@ == stats_text(stats@, root@),
{
    let mut out = to_owned("Workspace: ");
    push_str(&mut out, root);
    push_str(&mut out, "   (checked ");
    push_dec(&mut out, stats.files_checked as u64);
    push_str(&mut out, " files)\n");
    push_str(&mut out, "\n");
    push_str(&mut out, "  Models           ");
    let m = dec_string(stats.models);
    push_padded(&mut out, m.as_str(), 5);
    push_str(&mut out, " ");
    if stats.model_names.len() == 0 {
        push_str(&mut out, "none");
    } else {
        push_str(&mut out, "(");
        push_joined(&mut out, &stats.model_names, ", ");
        push_str(&mut out, ")");
    }
    push_str(&mut out, "\n");
    let ghost a = out@;
    push_str(&mut out, "  Columns          ");
    push_dec(&mut out, stats.columns as u64);
    push_str(&mut out, "\n");
    push_str(&mut out, "  Relationships    ");
    push_dec(&mut out, stats.relationships as u64);
    push_str(&mut out, "\n");
    push_str(&mut out, "  Foreign keys     ");
    push_dec(&mut out, stats.foreign_keys as u64);
    push_str(&mut out, "\n");
    push_str(&mut out, "  Migration heads  ");
    push_dec(&mut out, stats.migration_heads as u64);
    push_str(&mut out, "\n");
    push_str(&mut out, "\n");
    push_str(&mut out, "Findings by code\n");
    let ghost b = out@;
    push_findings(&mut out, &stats.findings_by_code, stats.total_findings);
    assert(out@ =~= stats_text(stats@, root@));
    out
}

/// `stats`: the text report of the workspace at `root`, or none where the
/// JSON format is asked for (its caller then serialises `compute_stats`).
/// Always succeeds.
pub fn run_stats(state: &WorkspaceState, root: &str, format: &str) -> (r: (i32, Option<String>))
    requires
        totals_fit(*state),
    ensures
        r.0 == 0,
        match r.1 {
            Some(t) => format@ != "json"@ && t@ == stats_text(stats_of(*state), root@),
            None => format@ == "json"@,
        },
{
    if str_eq(format, "json") {
        return (0, None);
    }
    let stats = compute_stats(state);
    (0, Some(render_stats_text(&stats, root)))
}

} // verus!
