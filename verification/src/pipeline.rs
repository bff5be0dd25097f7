//! Indexing files into the workspace state and recomputing every file's
//! diagnostics across the workspace.
use vstd::prelude::*;

use crate::alembic_diag::{check_migration, compute_head_set, distinct_strs, heads_of, migration_findings};
use crate::config::{apply_noqa_to_diagnostics, filter_diagnostics, filtered, noqa_kept, DiagnosticsConfig};
use crate::diagnostics::{dviews, LspDiagnostic};
use crate::extract::{extract_models, file_sym, model_classes, model_ok, models_pre};
use crate::f01::{orm_findings_ok, sviews};
use crate::f02::models_lints;
use crate::migration::{extract_migration, mig_fold, migration_ok, migration_pre};
use crate::python::{has_alembic_indicators, has_sqlalchemy_indicators, sqlalchemy_indicated};
use crate::state::{add_names, add_tables, old_models, old_revision_removed, remove_names, remove_tables, WorkspaceState};
use crate::strmap::keys_distinct;
use crate::syntax::{named_kids, SyntaxNode};
use crate::text::contains;
use crate::types::{views, Model};

verus! {

// ── Indexing one file ────────────────────────────────────────────────────────

pub open spec fn alembic_indicated(s: Seq<char>) -> bool {
    contains(s, "from alembic"@) || contains(s, "import alembic"@)
}

/// The models indexed for a file: one per model class when it looks like a
/// SQLAlchemy module, none otherwise.
pub open spec fn models_extracted(ms: Seq<Model>, root: SyntaxNode, sa: bool) -> bool {
    if sa {
        ms.len() == model_classes(root).len() && forall|i: int|
            0 <= i < ms.len() ==> model_ok(#[trigger] ms[i], model_classes(root)[i], file_sym(root))
    } else {
        ms.len() == 0
    }
}

/// The module declares a revision or makes an operation call.
pub open spec fn has_migration(root: SyntaxNode) -> bool {
    let v = mig_fold(named_kids(root));
    !(v.revision is None && v.ops.len() == 0)
}

/// `new` is `old` with file `uri` (parsed as `root`) indexed: its tree kept,
/// its models replacing the old ones in every index, and its migration facts
/// (when it looks like a migration and has some) replacing the old ones.
pub open spec fn indexed(old: WorkspaceState, new: WorkspaceState, uri: String, source: Seq<char>, root: SyntaxNode) -> bool {
    let ms = new.file_models@[uri@];
    &&& new.parse_trees@ == old.parse_trees@.insert(uri@, root)
    &&& new.file_models@.contains_key(uri@)
    &&& new.file_models@ == old.file_models@.insert(uri@, ms)
    &&& models_extracted(ms@, root, sqlalchemy_indicated(source))
    &&& new.model_index@ == add_names(
        remove_names(old.model_index@, old_models(old.file_models@, uri@)),
        ms@,
        uri,
    )
    &&& new.table_index@ == add_tables(remove_tables(old.table_index@, old_models(old.file_models@, uri@)), ms@)
    &&& if alembic_indicated(source) && has_migration(root) {
        let mf = new.migration_files@[uri@];
        &&& new.migration_files@.contains_key(uri@)
        &&& migration_ok(mf, mig_fold(named_kids(root)))
        &&& new.migration_files@ == old.migration_files@.insert(uri@, mf)
        &&& new.revision_index@ == (if mf.revision is Some {
            old_revision_removed(old.revision_index@, old.migration_files@, uri@).insert(mf.revision->0@, uri)
        } else {
            old_revision_removed(old.revision_index@, old.migration_files@, uri@)
        })
    } else {
        &&& new.migration_files@ == old.migration_files@
        &&& new.revision_index@ == old.revision_index@
    }
    &&& new.diagnostics@ == old.diagnostics@
    &&& new.open_uris@ == old.open_uris@
}

/// Extraction can read the parts of the tree it slices.
pub open spec fn index_pre(source: Seq<char>, root: SyntaxNode) -> bool {
    &&& sqlalchemy_indicated(source) ==> models_pre(root)
    &&& alembic_indicated(source) ==> migration_pre(root)
}

fn index_tree(state: &mut WorkspaceState, uri: &String, source: &str, root: SyntaxNode)
    requires
        index_pre(source@, root),
    ensures
        indexed(*old(state), *final(state), *uri, source@, root),
        final(state).file_sources@ == old(state).file_sources@,
{
    let sa = has_sqlalchemy_indicators(source);
    let al = has_alembic_indicators(source);
    let models = if sa {
        extract_models(&root)
    } else {
        Vec::new()
    };
    let migration = if al {
        extract_migration(&root)
    } else {
        None
    };
    let ghost ms = models;
    state.parse_trees.insert(uri.clone(), root);
    state.update_file(uri, models);
    match migration {
        Some(mf) => {
            state.update_migration(uri, mf);
        },
        None => {},
    }
    assert(state.file_models@[uri@] == ms);
}

/// Index one file of a workspace scan: a file that looks like neither a
/// SQLAlchemy module nor a migration is skipped (and `false` returned);
/// otherwise its source, tree, models and migration facts are recorded.
pub fn index_source(state: &mut WorkspaceState, uri: &String, source: String, root: SyntaxNode) -> (r: bool)
    requires
        index_pre(source@, root),
    ensures
        r == (sqlalchemy_indicated(source@) || alembic_indicated(source@)),
        !r ==> *final(state) == *old(state),
        r ==> indexed(*old(state), *final(state), *uri, source@, root),
        r ==> final(state).file_sources@ == old(state).file_sources@.insert(uri@, source),
{
    if !has_sqlalchemy_indicators(source.as_str()) && !has_alembic_indicators(source.as_str()) {
        return false;
    }
    let ghost s = source@;
    index_tree(state, uri, source.as_str(), root);
    state.file_sources.insert(uri.clone(), source);
    true
}

/// Re-index a file the editor changed (its text already recorded) and give
/// back the diagnostics last computed for it, to publish until the next
/// workspace pass.
pub fn index_changed(state: &mut WorkspaceState, uri: &String, source: &str, root: SyntaxNode) -> (r: Vec<
    LspDiagnostic,
>)
    requires
        index_pre(source@, root),
    ensures
        indexed(*old(state), *final(state), *uri, source@, root),
        final(state).file_sources@ == old(state).file_sources@,
        r@ == (if old(state).diagnostics@.contains_key(uri@) {
            old(state).diagnostics@[uri@]@
        } else {
            Seq::empty()
        }),
{
    index_tree(state, uri, source, root);
    match state.diagnostics.get(uri.as_str()) {
        Some(d) => crate::diagnostics::copy_diags(d),
        None => Vec::new(),
    }
}

// ── Recomputing diagnostics ──────────────────────────────────────────────────

/// The `ignore` filter and severity overrides, in the editor only.
pub open spec fn filt(cfg: Option<DiagnosticsConfig>, d: Seq<LspDiagnostic>) -> Seq<LspDiagnostic> {
    match cfg {
        Some(c) => filtered(d, c),
        None => d,
    }
}

/// `# noqa` suppression, in the editor only and where the source is known.
pub open spec fn noq(cfg: Option<DiagnosticsConfig>, src: Option<Seq<char>>, d: Seq<LspDiagnostic>) -> Seq<
    LspDiagnostic,
> {
    match (cfg, src) {
        (Some(_), Some(s)) => noqa_kept(d, s),
        _ => d,
    }
}

pub open spec fn src_of(st: WorkspaceState, uri: Seq<char>) -> Option<Seq<char>> {
    if st.file_sources@.contains_key(uri) {
        Some(st.file_sources@[uri]@)
    } else {
        None
    }
}

/// What the model rules report on a file's models: the ORM findings, then
/// the lints.
pub open spec fn raw_ok(st: WorkspaceState, ms: Seq<Model>, raw: Seq<LspDiagnostic>) -> bool {
    exists|k: int|
        0 <= k <= raw.len() && orm_findings_ok(st, ms, #[trigger] raw.take(k)) && dviews(raw.skip(k))
            == models_lints(st, ms)
}

/// The diagnostics of a model file: its findings, filtered and suppressed.
pub open spec fn model_diags_ok(st: WorkspaceState, cfg: Option<DiagnosticsConfig>, uri: Seq<char>, d: Seq<LspDiagnostic>) -> bool {
    exists|raw: Seq<LspDiagnostic>|
        raw_ok(st, st.file_models@[uri]@, raw) && d == noq(cfg, src_of(st, uri), #[trigger] filt(cfg, raw))
}

/// What a migration file had before its findings are added: this pass's
/// model diagnostics for a model file, else what was stored (or nothing).
pub open spec fn prior_ok(st: WorkspaceState, cfg: Option<DiagnosticsConfig>, uri: Seq<char>, p: Seq<LspDiagnostic>) -> bool {
    if st.file_models@.contains_key(uri) {
        model_diags_ok(st, cfg, uri, p)
    } else if st.diagnostics@.contains_key(uri) {
        p == st.diagnostics@[uri]@
    } else {
        p == Seq::<LspDiagnostic>::empty()
    }
}

/// The diagnostics of a migration file: what it had, then its Alembic
/// findings (filtered), all suppressed by `# noqa`.
pub open spec fn mig_diags_ok(st: WorkspaceState, cfg: Option<DiagnosticsConfig>, uri: Seq<char>, d: Seq<LspDiagnostic>) -> bool {
    exists|p: Seq<LspDiagnostic>, a: Seq<LspDiagnostic>|
        prior_ok(st, cfg, uri, p) && dviews(a) == migration_findings(
            st.migration_files@[uri],
            st,
            heads_of(st.revision_index.seq(), st),
        ) && d == noq(cfg, src_of(st, uri), #[trigger] (p + filt(cfg, a)))
}

/// Published entries as values.
pub open spec fn pviews(s: Seq<(String, Vec<LspDiagnostic>)>) -> Seq<(Seq<char>, Seq<LspDiagnostic>)> {
    s.map_values(|e: (String, Vec<LspDiagnostic>)| (e.0@, e.1@))
}

/// Some entry has key `u`.
pub open spec fn has_key(e: Seq<(String, Vec<LspDiagnostic>)>, u: Seq<char>) -> bool {
    exists|k: int| 0 <= k < e.len() && #[trigger] e[k].0@ == u
}

pub proof fn lemma_pviews_push(s: Seq<(String, Vec<LspDiagnostic>)>, x: (String, Vec<LspDiagnostic>))
    ensures
        pviews(s.push(x)) == pviews(s).push((x.0@, x.1@)),
{
    assert(pviews(s.push(x)) =~= pviews(s).push((x.0@, x.1@)));
}

/// The map after writing the entries in order.
pub open spec fn upd(m: Map<Seq<char>, Vec<LspDiagnostic>>, e: Seq<(String, Vec<LspDiagnostic>)>) -> Map<
    Seq<char>,
    Vec<LspDiagnostic>,
>
    decreases e.len(),
{
    if e.len() == 0 {
        m
    } else {
        upd(m, e.drop_last()).insert(e.last().0@, e.last().1)
    }
}

pub proof fn lemma_upd(m: Map<Seq<char>, Vec<LspDiagnostic>>, e: Seq<(String, Vec<LspDiagnostic>)>)
    requires
        keys_distinct(e),
    ensures
        forall|k: int| 0 <= k < e.len() ==> upd(m, e).contains_key(#[trigger] e[k].0@) && upd(m, e)[e[k].0@]
            == e[k].1,
        forall|u: Seq<char>|
            !#[trigger] has_key(e, u) ==> (upd(m, e).contains_key(u) == m.contains_key(u) && (m.contains_key(u)
                ==> upd(m, e)[u] == m[u])),
        forall|u: Seq<char>| #[trigger] upd(m, e).contains_key(u) ==> m.contains_key(u) || has_key(e, u),
    decreases e.len(),
{
    if e.len() > 0 {
        let d = e.drop_last();
        let l = e.last();
        assert(keys_distinct(d));
        lemma_upd(m, d);
        assert forall|k: int| 0 <= k < e.len() implies upd(m, e).contains_key(#[trigger] e[k].0@) && upd(m, e)[e[k].0@]
            == e[k].1 by {
            if k < e.len() - 1 {
                assert(d[k] == e[k]);
                assert(e[k].0@ != l.0@);
            }
        }
        assert forall|u: Seq<char>| !#[trigger] has_key(e, u) implies (upd(m, e).contains_key(u) == m.contains_key(u)
            && (m.contains_key(u) ==> upd(m, e)[u] == m[u])) by {
            assert(e[e.len() - 1].0@ != u);
            if has_key(d, u) {
                let k = choose|k: int| 0 <= k < d.len() && #[trigger] d[k].0@ == u;
                assert(d[k] == e[k]);
            }
            assert(!has_key(d, u));
        }
        assert forall|u: Seq<char>| #[trigger] upd(m, e).contains_key(u) implies m.contains_key(u) || has_key(e, u) by {
            if u != l.0@ {
                assert(upd(m, d).contains_key(u));
                if !m.contains_key(u) {
                    assert(has_key(d, u));
                    let k = choose|k: int| 0 <= k < d.len() && #[trigger] d[k].0@ == u;
                    assert(d[k] == e[k]);
                    assert(e[k].0@ == u);
                }
            } else {
                assert(e[e.len() - 1].0@ == u);
            }
        }
    }
}

/// Recompute the diagnostics of every indexed file and store them: for each
/// model file its ORM findings then its lints; for each migration file what
/// it had (this pass's model diagnostics, or what was stored) then its Alembic
/// findings against the current heads. In the editor (`cfg` given) findings
/// pass the `ignore` filter and `# noqa` markers; a workspace scan keeps
/// them all. Returns what to publish: each model file, then each migration
/// file that is no model file.
pub fn relink(state: &mut WorkspaceState, cfg: Option<&DiagnosticsConfig>) -> (publish: Vec<
    (String, Vec<LspDiagnostic>),
>)
    ensures
        ({
            let st = *old(state);
            let c = match cfg {
                Some(x) => Some(*x),
                None => None,
            };
            &&& final(state).file_models@ == st.file_models@
            &&& final(state).model_index@ == st.model_index@
            &&& final(state).table_index@ == st.table_index@
            &&& final(state).file_sources@ == st.file_sources@
            &&& final(state).parse_trees@ == st.parse_trees@
            &&& final(state).migration_files@ == st.migration_files@
            &&& final(state).revision_index@ == st.revision_index@
            &&& final(state).open_uris@ == st.open_uris@
            &&& forall|u: Seq<char>|
                #[trigger] final(state).diagnostics@.contains_key(u) <==> (st.diagnostics@.contains_key(u)
                    || st.file_models@.contains_key(u) || st.migration_files@.contains_key(u))
            &&& forall|u: Seq<char>|
                st.file_models@.contains_key(u) && !st.migration_files@.contains_key(u) ==> model_diags_ok(
                    st,
                    c,
                    u,
                    #[trigger] final(state).diagnostics@[u]@,
                )
            &&& forall|u: Seq<char>|
                st.migration_files@.contains_key(u) ==> mig_diags_ok(st, c, u, #[trigger] final(state).diagnostics@[u]@)
            &&& forall|u: Seq<char>|
                !st.file_models@.contains_key(u) && !st.migration_files@.contains_key(u) && st.diagnostics@.contains_key(u)
                    ==> #[trigger] final(state).diagnostics@[u] == st.diagnostics@[u]
            &&& publish@.len() >= st.file_models.seq().len()
            &&& forall|i: int|
                0 <= i < st.file_models.seq().len() ==> (#[trigger] publish@[i]).0@ == st.file_models.seq()[i].0@
                    && model_diags_ok(st, c, publish@[i].0@, publish@[i].1@)
            &&& forall|i: int|
                st.file_models.seq().len() <= i < publish@.len() ==> st.migration_files@.contains_key(
                    (#[trigger] publish@[i]).0@,
                ) && !st.file_models@.contains_key(publish@[i].0@) && publish@[i].1@
                    == final(state).diagnostics@[publish@[i].0@]@
        }),
{
    let ghost st = *state;
    let ghost c = match cfg {
        Some(x) => Some(*x),
        None => None,
    };
    let mut sa: Vec<(String, Vec<LspDiagnostic>)> = Vec::new();
    let mut mig: Vec<(String, Vec<LspDiagnostic>)> = Vec::new();
    {
        let s: &WorkspaceState = state;
        let files = s.file_models.entries();
        let mut i: usize = 0;
        while i < files.len()
            invariant
                i <= files@.len(),
                *s == st,
                files@ == st.file_models.seq(),
                keys_distinct(files@),
                c == match cfg {
                    Some(x) => Some(*x),
                    None => None,
                },
                sa@.len() == i,
                forall|k: int|
                    0 <= k < i ==> (#[trigger] sa@[k]).0@ == files@[k].0@ && model_diags_ok(st, c, sa@[k].0@, sa@[k].1@),
            decreases files@.len() - i,
        {
            let uri = &files[i].0;
            let ms = &files[i].1;
            proof {
                st.file_models.lemma_seq();
                assert(st.file_models@.contains_key(files@[i as int].0@));
            }
            assert(st.file_models@[uri@] == *ms);
            let mut raw = crate::f01::check_file(ms.as_slice(), s);
            let ghost a = raw@;
            let mut more = crate::f02::check_file(ms.as_slice(), s);
            let ghost b = more@;
            raw.append(&mut more);
            let ghost rawv = raw@;
            proof {
                assert(rawv.take(a.len() as int) =~= a);
                assert(rawv.skip(a.len() as int) =~= b);
                assert(orm_findings_ok(st, ms@, rawv.take(a.len() as int)));
                assert(raw_ok(st, ms@, rawv));
            }
            let d = match cfg {
                Some(cf) => {
                    let f = filter_diagnostics(raw, cf);
                    match s.file_sources.get(uri.as_str()) {
                        Some(src) => apply_noqa_to_diagnostics(f, src.as_str()),
                        None => f,
                    }
                },
                None => raw,
            };
            proof {
                assert(d@ == noq(c, src_of(st, uri@), filt(c, rawv)));
                assert(model_diags_ok(st, c, uri@, d@));
            }
            sa.push((uri.clone(), d));
            i = i + 1;
        }
        let heads = compute_head_set(s);
        let migs = s.migration_files.entries();
        let mut j: usize = 0;
        while j < migs.len()
            invariant
                j <= migs@.len(),
                *s == st,
                migs@ == st.migration_files.seq(),
                files@ == st.file_models.seq(),
                keys_distinct(files@),
                keys_distinct(migs@),
                sviews(heads@) == heads_of(st.revision_index.seq(), st),
                distinct_strs(sviews(heads@)),
                c == match cfg {
                    Some(x) => Some(*x),
                    None => None,
                },
                sa@.len() == files@.len(),
                forall|k: int|
                    0 <= k < sa@.len() ==> (#[trigger] sa@[k]).0@ == files@[k].0@ && model_diags_ok(st, c, sa@[k].0@, sa@[k].1@),
                mig@.len() == j,
                forall|k: int|
                    0 <= k < j ==> (#[trigger] mig@[k]).0@ == migs@[k].0@ && mig_diags_ok(st, c, mig@[k].0@, mig@[k].1@),
            decreases migs@.len() - j,
        {
            let uri = &migs[j].0;
            let mf = &migs[j].1;
            proof {
                st.migration_files.lemma_seq();
                assert(st.migration_files@.contains_key(migs@[j as int].0@));
            }
            assert(st.migration_files@[uri@] == *mf);
            let found = check_migration(mf, s, &heads);
            let ghost av = found@;
            let al = match cfg {
                Some(cf) => filter_diagnostics(found, cf),
                None => found,
            };
            let mut prior: Vec<LspDiagnostic> = if s.file_models.contains_key(uri.as_str()) {
                let mut p: usize = 0;
                let mut hit: Option<usize> = None;
                while p < sa.len()
                    invariant
                        p <= sa@.len(),
                        sa@.len() == files@.len(),
                        forall|k: int| 0 <= k < sa@.len() ==> (#[trigger] sa@[k]).0@ == files@[k].0@,
                        hit matches Some(h) ==> h < sa@.len() && sa@[h as int].0@ == uri@,
                        hit is None ==> forall|k: int| 0 <= k < p ==> (#[trigger] sa@[k]).0@ != uri@,
                    decreases sa@.len() - p,
                {
                    if hit.is_none() && crate::text::str_eq(sa[p].0.as_str(), uri.as_str()) {
                        hit = Some(p);
                    }
                    p = p + 1;
                }
                match hit {
                    Some(h) => crate::diagnostics::copy_diags(&sa[h].1),
                    None => {
                        proof {
                            st.file_models.lemma_seq();
                            let k = crate::strmap::key_index(files@, uri@);
                            crate::strmap::lemma_key_index(files@, uri@);
                            assert(0 <= k < files@.len());
                            assert(files@[k].0@ == uri@);
                            assert(sa@[k].0@ == files@[k].0@);
                        }
                        Vec::new()
                    },
                }
            } else {
                match s.diagnostics.get(uri.as_str()) {
                    Some(d) => crate::diagnostics::copy_diags(d),
                    None => Vec::new(),
                }
            };
            let ghost pv = prior@;
            let mut alv = al;
            let ghost alw = alv@;
            prior.append(&mut alv);
            let d = match cfg {
                Some(_) => match s.file_sources.get(uri.as_str()) {
                    Some(src) => apply_noqa_to_diagnostics(prior, src.as_str()),
                    None => prior,
                },
                None => prior,
            };
            proof {
                assert(prior_ok(st, c, uri@, pv));
                assert(alw == filt(c, av));
                assert(d@ == noq(c, src_of(st, uri@), pv + filt(c, av)));
                assert(mig_diags_ok(st, c, uri@, d@));
            }
            mig.push((uri.clone(), d));
            j = j + 1;
        }
    }
    let ghost m0 = state.diagnostics@;
    let ghost sav = sa@;
    let ghost migv = mig@;
    let mut publish: Vec<(String, Vec<LspDiagnostic>)> = Vec::new();
    for e in it: sa
        invariant
            it.seq() == sav,
            state.diagnostics@ == upd(m0, sav.take(it.index() as int)),
            pviews(publish@) == pviews(sav.take(it.index() as int)),
            state.file_models@ == st.file_models@,
            state.model_index@ == st.model_index@,
            state.table_index@ == st.table_index@,
            state.file_sources@ == st.file_sources@,
            state.parse_trees@ == st.parse_trees@,
            state.migration_files@ == st.migration_files@,
            state.revision_index@ == st.revision_index@,
            state.open_uris@ == st.open_uris@,
    {
        let ghost k = it.index() as int;
        assert(e == sav[k]);
        let (u, d) = e;
        assert(u == sav[k].0 && d == sav[k].1);
        let ghost pb = publish@;
        let uc = u.clone();
        let dc = crate::diagnostics::copy_diags(&d);
        let ghost item = (uc, dc);
        publish.push((uc, dc));
        state.diagnostics.insert(u, d);
        proof {
            lemma_pviews_push(pb, item);
            assert(sav.take(k + 1) =~= sav.take(k).push(sav[k]));
            lemma_pviews_push(sav.take(k), sav[k]);
            assert(sav.take(k + 1).drop_last() =~= sav.take(k));
        }
    }
    assert(sav.take(sav.len() as int) =~= sav);
    assert(publish@.take(publish@.len() as int) =~= publish@);
    let ghost m1 = state.diagnostics@;
    let ghost np = publish@.len();
    for e in it: mig
        invariant
            it.seq() == migv,
            np == sav.len(),
            sav.len() <= publish@.len(),
            state.diagnostics@ == upd(m1, migv.take(it.index() as int)),
            pviews(publish@.take(np as int)) == pviews(sav),
            forall|k: int|
                np <= k < publish@.len() ==> exists|x: int|
                    0 <= x < it.index() && migv[x].0@ == (#[trigger] publish@[k]).0@ && migv[x].1@ == publish@[k].1@
                        && !st.file_models@.contains_key(migv[x].0@),
            state.file_models@ == st.file_models@,
            state.model_index@ == st.model_index@,
            state.table_index@ == st.table_index@,
            state.file_sources@ == st.file_sources@,
            state.parse_trees@ == st.parse_trees@,
            state.migration_files@ == st.migration_files@,
            state.revision_index@ == st.revision_index@,
            state.open_uris@ == st.open_uris@,
    {
        let ghost k = it.index() as int;
        let ghost before = publish@;
        let (u, d) = e;
        if !state.file_models.contains_key(u.as_str()) {
            publish.push((u.clone(), crate::diagnostics::copy_diags(&d)));
            proof {
                assert(publish@.take(np as int) =~= before.take(np as int));
                assert(publish@[publish@.len() - 1].0@ == migv[k].0@);
                assert(publish@[publish@.len() - 1].1@ == migv[k].1@);
            }
        }
        state.diagnostics.insert(u, d);
        proof {
            assert(migv.take(k + 1).drop_last() =~= migv.take(k));
        }
    }
    assert(migv.take(migv.len() as int) =~= migv);
    proof {
        lemma_relink_final(st, c, m0, sav, migv, publish@);
    }
    publish
}

/// The stored diagnostics after both write passes, and what is published.
proof fn lemma_relink_final(
    st: WorkspaceState,
    c: Option<DiagnosticsConfig>,
    m0: Map<Seq<char>, Vec<LspDiagnostic>>,
    sav: Seq<(String, Vec<LspDiagnostic>)>,
    migv: Seq<(String, Vec<LspDiagnostic>)>,
    publish: Seq<(String, Vec<LspDiagnostic>)>,
)
    requires
        m0 == st.diagnostics@,
        keys_distinct(st.file_models.seq()),
        keys_distinct(st.migration_files.seq()),
        sav.len() == st.file_models.seq().len(),
        forall|k: int|
            0 <= k < sav.len() ==> (#[trigger] sav[k]).0@ == st.file_models.seq()[k].0@ && model_diags_ok(st, c, sav[k].0@, sav[k].1@),
        migv.len() == st.migration_files.seq().len(),
        forall|k: int|
            0 <= k < migv.len() ==> (#[trigger] migv[k]).0@ == st.migration_files.seq()[k].0@ && mig_diags_ok(st, c, migv[k].0@, migv[k].1@),
        sav.len() <= publish.len(),
        pviews(publish.take(sav.len() as int)) == pviews(sav),
        forall|k: int|
            sav.len() <= k < publish.len() ==> exists|x: int|
                0 <= x < migv.len() && migv[x].0@ == (#[trigger] publish[k]).0@ && migv[x].1@ == publish[k].1@
                    && !st.file_models@.contains_key(migv[x].0@),
    ensures
        ({
            let fin = upd(upd(m0, sav), migv);
            &&& forall|u: Seq<char>|
                #[trigger] fin.contains_key(u) <==> (st.diagnostics@.contains_key(u) || st.file_models@.contains_key(u)
                    || st.migration_files@.contains_key(u))
            &&& forall|u: Seq<char>|
                st.file_models@.contains_key(u) && !st.migration_files@.contains_key(u) ==> model_diags_ok(st, c, u, #[trigger] fin[u]@)
            &&& forall|u: Seq<char>| st.migration_files@.contains_key(u) ==> mig_diags_ok(st, c, u, #[trigger] fin[u]@)
            &&& forall|u: Seq<char>|
                !st.file_models@.contains_key(u) && !st.migration_files@.contains_key(u) && st.diagnostics@.contains_key(u)
                    ==> #[trigger] fin[u] == st.diagnostics@[u]
            &&& forall|i: int|
                0 <= i < st.file_models.seq().len() ==> (#[trigger] publish[i]).0@ == st.file_models.seq()[i].0@
                    && model_diags_ok(st, c, publish[i].0@, publish[i].1@)
            &&& forall|i: int|
                st.file_models.seq().len() <= i < publish.len() ==> st.migration_files@.contains_key((#[trigger] publish[i]).0@)
                    && !st.file_models@.contains_key(publish[i].0@) && publish[i].1@ == fin[publish[i].0@]@
        }),
{
    let fs = st.file_models.seq();
    let ms = st.migration_files.seq();
    st.file_models.lemma_seq();
    st.migration_files.lemma_seq();
    assert(keys_distinct(sav)) by {
        assert forall|i: int, j: int| 0 <= i < sav.len() && 0 <= j < sav.len() && i != j implies sav[i].0@ != sav[j].0@ by {
            assert(sav[i].0@ == fs[i].0@);
            assert(sav[j].0@ == fs[j].0@);
        }
    }
    assert(keys_distinct(migv)) by {
        assert forall|i: int, j: int| 0 <= i < migv.len() && 0 <= j < migv.len() && i != j implies migv[i].0@ != migv[j].0@ by {
            assert(migv[i].0@ == ms[i].0@);
            assert(migv[j].0@ == ms[j].0@);
        }
    }
    let m1 = upd(m0, sav);
    let fin = upd(m1, migv);
    lemma_upd(m0, sav);
    lemma_upd(m1, migv);
    // keys of the written entries are exactly the indexed files
    assert forall|u: Seq<char>| st.file_models@.contains_key(u) implies exists|k: int|
        0 <= k < sav.len() && #[trigger] sav[k].0@ == u by {
        let k = crate::strmap::key_index(fs, u);
        crate::strmap::lemma_key_index(fs, u);
        assert(sav[k].0@ == fs[k].0@);
    }
    assert forall|u: Seq<char>| st.migration_files@.contains_key(u) implies exists|k: int|
        0 <= k < migv.len() && #[trigger] migv[k].0@ == u by {
        let k = crate::strmap::key_index(ms, u);
        crate::strmap::lemma_key_index(ms, u);
        assert(migv[k].0@ == ms[k].0@);
    }
    assert forall|k: int| 0 <= k < sav.len() implies st.file_models@.contains_key(#[trigger] sav[k].0@) by {
        assert(st.file_models@.contains_key(fs[k].0@));
    }
    assert forall|k: int| 0 <= k < migv.len() implies st.migration_files@.contains_key(#[trigger] migv[k].0@) by {
        assert(st.migration_files@.contains_key(ms[k].0@));
    }
    assert forall|u: Seq<char>|
        st.file_models@.contains_key(u) && !st.migration_files@.contains_key(u) implies model_diags_ok(
        st,
        c,
        u,
        #[trigger] fin[u]@,
    ) by {
        let k = choose|k: int| 0 <= k < sav.len() && #[trigger] sav[k].0@ == u;
        assert forall|x: int| 0 <= x < migv.len() implies #[trigger] migv[x].0@ != u by {
            if migv[x].0@ == u {
                assert(st.migration_files@.contains_key(migv[x].0@));
            }
        }
        assert(!has_key(migv, u));
        assert(fin[u] == m1[u]);
        assert(m1[u] == sav[k].1);
    }
    assert forall|u: Seq<char>| st.migration_files@.contains_key(u) implies mig_diags_ok(st, c, u, #[trigger] fin[u]@) by {
        let k = choose|k: int| 0 <= k < migv.len() && #[trigger] migv[k].0@ == u;
        assert(fin[u] == migv[k].1);
    }
    assert forall|u: Seq<char>|
        !st.file_models@.contains_key(u) && !st.migration_files@.contains_key(u) && st.diagnostics@.contains_key(u)
        implies #[trigger] fin[u] == st.diagnostics@[u] by {
        assert forall|x: int| 0 <= x < migv.len() implies #[trigger] migv[x].0@ != u by {
            if migv[x].0@ == u {
                assert(st.migration_files@.contains_key(migv[x].0@));
            }
        }
        assert(!has_key(migv, u));
        assert forall|x: int| 0 <= x < sav.len() implies #[trigger] sav[x].0@ != u by {
            if sav[x].0@ == u {
                assert(st.file_models@.contains_key(sav[x].0@));
            }
        }
        assert(!has_key(sav, u));
        assert(m1.contains_key(u) == m0.contains_key(u) && m1[u] == m0[u]);
        assert(fin.contains_key(u) == m1.contains_key(u) && fin[u] == m1[u]);
    }
    assert forall|u: Seq<char>|
        #[trigger] fin.contains_key(u) <==> (st.diagnostics@.contains_key(u) || st.file_models@.contains_key(u)
            || st.migration_files@.contains_key(u)) by {
        if fin.contains_key(u) {
            if !m1.contains_key(u) {
                let x = choose|x: int| 0 <= x < migv.len() && #[trigger] migv[x].0@ == u;
                assert(st.migration_files@.contains_key(migv[x].0@));
            } else if !m0.contains_key(u) {
                assert(upd(m0, sav).contains_key(u));
                let x = choose|x: int| 0 <= x < sav.len() && #[trigger] sav[x].0@ == u;
                assert(st.file_models@.contains_key(sav[x].0@));
            }
        }
        if st.migration_files@.contains_key(u) {
            let k = choose|k: int| 0 <= k < migv.len() && #[trigger] migv[k].0@ == u;
            assert(fin.contains_key(migv[k].0@));
        } else {
            assert forall|x: int| 0 <= x < migv.len() implies #[trigger] migv[x].0@ != u by {
                if migv[x].0@ == u {
                    assert(st.migration_files@.contains_key(migv[x].0@));
                }
            }
            assert(!has_key(migv, u));
            assert(fin.contains_key(u) == m1.contains_key(u));
            if st.file_models@.contains_key(u) {
                let k = choose|k: int| 0 <= k < sav.len() && #[trigger] sav[k].0@ == u;
                assert(m1.contains_key(sav[k].0@));
            } else if st.diagnostics@.contains_key(u) {
                assert forall|x: int| 0 <= x < sav.len() implies #[trigger] sav[x].0@ != u by {
                    if sav[x].0@ == u {
                        assert(st.file_models@.contains_key(sav[x].0@));
                    }
                }
                assert(!has_key(sav, u));
                assert(m1.contains_key(u) == m0.contains_key(u));
            }
        }
    }
    assert forall|i: int| 0 <= i < fs.len() implies (#[trigger] publish[i]).0@ == fs[i].0@ && model_diags_ok(
        st,
        c,
        publish[i].0@,
        publish[i].1@,
    ) by {
        assert(publish[i] == publish.take(sav.len() as int)[i]);
        assert(pviews(publish.take(sav.len() as int))[i] == pviews(sav)[i]);
    }
    assert forall|i: int| fs.len() <= i < publish.len() implies st.migration_files@.contains_key(
        (#[trigger] publish[i]).0@,
    ) && !st.file_models@.contains_key(publish[i].0@) && publish[i].1@ == fin[publish[i].0@]@ by {
        let x = choose|x: int|
            0 <= x < migv.len() && migv[x].0@ == (#[trigger] publish[i]).0@ && migv[x].1@ == publish[i].1@
                && !st.file_models@.contains_key(migv[x].0@);
        assert(st.migration_files@.contains_key(migv[x].0@));
        assert(fin[migv[x].0@] == migv[x].1);
    }
}

} // verus!
