//! Indexing a whole workspace from its files' text: each file is parsed,
//! indexed when it looks like a SQLAlchemy module or an Alembic migration,
//! and then every file's diagnostics are computed.
use vstd::prelude::*;

use crate::extract::{
    col_args_pre, constraint_pre, field_text, fk_pre, model_pre, models_pre, rel_arg_pre, rel_args,
    rel_args_pre, stmt_pre, table_args_pre, unwrap_stmt,
};
use crate::extractor::{mapped_type_ok, mapped_type_ok_exec, quotes_ok, string_quotes_ok};
use crate::migration::{body_ops_pre, kids_ops_pre, mig_fold, mig_step_pre, migration_pre, op_pre, stmt_ops_pre};
use crate::parse::{parse_python, python_tree};
use crate::pipeline::{
    alembic_indicated, index_pre, index_source, indexed, mig_diags_ok, model_diags_ok, relink,
};
use crate::python::sqlalchemy_indicated;
use crate::state::WorkspaceState;
use crate::syntax::{field_child, field_child_from, has_field, is_kind, named_kids, SyntaxNode};
use crate::text::str_eq;

verus! {

// ── A check on trees that stands for the extraction's preconditions ────────

/// What a child `c` of `p` must satisfy: the texts extraction strips of
/// quotes (string literals, `value` and `right` fields, arguments of a
/// call) have well-formed quotes, and a `type` field is a parsable
/// annotation.
pub open spec fn child_ok(p: SyntaxNode, c: SyntaxNode) -> bool {
    &&& (is_kind(c, "string"@) || has_field(c, "value"@) || has_field(c, "right"@) || has_field(
        p,
        "arguments"@,
    )) ==> string_quotes_ok(c.text@)
    &&& has_field(c, "type"@) ==> mapped_type_ok(c.text@)
}

/// Every child below `n` satisfies `child_ok`.
pub open spec fn tree_ok(n: SyntaxNode) -> bool
    decreases n, 1nat, 0nat,
{
    kids_ok(n, 0)
}

/// The children of `n` from the `i`-th on, and all below them, are fine.
pub open spec fn kids_ok(n: SyntaxNode, i: nat) -> bool
    decreases n, 0nat, n.children@.len() - i,
{
    if i >= n.children@.len() {
        true
    } else {
        let c = n.children@[i as int];
        proof {
            assert(decreases_to!(n => n.children));
            assert(decreases_to!(n.children => n.children@));
            assert(decreases_to!(n.children@ => c));
        }
        child_ok(n, c) && tree_ok(c) && kids_ok(n, i + 1)
    }
}

fn has_field_exec(n: &SyntaxNode, f: &str) -> (r: bool)
    ensures
        r == has_field(*n, f@),
{
    match &n.field {
        Some(x) => str_eq(x.as_str(), f),
        None => false,
    }
}

fn child_ok_exec(p: &SyntaxNode, c: &SyntaxNode) -> (r: bool)
    ensures
        r == child_ok(*p, *c),
{
    let quoted = crate::syntax::kind_is(c, "string") || has_field_exec(c, "value") || has_field_exec(
        c,
        "right",
    ) || has_field_exec(p, "arguments");
    if quoted && !quotes_ok(c.text.as_str()) {
        return false;
    }
    !has_field_exec(c, "type") || mapped_type_ok_exec(c.text.as_str())
}

/// Whether a tree passes `tree_ok`.
pub fn tree_ok_exec(n: &SyntaxNode) -> (r: bool)
    ensures
        r == tree_ok(*n),
    decreases n,
{
    let len = n.children.len();
    let mut i: usize = len;
    let mut acc = true;
    while i > 0
        invariant
            i <= len,
            len == n.children@.len(),
            acc == kids_ok(*n, i as nat),
        decreases i,
    {
        i = i - 1;
        let c = &n.children[i];
        proof {
            assert(decreases_to!(n => n.children));
            assert(decreases_to!(n.children => n.children@));
            assert(decreases_to!(n.children@ => *c));
        }
        let ok = child_ok_exec(n, c) && tree_ok_exec(c);
        acc = ok && acc;
    }
    acc
}

// ── Why the check suffices ──────────────────────────────────────────────────

proof fn lemma_kids(n: SyntaxNode, i: nat, j: int)
    requires
        kids_ok(n, i),
        i <= j < n.children@.len(),
    ensures
        child_ok(n, n.children@[j]),
        tree_ok(n.children@[j]),
    decreases j - i,
{
    if i < j {
        lemma_kids(n, i + 1, j);
    }
}

proof fn lemma_in(n: SyntaxNode, c: SyntaxNode)
    requires
        tree_ok(n),
        n.children@.contains(c),
    ensures
        child_ok(n, c),
        tree_ok(c),
{
    let j = choose|j: int| 0 <= j < n.children@.len() && n.children@[j] == c;
    lemma_kids(n, 0, j);
}

proof fn lemma_named(n: SyntaxNode, i: int)
    requires
        0 <= i < named_kids(n).len(),
    ensures
        n.children@.contains(named_kids(n)[i]),
        named_kids(n)[i].named,
{
    let f = |c: SyntaxNode| c.named;
    n.children@.lemma_filter_pred(f, i);
    assert(named_kids(n).contains(named_kids(n)[i]));
    n.children@.lemma_filter_contains_rev(f, named_kids(n)[i]);
}

proof fn lemma_field_from(kids: Seq<SyntaxNode>, f: Seq<char>, i: int)
    requires
        field_child_from(kids, f, i) is Some,
    ensures
        kids.contains(field_child_from(kids, f, i)->0),
        has_field(field_child_from(kids, f, i)->0, f),
    decreases kids.len() - i,
{
    if 0 <= i < kids.len() && !has_field(kids[i], f) {
        lemma_field_from(kids, f, i + 1);
    } else {
        assert(kids[i] == field_child_from(kids, f, i)->0);
    }
}

proof fn lemma_field(n: SyntaxNode, f: Seq<char>)
    requires
        field_child(n, f) is Some,
    ensures
        n.children@.contains(field_child(n, f)->0),
        has_field(field_child(n, f)->0, f),
{
    lemma_field_from(n.children@, f, 0);
}

/// A field child of a checked node is checked too.
proof fn lemma_field_ok(n: SyntaxNode, f: Seq<char>)
    requires
        tree_ok(n),
        field_child(n, f) is Some,
    ensures
        tree_ok(field_child(n, f)->0),
        child_ok(n, field_child(n, f)->0),
        has_field(field_child(n, f)->0, f),
{
    lemma_field(n, f);
    lemma_in(n, field_child(n, f)->0);
}

/// A named child of a checked node is checked too.
proof fn lemma_named_ok(n: SyntaxNode, i: int)
    requires
        tree_ok(n),
        0 <= i < named_kids(n).len(),
    ensures
        tree_ok(named_kids(n)[i]),
        child_ok(n, named_kids(n)[i]),
{
    lemma_named(n, i);
    lemma_in(n, named_kids(n)[i]);
}

proof fn lemma_empty_quotes()
    ensures
        string_quotes_ok(Seq::<char>::empty()),
{
    reveal_strlit("\"\"\"");
    reveal_strlit("'''");
}

proof fn lemma_field_text_quotes(n: SyntaxNode, f: Seq<char>)
    requires
        tree_ok(n),
        f == "value"@ || f == "right"@,
    ensures
        string_quotes_ok(field_text(n, f)),
{
    lemma_empty_quotes();
    if field_child(n, f) is Some {
        lemma_field_ok(n, f);
    }
}

proof fn lemma_field_text_type(n: SyntaxNode)
    requires
        tree_ok(n),
        field_child(n, "type"@) is Some,
    ensures
        mapped_type_ok(field_text(n, "type"@)),
{
    lemma_field_ok(n, "type"@);
}

/// The statement below an expression statement, like the statement itself,
/// is checked, and a string literal there has well-formed quotes.
proof fn lemma_unwrap(outer: SyntaxNode)
    requires
        tree_ok(outer),
        is_kind(outer, "string"@) ==> string_quotes_ok(outer.text@),
    ensures
        tree_ok(unwrap_stmt(outer)),
        is_kind(unwrap_stmt(outer), "string"@) ==> string_quotes_ok(unwrap_stmt(outer).text@),
{
    if is_kind(outer, "expression_statement"@) && named_kids(outer).len() > 0 {
        lemma_named_ok(outer, 0);
    }
}

proof fn lemma_constraint(call: SyntaxNode)
    requires
        tree_ok(call),
    ensures
        constraint_pre(call),
{
    if field_child(call, "arguments"@) is Some {
        lemma_field_ok(call, "arguments"@);
        let a = field_child(call, "arguments"@)->0;
        let kids = named_kids(a);
        assert forall|i: int| 0 <= i < kids.len() && is_kind(kids[i], "string"@) implies string_quotes_ok(
            #[trigger] kids[i].text@,
        ) by {
            lemma_named_ok(a, i);
        }
        assert forall|i: int|
            0 <= i < kids.len() && is_kind(kids[i], "keyword_argument"@) && field_text(kids[i], "name"@)
                == "name"@ implies string_quotes_ok(field_text(#[trigger] kids[i], "value"@)) by {
            lemma_named_ok(a, i);
            lemma_field_text_quotes(kids[i], "value"@);
        }
    }
}

proof fn lemma_table_args(v: SyntaxNode)
    requires
        tree_ok(v),
    ensures
        table_args_pre(v),
{
    assert forall|i: int|
        0 <= i < named_kids(v).len() && is_kind(named_kids(v)[i], "call"@) implies constraint_pre(
        #[trigger] named_kids(v)[i],
    ) by {
        lemma_named_ok(v, i);
        lemma_constraint(named_kids(v)[i]);
    }
    lemma_constraint(v);
}

proof fn lemma_rel_args(a: SyntaxNode)
    requires
        tree_ok(a),
    ensures
        rel_args_pre(named_kids(a)),
{
    let kids = named_kids(a);
    assert forall|i: int| 0 <= i < kids.len() implies rel_arg_pre(rel_args(kids.take(i)), #[trigger] kids[i]) by {
        lemma_named_ok(a, i);
        lemma_field_text_quotes(kids[i], "value"@);
    }
}

proof fn lemma_col_args(a: SyntaxNode, sv: crate::extractor::SymV)
    requires
        tree_ok(a),
    ensures
        col_args_pre(named_kids(a), sv),
{
    let kids = named_kids(a);
    assert forall|i: int|
        0 <= i < kids.len() && is_kind(kids[i], "call"@) && crate::extract::is_fk_call(kids[i], sv) implies fk_pre(
        #[trigger] kids[i],
    ) by {
        lemma_named_ok(a, i);
        let k = kids[i];
        if field_child(k, "arguments"@) is Some {
            lemma_field_ok(k, "arguments"@);
            let a2 = field_child(k, "arguments"@)->0;
            if named_kids(a2).len() > 0 {
                lemma_named_ok(a2, 0);
            }
        }
    }
}

proof fn lemma_stmt(outer: SyntaxNode, first: bool, sv: crate::extractor::SymV)
    requires
        tree_ok(outer),
        is_kind(outer, "string"@) ==> string_quotes_ok(outer.text@),
    ensures
        stmt_pre(outer, first, sv),
{
    lemma_unwrap(outer);
    let s = unwrap_stmt(outer);
    lemma_field_text_quotes(s, "right"@);
    if field_child(s, "type"@) is Some {
        lemma_field_text_type(s);
    }
    if field_child(s, "right"@) is Some {
        lemma_field_ok(s, "right"@);
        let r = field_child(s, "right"@)->0;
        lemma_table_args(r);
        if field_child(r, "arguments"@) is Some {
            lemma_field_ok(r, "arguments"@);
            let a = field_child(r, "arguments"@)->0;
            lemma_rel_args(a);
            lemma_col_args(a, sv);
        }
    }
}

proof fn lemma_models(root: SyntaxNode)
    requires
        tree_ok(root),
    ensures
        models_pre(root),
{
    let sv = crate::extract::file_sym(root);
    assert forall|i: int|
        0 <= i < named_kids(root).len() && is_kind(named_kids(root)[i], "class_definition"@) implies model_pre(
        #[trigger] named_kids(root)[i],
        sv,
    ) by {
        lemma_named_ok(root, i);
        let class = named_kids(root)[i];
        if field_child(class, "body"@) is Some {
            lemma_field_ok(class, "body"@);
            let b = field_child(class, "body"@)->0;
            let kids = named_kids(b);
            assert forall|j: int| 0 <= j < kids.len() implies stmt_pre(#[trigger] kids[j], j == 0, sv) by {
                lemma_named_ok(b, j);
                lemma_stmt(kids[j], j == 0, sv);
            }
        }
    }
}

proof fn lemma_stmt_ops(c: SyntaxNode)
    requires
        tree_ok(c),
    ensures
        stmt_ops_pre(c),
    decreases c, 2nat, 0nat,
{
    if is_kind(c, "expression_statement"@) {
        if named_kids(c).len() > 0 {
            lemma_named_ok(c, 0);
            let e = named_kids(c)[0];
            if field_child(e, "arguments"@) is Some {
                lemma_field_ok(e, "arguments"@);
                let args = field_child(e, "arguments"@)->0;
                let nk = named_kids(args);
                let ps = crate::migration::positional(args);
                let pf = |n: SyntaxNode| !is_kind(n, "keyword_argument"@);
                assert forall|t: int| 0 <= t < ps.len() implies string_quotes_ok(#[trigger] ps[t].text@)
                    || !is_kind(ps[t], "string"@) by {
                    assert(ps.contains(ps[t]));
                    nk.lemma_filter_contains_rev(pf, ps[t]);
                    let k = choose|k: int| 0 <= k < nk.len() && nk[k] == ps[t];
                    lemma_named_ok(args, k);
                }
            }
        }
    } else if is_kind(c, "with_statement"@) || is_kind(c, "if_statement"@) || is_kind(c, "block"@)
        || is_kind(c, "try_statement"@) {
        lemma_body_ops(c);
    }
}

proof fn lemma_body_ops(n: SyntaxNode)
    requires
        tree_ok(n),
    ensures
        body_ops_pre(n),
    decreases n, 1nat, 0nat,
{
    lemma_kids_ops(n, 0);
}

proof fn lemma_kids_ops(n: SyntaxNode, i: nat)
    requires
        tree_ok(n),
    ensures
        kids_ops_pre(n, i),
    decreases n, 0nat, n.children@.len() - i,
{
    if i < n.children@.len() {
        let c = n.children@[i as int];
        assert(decreases_to!(n => n.children));
        assert(decreases_to!(n.children => n.children@));
        assert(decreases_to!(n.children@ => c));
        lemma_kids(n, 0, i as int);
        lemma_stmt_ops(c);
        lemma_kids_ops(n, i + 1);
    }
}

proof fn lemma_migration(root: SyntaxNode)
    requires
        tree_ok(root),
    ensures
        migration_pre(root),
{
    let kids = named_kids(root);
    assert forall|i: int| 0 <= i < kids.len() implies mig_step_pre(mig_fold(kids.take(i)), #[trigger] kids[i]) by {
        lemma_named_ok(root, i);
        lemma_unwrap(kids[i]);
        let node = unwrap_stmt(kids[i]);
        if field_child(node, "right"@) is Some {
            lemma_field_ok(node, "right"@);
            let r = field_child(node, "right"@)->0;
            assert forall|j: int| 0 <= j < named_kids(r).len() && is_kind(named_kids(r)[j], "string"@) implies string_quotes_ok(
                #[trigger] named_kids(r)[j].text@,
            ) by {
                lemma_named_ok(r, j);
            }
        }
        if field_child(node, "body"@) is Some {
            lemma_field_ok(node, "body"@);
            lemma_body_ops(field_child(node, "body"@)->0);
        }
    }
}

/// A tree that passes the check meets what indexing a file requires.
pub proof fn lemma_tree_ok_index_pre(source: Seq<char>, root: SyntaxNode)
    requires
        tree_ok(root),
    ensures
        index_pre(source, root),
{
    lemma_models(root);
    lemma_migration(root);
}

// ── Indexing a workspace ─────────────────────────────────────────────────────

/// Every index of `st` is empty.
pub open spec fn empty_state(st: WorkspaceState) -> bool {
    &&& st.file_models@ == Map::<Seq<char>, Vec<crate::types::Model>>::empty()
    &&& st.model_index@ == Map::<Seq<char>, crate::types::ModelLocation>::empty()
    &&& st.table_index@ == Map::<Seq<char>, String>::empty()
    &&& st.file_sources@ == Map::<Seq<char>, String>::empty()
    &&& st.parse_trees@ == Map::<Seq<char>, SyntaxNode>::empty()
    &&& st.migration_files@ == Map::<Seq<char>, crate::alembic::MigrationFile>::empty()
    &&& st.revision_index@ == Map::<Seq<char>, String>::empty()
    &&& st.diagnostics@ == Map::<Seq<char>, Vec<crate::diagnostics::LspDiagnostic>>::empty()
    &&& st.open_uris@ == Map::<Seq<char>, ()>::empty()
}

/// `new` is `old` after one file (its URI, its text) is read in: when the
/// text parses and looks like a SQLAlchemy module or a migration, its tree
/// is indexed and its text recorded; otherwise nothing changes.
pub open spec fn index_step(old: WorkspaceState, new: WorkspaceState, f: (String, String)) -> bool {
    match python_tree(f.1@) {
        Some(t) => if sqlalchemy_indicated(f.1@) || alembic_indicated(f.1@) {
            indexed(old, new, f.0, f.1@, t) && new.file_sources@ == old.file_sources@.insert(f.0@, f.1)
        } else {
            new == old
        },
        None => new == old,
    }
}

/// `st` is what reading `files` in order into an empty index can give.
pub open spec fn scanned(files: Seq<(String, String)>, st: WorkspaceState) -> bool
    decreases files.len(),
{
    if files.len() == 0 {
        empty_state(st)
    } else {
        exists|mid: WorkspaceState| scanned(files.drop_last(), mid) && #[trigger] index_step(mid, st, files.last())
    }
}

/// `fin` is `st` with every file's diagnostics computed (no configuration):
/// the indexes unchanged, and each model or migration file holding what the
/// rules report on it.
pub open spec fn relinked(st: WorkspaceState, fin: WorkspaceState) -> bool {
    &&& fin.file_models@ == st.file_models@
    &&& fin.model_index@ == st.model_index@
    &&& fin.table_index@ == st.table_index@
    &&& fin.file_sources@ == st.file_sources@
    &&& fin.parse_trees@ == st.parse_trees@
    &&& fin.migration_files@ == st.migration_files@
    &&& fin.revision_index@ == st.revision_index@
    &&& fin.open_uris@ == st.open_uris@
    &&& forall|u: Seq<char>|
        #[trigger] fin.diagnostics@.contains_key(u) <==> (st.diagnostics@.contains_key(u)
            || st.file_models@.contains_key(u) || st.migration_files@.contains_key(u))
    &&& forall|u: Seq<char>|
        st.file_models@.contains_key(u) && !st.migration_files@.contains_key(u) ==> model_diags_ok(
            st,
            None,
            u,
            #[trigger] fin.diagnostics@[u]@,
        )
    &&& forall|u: Seq<char>|
        st.migration_files@.contains_key(u) ==> mig_diags_ok(st, None, u, #[trigger] fin.diagnostics@[u]@)
    &&& forall|u: Seq<char>|
        !st.file_models@.contains_key(u) && !st.migration_files@.contains_key(u) && st.diagnostics@.contains_key(u)
            ==> #[trigger] fin.diagnostics@[u] == st.diagnostics@[u]
}

/// Every file's tree, where it parses, can be indexed.
pub open spec fn files_indexable(files: Seq<(String, String)>) -> bool {
    forall|i: int|
        0 <= i < files.len() ==> (python_tree((#[trigger] files[i]).1@) matches Some(t) ==> index_pre(
            files[i].1@,
            t,
        ))
}

/// Index a workspace given as (URI, text) pairs: parse and index each file
/// in order, then compute every file's diagnostics.
pub fn index_files(files: &Vec<(String, String)>) -> (st: WorkspaceState)
    requires
        files_indexable(files@),
    ensures
        exists|mid: WorkspaceState| scanned(files@, mid) && relinked(mid, st),
{
    let mut state = WorkspaceState::new();
    assert(files@.take(0) =~= Seq::<(String, String)>::empty());
    let mut i: usize = 0;
    while i < files.len()
        invariant
            i <= files@.len(),
            files_indexable(files@),
            scanned(files@.take(i as int), state),
        decreases files@.len() - i,
    {
        let ghost before = state;
        let f = &files[i];
        match parse_python(f.1.as_str()) {
            Some(t) => {
                assert(index_pre(files@[i as int].1@, t));
                let _ = index_source(&mut state, &f.0, f.1.clone(), t);
            },
            None => {},
        }
        proof {
            assert(files@.take(i + 1).drop_last() =~= files@.take(i as int));
            assert(files@.take(i + 1).last() == files@[i as int]);
            assert(index_step(before, state, files@[i as int]));
        }
        i = i + 1;
    }
    assert(files@.take(files@.len() as int) =~= files@);
    let ghost mid = state;
    let _ = relink(&mut state, None);
    assert(scanned(files@, mid));
    assert(relinked(mid, state));
    state
}

/// A file passes the tree check (or does not parse at all).
pub open spec fn file_checked(f: (String, String)) -> bool {
    match python_tree(f.1@) {
        Some(t) => tree_ok(t),
        None => true,
    }
}

/// Index a workspace given as (URI, text) pairs, leaving out the files whose
/// tree fails `tree_ok` (the check that stands for what extraction needs of
/// a tree); the others are read in order, then every file's diagnostics are
/// computed. Every tree on which extraction would slice a quoted text or an
/// annotation out of bounds fails the check (`lemma_tree_ok_index_pre`),
/// so those files are left out rather than indexed.
pub fn index_workspace(files: &Vec<(String, String)>) -> (st: WorkspaceState)
    ensures
        exists|mid: WorkspaceState|
            scanned(files@.filter(|f: (String, String)| file_checked(f)), mid) && relinked(mid, st),
{
    let ghost pred = |f: (String, String)| file_checked(f);
    let mut kept: Vec<(String, String)> = Vec::new();
    let mut i: usize = 0;
    while i < files.len()
        invariant
            i <= files@.len(),
            pred == (|f: (String, String)| file_checked(f)),
            kept@ == files@.take(i as int).filter(pred),
        decreases files@.len() - i,
    {
        let f = &files[i];
        let ok = match parse_python(f.1.as_str()) {
            Some(t) => tree_ok_exec(&t),
            None => true,
        };
        proof {
            assert(files@.take(i + 1) =~= files@.take(i as int).push(files@[i as int]));
            files@.take(i as int).lemma_filter_push(files@[i as int], pred);
        }
        if ok {
            kept.push((f.0.clone(), f.1.clone()));
        }
        i = i + 1;
    }
    assert(files@.take(files@.len() as int) =~= files@);
    proof {
        assert forall|k: int| 0 <= k < kept@.len() implies (python_tree((#[trigger] kept@[k]).1@) matches Some(t)
            ==> index_pre(kept@[k].1@, t)) by {
            files@.lemma_filter_pred(pred, k);
            if python_tree(kept@[k].1@) is Some {
                lemma_tree_ok_index_pre(kept@[k].1@, python_tree(kept@[k].1@)->0);
            }
        }
    }
    index_files(&kept)
}

/// Re-index a file the editor changed (its text already recorded): parse
/// it, and when its tree passes `tree_ok`, index it and give back the
/// diagnostics last computed for it. When the text does not parse, or its
/// tree fails the check, the index is left as it was and `None` comes back.
pub fn reindex_changed(state: &mut WorkspaceState, uri: &String, source: &str) -> (r: Option<
    Vec<crate::diagnostics::LspDiagnostic>,
>)
    ensures
        match python_tree(source@) {
            Some(t) => if tree_ok(t) {
                &&& r is Some
                &&& indexed(*old(state), *final(state), *uri, source@, t)
                &&& final(state).file_sources@ == old(state).file_sources@
                &&& r->0@ == (if old(state).diagnostics@.contains_key(uri@) {
                    old(state).diagnostics@[uri@]@
                } else {
                    Seq::empty()
                })
            } else {
                r is None && *final(state) == *old(state)
            },
            None => r is None && *final(state) == *old(state),
        },
{
    match parse_python(source) {
        Some(t) => {
            if tree_ok_exec(&t) {
                proof {
                    lemma_tree_ok_index_pre(source@, t);
                }
                Some(crate::pipeline::index_changed(state, uri, source, t))
            } else {
                None
            }
        },
        None => None,
    }
}

} // verus!
