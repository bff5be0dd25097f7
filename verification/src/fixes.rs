//! Applying text edits to a source, and `check --fix`: which fixes run, what
//! they do to the sources, and what is left to report.
use vstd::prelude::*;

use crate::code_action::{
    action_v, actions_spec, aviews, no_edits, provide_code_actions, resolve_code_action,
    resolve_spec, parens_ok, ActionV, CodeAction,
};
use crate::diagnostics::{dviews, DiagView, LspDiagnostic};
use crate::format::{Finding, FixResult};
use crate::rename::{cat_map, edits_for, groups, lemma_cat_map_take, tviews, EditV, TextEdit, WorkspaceEdit};
use crate::report::count_fix;
use crate::state::WorkspaceState;
use crate::strmap::StrMap;
use crate::types::FixKind;
use crate::sort::{kviews, sort_order, sorted_order};
use crate::text::{concat2, push_chars, push_str, split, split_exec, to_chars, to_owned};
use crate::types::Range;

verus! {

/// The smaller of `a` and `b`.
pub open spec fn min_int(a: int, b: int) -> int {
    if a <= b {
        a
    } else {
        b
    }
}

/// What line `i` of the `\n`-separated `ls` turns into under an edit from
/// (`sl`, `sc`) to (`el`, `ec`), columns counted in characters and clamped to
/// the line: lines before the edit stay, the start line keeps its head and
/// takes the new text, lines inside go, the end line keeps its tail.
pub open spec fn edit_piece(ls: Seq<Seq<char>>, i: int, r: Range, text: Seq<char>) -> Seq<char> {
    let line = ls[i];
    let sl = r.start_line as int;
    let el = r.end_line as int;
    let sc = min_int(r.start_col as int, line.len() as int);
    let ec = min_int(r.end_col as int, line.len() as int);
    if i < sl {
        line.push('\n')
    } else if i == sl && i == el {
        (line.take(sc) + text + line.skip(ec)).push('\n')
    } else if i == sl {
        line.take(sc) + text
    } else if sl < i && i < el {
        Seq::empty()
    } else if i == el && el > sl {
        line.skip(ec).push('\n')
    } else if i + 1 < ls.len() {
        line.push('\n')
    } else {
        line
    }
}

/// The pieces every line of `ls` turns into.
pub open spec fn edit_pieces(ls: Seq<Seq<char>>, r: Range, text: Seq<char>) -> Seq<Seq<char>> {
    Seq::new(ls.len(), |i: int| edit_piece(ls, i, r, text))
}

pub open spec fn ident() -> spec_fn(Seq<char>) -> Seq<char> {
    |p: Seq<char>| p
}

/// A source after one edit; an edit that starts past the last line appends
/// its text.
pub open spec fn one_edit(source: Seq<char>, e: (Range, Seq<char>)) -> Seq<char> {
    let ls = split(source, '\n');
    if (e.0.start_line as int) >= ls.len() {
        source + e.1
    } else {
        cat_map(edit_pieces(ls, e.0, e.1), ident())
    }
}

fn push_piece(out: &mut String, ls: &Vec<Vec<char>>, i: usize, r: Range, text: &str)
    requires
        i < ls@.len(),
    ensures
        final(out)@ == old(out)@ + edit_piece(ls@.map_values(|l: Vec<char>| l@), i as int, r, text@),
{
    let ghost lv = ls@.map_values(|l: Vec<char>| l@);
    let line = &ls[i];
    assert(line@ == lv[i as int]);
    let n = line.len();
    let sl = r.start_line as usize;
    let el = r.end_line as usize;
    let sc = if (r.start_col as usize) < n {
        r.start_col as usize
    } else {
        n
    };
    let ec = if (r.end_col as usize) < n {
        r.end_col as usize
    } else {
        n
    };
    let head = crate::text::slice_vec(line.as_slice(), 0, sc);
    let tail = crate::text::slice_vec(line.as_slice(), ec, n);
    proof {
        assert(head@ =~= line@.take(sc as int));
        assert(tail@ =~= line@.skip(ec as int));
    }
    let ghost o = out@;
    if i < sl {
        push_chars(out, line.as_slice());
        crate::text::push_char(out, '\n');
        assert(out@ =~= o + line@.push('\n'));
    } else if i == sl && i == el {
        push_chars(out, head.as_slice());
        push_str(out, text);
        push_chars(out, tail.as_slice());
        crate::text::push_char(out, '\n');
        assert(out@ =~= o + (head@ + text@ + tail@).push('\n'));
    } else if i == sl {
        push_chars(out, head.as_slice());
        push_str(out, text);
        assert(out@ =~= o + (head@ + text@));
    } else if sl < i && i < el {
        assert(out@ =~= o + Seq::<char>::empty());
    } else if i == el && el > sl {
        push_chars(out, tail.as_slice());
        crate::text::push_char(out, '\n');
        assert(out@ =~= o + tail@.push('\n'));
    } else if i < ls.len() - 1 {
        push_chars(out, line.as_slice());
        crate::text::push_char(out, '\n');
        assert(out@ =~= o + line@.push('\n'));
    } else {
        push_chars(out, line.as_slice());
    }
}

/// The source after one edit.
pub fn apply_one_edit(source: &str, edit: &TextEdit) -> (r: String)
    ensures
        r@ == one_edit(source@, edit@),
{
    let cs = to_chars(source);
    let ls = split_exec(cs.as_slice(), '\n');
    let ghost lv = ls@.map_values(|l: Vec<char>| l@);
    proof {
        assert(lv =~= split(source@, '\n'));
    }
    let n = ls.len();
    if (edit.range.start_line as usize) >= n {
        return concat2(source, edit.new_text.as_str());
    }
    let ghost pieces = edit_pieces(lv, edit.range, edit.new_text@);
    let mut out = String::new();
    let mut i: usize = 0;
    while i < n
        invariant
            n == ls@.len(),
            i <= n,
            lv == ls@.map_values(|l: Vec<char>| l@),
            pieces == edit_pieces(lv, edit.range, edit.new_text@),
            out@ == cat_map(pieces.take(i as int), ident()),
        decreases n - i,
    {
        proof {
            lemma_cat_map_take(pieces, ident(), i as int);
        }
        push_piece(&mut out, &ls, i, edit.range, edit.new_text.as_str());
        i = i + 1;
    }
    assert(pieces.take(n as int) =~= pieces);
    out
}

/// The order edits are applied in: by start position, last first, edits
/// that start at the same place in their given order.
pub open spec fn desc_key(e: (Range, Seq<char>)) -> Seq<u32> {
    seq![(u32::MAX - e.0.start_line) as u32, (u32::MAX - e.0.start_col) as u32]
}

/// The edits in the order they are applied.
pub open spec fn edits_desc(es: Seq<(Range, Seq<char>)>) -> Seq<(Range, Seq<char>)> {
    sorted_order(es.map_values(|e: (Range, Seq<char>)| desc_key(e))).map_values(|k: int| es[k])
}

/// A source after each of `es` in turn.
pub open spec fn apply_seq(source: Seq<char>, es: Seq<(Range, Seq<char>)>) -> Seq<char>
    decreases es.len(),
{
    if es.len() == 0 {
        source
    } else {
        one_edit(apply_seq(source, es.drop_last()), es.last())
    }
}

/// A source after a set of edits, applied from the last position back.
pub open spec fn all_edits(source: Seq<char>, es: Seq<(Range, Seq<char>)>) -> Seq<char> {
    apply_seq(source, edits_desc(es))
}

/// Apply edits to a source, from the last start position back so earlier
/// positions stay valid.
pub fn apply_text_edits(source: &str, edits: &Vec<TextEdit>) -> (r: String)
    ensures
        r@ == all_edits(source@, tviews(edits@)),
{
    let ghost ev = tviews(edits@);
    let ghost kf = |e: (Range, Seq<char>)| desc_key(e);
    let mut keys: Vec<Vec<u32>> = Vec::new();
    let mut i: usize = 0;
    while i < edits.len()
        invariant
            i <= edits@.len(),
            ev == tviews(edits@),
            keys@.len() == i,
            forall|j: int| 0 <= j < i ==> #[trigger] keys@[j]@ == desc_key(ev[j]),
        decreases edits@.len() - i,
    {
        let e = &edits[i];
        let kl: u32 = u32::MAX - e.range.start_line;
        let kc: u32 = u32::MAX - e.range.start_col;
        let mut k: Vec<u32> = Vec::new();
        k.push(kl);
        k.push(kc);
        assert(k@ =~= desc_key(ev[i as int]));
        keys.push(k);
        i = i + 1;
    }
    assert(kviews(keys@) =~= ev.map_values(kf));
    let order = sort_order(&keys);
    let ghost sorted = edits_desc(ev);
    assert(sorted.len() == order@.len());
    assert forall|k: int| 0 <= k < order@.len() implies #[trigger] sorted[k] == ev[order@[k] as int] by {
        assert(order@.map_values(|i: usize| i as int)[k] == order@[k] as int);
    }
    let mut result = to_owned(source);
    let mut k: usize = 0;
    while k < order.len()
        invariant
            k <= order@.len(),
            sorted.len() == order@.len(),
            ev == tviews(edits@),
            forall|j: int| 0 <= j < order@.len() ==> (#[trigger] order@[j]) < edits@.len(),
            forall|j: int| 0 <= j < order@.len() ==> #[trigger] sorted[j] == ev[order@[j] as int],
            result@ == apply_seq(source@, sorted.take(k as int)),
        decreases order@.len() - k,
    {
        let j = order[k];
        let next = apply_one_edit(result.as_str(), &edits[j]);
        proof {
            assert(sorted.take(k + 1).drop_last() =~= sorted.take(k as int));
            assert(edits@[j as int]@ == ev[j as int]);
        }
        result = next;
        k = k + 1;
    }
    assert(sorted.take(order@.len() as int) =~= sorted);
    result
}

// ── check --fix ─────────────────────────────────────────────────────────────

/// Whether a run fixes findings with this code: the safe fixes always, the
/// unsafe ones only when asked.
pub open spec fn fixable(code: Seq<char>, apply_unsafe: bool) -> bool {
    code == "SQLA-W402"@ || code == "SQLA-W403"@ || (apply_unsafe && (code == "SQLA-W101"@ || code
        == "SQLA-W409"@))
}

pub open spec fn fixable_f(apply_unsafe: bool) -> spec_fn(DiagView) -> bool {
    |d: DiagView| fixable(d.code, apply_unsafe)
}

/// The edit an offered action resolves to, as a list of none or one.
pub open spec fn action_edit(st: WorkspaceState, a: ActionV) -> Seq<EditV> {
    match resolve_spec(
        st,
        a.id,
        a.uri,
        a.model,
        match a.rel {
            Some(n) => n,
            None => Seq::<char>::empty(),
        },
    ) {
        Some(e) => seq![e],
        None => Seq::empty(),
    }
}

pub open spec fn action_edit_f(st: WorkspaceState) -> spec_fn(ActionV) -> Seq<EditV> {
    |a: ActionV| action_edit(st, a)
}

/// The edits the fixes make for one file's published diagnostics: the actions
/// offered for its fixable diagnostics (with the range of its first
/// diagnostic as the cursor), each resolved.
pub open spec fn entry_edits(st: WorkspaceState, apply_unsafe: bool, e: (String, Vec<LspDiagnostic>)) -> Seq<EditV> {
    let diags = e.1@;
    let fx = dviews(diags).filter(fixable_f(apply_unsafe));
    if fx.len() == 0 {
        Seq::empty()
    } else {
        cat_map(
            actions_spec_views(st, e.0@, diags[0].range, fx),
            action_edit_f(st),
        )
    }
}

/// `actions_spec` on diagnostics given by their values.
pub open spec fn actions_spec_views(
    st: WorkspaceState,
    uri: Seq<char>,
    cursor: Range,
    dvs: Seq<DiagView>,
) -> Seq<ActionV> {
    if st.file_models@.contains_key(uri) {
        let models = st.file_models@[uri]@;
        cat_map(dvs, crate::code_action::diag_fixes_f(st, models, uri)) + cat_map(
            models,
            crate::code_action::model_refactors_f(st, cursor, uri),
        )
    } else {
        Seq::empty()
    }
}

pub open spec fn entry_edits_f(st: WorkspaceState, apply_unsafe: bool) -> spec_fn((String, Vec<LspDiagnostic>)) -> Seq<EditV> {
    |e: (String, Vec<LspDiagnostic>)| entry_edits(st, apply_unsafe, e)
}

/// Every edit a fix run makes, file by file in the order the diagnostics are
/// held.
pub open spec fn fix_edits(st: WorkspaceState, apply_unsafe: bool) -> Seq<EditV> {
    cat_map(st.diagnostics.seq(), entry_edits_f(st, apply_unsafe))
}

/// The text an edit to file `u` starts from: what earlier fixes made of it,
/// else the indexed source, else nothing.
pub open spec fn base_text(st: WorkspaceState, m: Map<Seq<char>, Seq<char>>, u: Seq<char>) -> Seq<char> {
    if m.contains_key(u) {
        m[u]
    } else if st.file_sources@.contains_key(u) {
        st.file_sources@[u]@
    } else {
        Seq::empty()
    }
}

/// The changed sources after applying `es` in turn.
pub open spec fn fixed_sources(st: WorkspaceState, es: Seq<EditV>) -> Map<Seq<char>, Seq<char>>
    decreases es.len(),
{
    if es.len() == 0 {
        Map::empty()
    } else {
        let m = fixed_sources(st, es.drop_last());
        let e = es.last();
        m.insert(e.0, all_edits(base_text(st, m, e.0), seq![(e.1, e.2)]))
    }
}

/// The text values of a map of strings.
pub open spec fn text_map(m: Map<Seq<char>, String>) -> Map<Seq<char>, Seq<char>> {
    m.map_values(|s: String| s@)
}

/// What a resolved single edit's changes hold: one file, one edit.
proof fn lemma_single_group(ch: &StrMap<Vec<TextEdit>>, e: EditV)
    requires
        groups(ch@, seq![e]),
        crate::strmap::keys_distinct(ch.seq()),
    ensures
        ch.seq().len() == 1,
        ch.seq()[0].0@ == e.0,
        tviews(ch.seq()[0].1@) == seq![(e.1, e.2)],
{
    ch.lemma_seq();
    assert(ch@.dom() =~= set![e.0]) by {
        assert forall|u: Seq<char>| ch@.contains_key(u) <==> u == e.0 by {
            if u == e.0 {
                assert(seq![e][0].0 == u);
            }
        }
    }
    assert(ch@.dom().len() == 1);
    assert(ch@.contains_key(ch.seq()[0].0@));
    assert(edits_for(seq![e], e.0) =~= seq![(e.1, e.2)]) by {
        reveal_with_fuel(edits_for, 2);
    }
}

fn apply_change(
    files: &mut StrMap<String>,
    state: &WorkspaceState,
    uri: &String,
    edits: &Vec<TextEdit>,
)
    ensures
        text_map(final(files)@) == text_map(old(files)@).insert(
            uri@,
            all_edits(base_text(*state, text_map(old(files)@), uri@), tviews(edits@)),
        ),
{
    let base = match files.get(uri.as_str()) {
        Some(t) => to_owned(t.as_str()),
        None => match state.file_sources.get(uri.as_str()) {
            Some(t) => to_owned(t.as_str()),
            None => String::new(),
        },
    };
    let next = apply_text_edits(base.as_str(), edits);
    files.insert(uri.clone(), next);
    assert(text_map(files@) =~= text_map(old(files)@).insert(
        uri@,
        all_edits(base_text(*state, text_map(old(files)@), uri@), tviews(edits@)),
    ));
}

fn fixable_of(diags: &Vec<LspDiagnostic>, apply_unsafe: bool) -> (r: Vec<LspDiagnostic>)
    ensures
        dviews(r@) == dviews(diags@).filter(fixable_f(apply_unsafe)),
{
    let ghost pred = fixable_f(apply_unsafe);
    let ghost dv = dviews(diags@);
    let mut out: Vec<LspDiagnostic> = Vec::new();
    let mut i: usize = 0;
    while i < diags.len()
        invariant
            i <= diags@.len(),
            dv == dviews(diags@),
            pred == fixable_f(apply_unsafe),
            dviews(out@) == dv.take(i as int).filter(pred),
        decreases diags@.len() - i,
    {
        proof {
            assert(dv.take(i + 1) =~= dv.take(i as int).push(dv[i as int]));
            dv.take(i as int).lemma_filter_push(dv[i as int], pred);
        }
        let d = &diags[i];
        if fixable_code(d.code.as_str(), apply_unsafe) {
            let c = crate::diagnostics::LspDiagnostic {
                range: d.range,
                severity: d.severity,
                code: d.code.clone(),
                source: d.source.clone(),
                message: d.message.clone(),
                deprecated: d.deprecated,
            };
            let ghost o = out@;
            out.push(c);
            assert(dviews(out@) =~= dviews(o).push(c@));
        }
        i = i + 1;
    }
    assert(dv.take(diags@.len() as int) =~= dv);
    out
}

fn fixable_code(code: &str, apply_unsafe: bool) -> (r: bool)
    ensures
        r == fixable(code@, apply_unsafe),
{
    crate::text::str_eq(code, "SQLA-W402") || crate::text::str_eq(code, "SQLA-W403") || (
    apply_unsafe && (crate::text::str_eq(code, "SQLA-W101") || crate::text::str_eq(
        code,
        "SQLA-W409",
    )))
}

fn fix_entry(
    files: &mut StrMap<String>,
    applied: &mut Vec<Range>,
    state: &WorkspaceState,
    uri: &String,
    diags: &Vec<LspDiagnostic>,
    apply_unsafe: bool,
    Ghost(done): Ghost<Seq<EditV>>,
)
    requires
        parens_ok(*state),
        text_map(old(files)@) == fixed_sources(*state, done),
        old(applied)@.len() == done.len(),
    ensures
        text_map(final(files)@) == fixed_sources(
            *state,
            done + entry_edits(*state, apply_unsafe, (*uri, *diags)),
        ),
        final(applied)@.len() == done.len() + entry_edits(*state, apply_unsafe, (*uri, *diags)).len(),
{
    let ghost st = *state;
    let fx = fixable_of(diags, apply_unsafe);
    proof {
        dviews(diags@).lemma_filter_len(fixable_f(apply_unsafe));
    }
    if fx.len() == 0 {
        assert(done + entry_edits(st, apply_unsafe, (*uri, *diags)) =~= done);
        return;
    }
    let cursor = diags[0].range;
    let actions = provide_code_actions(uri.as_str(), cursor, fx.as_slice(), state);
    let ghost av = aviews(actions@);
    let ghost f = action_edit_f(st);
    assert(av == actions_spec_views(st, uri@, cursor, dviews(diags@).filter(fixable_f(apply_unsafe))));
    let ghost acts = actions@;
    for a in it: actions
        invariant
            it.seq() == acts,
            av == aviews(acts),
            no_edits(acts),
            f == action_edit_f(st),
            st == *state,
            parens_ok(st),
            text_map(files@) == fixed_sources(st, done + cat_map(av.take(it.index() as int), f)),
            applied@.len() == done.len() + cat_map(av.take(it.index() as int), f).len(),
    {
        let ghost k = it.index() as int;
        let ghost before = done + cat_map(av.take(k), f);
        proof {
            lemma_cat_map_take(av, f, k);
            assert(av[k] == action_v(a));
            assert(acts[k] == a);
        }
        let ghost spec_e = resolve_spec(
            st,
            a.data.action_id@,
            a.data.uri@,
            a.data.model_name@,
            crate::code_action::rel_or_empty(a.data.rel_name),
        );
        assert(action_edit(st, av[k]) == match spec_e {
            Some(e) => seq![e],
            None => Seq::<EditV>::empty(),
        });
        let res = resolve_code_action(a, state);
        match res.edit {
            Some(w) => {
                assert(spec_e is Some);
                let ghost e = spec_e->0;
                proof {
                    use_type_invariant(&w.changes);
                    lemma_single_group(&w.changes, e);
                }
                let ents = w.changes.entries();
                apply_change(files, state, &ents[0].0, &ents[0].1);
                applied.push(w_range(&ents[0].1));
                proof {
                    assert((before.push(e)).drop_last() =~= before);
                    assert(done + cat_map(av.take(k + 1), f) =~= before.push(e));
                }
            },
            None => {
                assert(spec_e is None);
                assert(done + cat_map(av.take(k + 1), f) =~= before);
            },
        }
    }
    assert(av.take(av.len() as int) =~= av);
}

fn w_range(edits: &Vec<TextEdit>) -> (r: Range)
    requires
        edits@.len() > 0,
{
    edits[0].range
}

/// `check --fix`: resolve the fixes offered for every file's fixable
/// diagnostics and apply their edits in turn. Returns what the run did and
/// the new text of every changed file (to be written back); the fixed
/// findings leave the list.
pub fn apply_fixes(findings: &mut Vec<Finding>, state: &WorkspaceState, apply_unsafe: bool) -> (r: (
    FixResult,
    StrMap<String>,
))
    requires
        parens_ok(*state),
    ensures
        final(findings)@ == old(findings)@.filter(|f: Finding| !fixable(f.code@, apply_unsafe)),
        r.0.fixed == fix_edits(*state, apply_unsafe).len(),
        r.0.remaining == final(findings)@.len(),
        r.0.unsafe_fixable == count_fix(final(findings)@, FixKind::Unsafe),
        text_map(r.1@) == fixed_sources(*state, fix_edits(*state, apply_unsafe)),
{
    let ghost st = *state;
    let ghost f = entry_edits_f(st, apply_unsafe);
    let ents = state.diagnostics.entries();
    let mut files: StrMap<String> = StrMap::new();
    let mut applied: Vec<Range> = Vec::new();
    let mut i: usize = 0;
    assert(text_map(files@) =~= fixed_sources(st, cat_map(ents@.take(0), f)));
    while i < ents.len()
        invariant
            i <= ents@.len(),
            ents@ == st.diagnostics.seq(),
            st == *state,
            parens_ok(st),
            f == entry_edits_f(st, apply_unsafe),
            text_map(files@) == fixed_sources(st, cat_map(ents@.take(i as int), f)),
            applied@.len() == cat_map(ents@.take(i as int), f).len(),
        decreases ents@.len() - i,
    {
        proof {
            lemma_cat_map_take(ents@, f, i as int);
        }
        fix_entry(
            &mut files,
            &mut applied,
            state,
            &ents[i].0,
            &ents[i].1,
            apply_unsafe,
            Ghost(cat_map(ents@.take(i as int), f)),
        );
        i = i + 1;
    }
    assert(ents@.take(ents@.len() as int) =~= ents@);
    let ghost pred = |f: Finding| !fixable(f.code@, apply_unsafe);
    let mut taken: Vec<Finding> = Vec::new();
    std::mem::swap(&mut taken, findings);
    let ghost all = taken@;
    let mut kept: Vec<Finding> = Vec::new();
    for x in it: taken
        invariant
            it.seq() == all,
            kept@ == all.take(it.index() as int).filter(pred),
            pred == (|f: Finding| !fixable(f.code@, apply_unsafe)),
    {
        proof {
            let k = it.index() as int;
            assert(all.take(k + 1) =~= all.take(k).push(all[k]));
            all.take(k).lemma_filter_push(all[k], pred);
        }
        if !fixable_code(x.code.as_str(), apply_unsafe) {
            kept.push(x);
        }
    }
    assert(all.take(all.len() as int) =~= all);
    let unsafe_fixable = crate::report::count_fix_exec(kept.as_slice(), FixKind::Unsafe);
    let remaining = kept.len();
    *findings = kept;
    (FixResult { fixed: applied.len(), remaining, unsafe_fixable }, files)
}

} // verus!
