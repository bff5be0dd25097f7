//! Quick fixes and refactors: offering them for diagnostics under the cursor
//! and resolving each into its edit.
use vstd::prelude::*;

use crate::diagnostics::{dv, dviews, DiagView, LspDiagnostic};
use crate::f01::{find_model, lookup_model, lookup_model_exec};
use crate::positions::LspRange;
use crate::rename::{cat_map, eviews, lemma_cat_map_take, src_of, EditV, FileEdit};
use crate::state::WorkspaceState;
use crate::text::{
    concat3, ends_with, is_upper, lines, lines_exec, lowercase, push_char, push_str, str_eq,
    to_owned, trim_end,
};
use crate::types::{Model, Position, Range, Relationship};

verus! {

// ── Helpers ──────────────────────────────────────────────────────────────────

/// Two ranges share a line.
pub open spec fn overlaps(d: Range, r: Range) -> bool {
    d.start_line <= r.end_line && d.end_line >= r.start_line
}

/// A diagnostic's lines meet a range's lines.
pub fn diag_overlaps(d: &LspDiagnostic, r: Range) -> (b: bool)
    ensures
        b == overlaps(d.range, r),
{
    d.range.start_line <= r.end_line && d.range.end_line >= r.start_line
}

/// A cursor range's lines meet a range's lines.
pub fn range_overlaps_lsp(lsp: Range, r: Range) -> (b: bool)
    ensures
        b == overlaps(lsp, r),
{
    lsp.start_line <= r.end_line && lsp.end_line >= r.start_line
}

/// The first character of the lower-case mapping of `c`.
pub open spec fn lower_first(c: char) -> char {
    lowercase(seq![c])[0]
}

/// `CamelCase` to `snake_case` with Unicode case: `_` before each upper-case
/// letter but the first character, every character lowered.
pub open spec fn snake_u(s: Seq<char>) -> Seq<char>
    decreases s.len(),
{
    if s.len() == 0 {
        Seq::empty()
    } else {
        let c = s.last();
        snake_u(s.drop_last()) + if is_upper(c) && s.len() > 1 {
            seq!['_', lower_first(c)]
        } else {
            seq![lower_first(c)]
        }
    }
}

fn lower_first_exec(c: char) -> (r: char)
    ensures
        r == lower_first(c),
{
    let mut one = String::new();
    push_char(&mut one, c);
    assert(one@ =~= seq![c]);
    let l = crate::text::to_lowercase(one.as_str());
    let cs = crate::text::to_chars(l.as_str());
    cs[0]
}

/// A table name from a class name, with Unicode case mapping.
pub fn to_snake_case(s: &str) -> (r: String)
    ensures
        r@ == snake_u(s@),
{
    let cs = crate::text::to_chars(s);
    let mut out = String::new();
    let mut i: usize = 0;
    while i < cs.len()
        invariant
            i <= cs@.len(),
            cs@ == s@,
            out@ == snake_u(cs@.take(i as int)),
        decreases cs@.len() - i,
    {
        proof {
            assert(cs@.take(i + 1).drop_last() =~= cs@.take(i as int));
        }
        let ch = cs[i];
        if crate::text::char_is_uppercase(ch) && i != 0 {
            push_char(&mut out, '_');
        }
        let l = lower_first_exec(ch);
        push_char(&mut out, l);
        assert(out@ =~= snake_u(cs@.take(i + 1)));
        i = i + 1;
    }
    assert(cs@.take(cs@.len() as int) =~= cs@);
    out
}

/// The byte position after the first `line` newlines (or the end).
pub open spec fn scan_lines(b: Seq<u8>, pos: int, cur: int, line: int) -> int
    decreases b.len() - pos,
{
    if pos >= b.len() || cur >= line || pos < 0 {
        pos
    } else {
        scan_lines(b, pos + 1, if b[pos] == 10u8 { cur + 1 } else { cur }, line)
    }
}

/// The quote at byte `col` past the start of line `line`: `'` there, else `"`.
pub open spec fn quote_at_bytes(source: Seq<char>, line: int, col: int) -> char {
    let b = vstd::utf8::encode_utf8(source);
    let p = scan_lines(b, 0, 0, line) + col;
    if p < b.len() && b[p] == 39u8 {
        '\''
    } else {
        '"'
    }
}

/// The quote character at a line and byte column of the source.
pub fn quote_char_at(source: &str, line: u32, col: u32) -> (q: char)
    ensures
        q == quote_at_bytes(source@, line as int, col as int),
{
    let bytes = source.as_bytes();
    let ghost b = bytes@;
    let mut cur: u32 = 0;
    let mut pos: usize = 0;
    while pos < bytes.len() && cur < line
        invariant
            b == bytes@,
            b == vstd::utf8::encode_utf8(source@),
            pos <= b.len(),
            cur <= line,
            scan_lines(b, pos as int, cur as int, line as int) == scan_lines(b, 0, 0, line as int),
        decreases b.len() - pos,
    {
        if bytes[pos] == 10u8 {
            cur = cur + 1;
        }
        pos = pos + 1;
    }
    let col_pos = pos as u128 + col as u128;
    if col_pos < bytes.len() as u128 {
        if bytes[col_pos as usize] == 39u8 {
            return '\'';
        }
    }
    '"'
}

/// `name` between the quotes found at a line and byte column.
pub open spec fn quoted_bytes(source: Seq<char>, line: int, col: int, name: Seq<char>) -> Seq<char> {
    seq![quote_at_bytes(source, line, col)] + name + seq![quote_at_bytes(source, line, col)]
}

pub fn quoted(source: &str, line: u32, col: u32, name: &str) -> (s: String)
    ensures
        s@ == quoted_bytes(source@, line as int, col as int, name@),
{
    let q = quote_char_at(source, line, col);
    let mut s = String::new();
    push_char(&mut s, q);
    push_str(&mut s, name);
    push_char(&mut s, q);
    assert(s@ =~= quoted_bytes(source@, line as int, col as int, name@));
    s
}

/// The line whose trimmed text ends with `:` first at or after `start`, else
/// `start`.
pub open spec fn header_end_from(ls: Seq<Seq<char>>, k: int, start: u32) -> u32
    decreases ls.len() - k,
{
    if k < 0 || k >= ls.len() {
        start
    } else if (k as u32) >= start && ends_with(trim_end(ls[k]), seq![':']) {
        k as u32
    } else {
        header_end_from(ls, k + 1, start)
    }
}

/// The line that ends a class header (`class X(Base):`), searching from `start_line`.
pub fn find_class_header_end(source: &str, start_line: u32) -> (n: u32)
    ensures
        n == header_end_from(lines(source@), 0, start_line),
{
    let ls = lines_exec(source);
    let colon = vec![':'];
    assert(colon@ =~= seq![':']);
    let mut k: usize = 0;
    while k < ls.len()
        invariant
            k <= ls@.len(),
            ls@.len() == lines(source@).len(),
            forall|i: int| 0 <= i < ls@.len() ==> #[trigger] ls@[i]@ == lines(source@)[i],
            colon@ == seq![':'],
            header_end_from(lines(source@), k as int, start_line) == header_end_from(
                lines(source@),
                0,
                start_line,
            ),
        decreases ls@.len() - k,
    {
        let n = k as u32;
        if n >= start_line {
            let t = crate::text::trim_end_exec(ls[k].as_slice());
            if crate::text::ends_with_exec(t.as_slice(), colon.as_slice()) {
                return n;
            }
        }
        k = k + 1;
    }
    start_line
}

// ── Counterparts ─────────────────────────────────────────────────────────────

/// The first relationship of `rels` that targets `model`.
pub open spec fn first_targeting(rels: Seq<(String, Relationship)>, model: Seq<char>) -> Option<Seq<char>>
    decreases rels.len(),
{
    if rels.len() == 0 {
        None
    } else if rels[0].1.target_model@ == model {
        Some(rels[0].1.name@)
    } else {
        first_targeting(rels.drop_first(), model)
    }
}

/// The name of the relationship on the other side of `model.rel`: the first
/// relationship of its target model that points back at `model`.
pub open spec fn counterpart_of(st: WorkspaceState, model: Seq<char>, rel: Seq<char>) -> Option<Seq<char>> {
    match lookup_model(st, model) {
        Some(m) => if m.relationships@.contains_key(rel) {
            match lookup_model(st, m.relationships@[rel].target_model@) {
                Some(t) => first_targeting(t.relationships.seq(), model),
                None => None,
            }
        } else {
            None
        },
        None => None,
    }
}

fn first_targeting_exec(rels: &Vec<(String, Relationship)>, model: &str) -> (r: Option<String>)
    ensures
        match r {
            Some(n) => first_targeting(rels@, model@) == Some(n@),
            None => first_targeting(rels@, model@) is None,
        },
{
    assert(rels@.skip(0) =~= rels@);
    let mut i: usize = 0;
    while i < rels.len()
        invariant
            i <= rels@.len(),
            first_targeting(rels@, model@) == first_targeting(rels@.skip(i as int), model@),
        decreases rels@.len() - i,
    {
        if str_eq(rels[i].1.target_model.as_str(), model) {
            return Some(rels[i].1.name.clone());
        }
        proof {
            assert(rels@.skip(i as int).drop_first() =~= rels@.skip(i + 1));
        }
        i = i + 1;
    }
    None
}

/// The relationship on the other side of `model.rel`, if one points back.
pub fn resolve_back_populates_counterpart(model_name: &str, rel_name: &str, state: &WorkspaceState) -> (r: Option<String>)
    ensures
        match r {
            Some(n) => counterpart_of(*state, model_name@, rel_name@) == Some(n@),
            None => counterpart_of(*state, model_name@, rel_name@) is None,
        },
{
    let m = lookup_model_exec(state, model_name)?;
    let rel = m.relationships.get(rel_name)?;
    let t = lookup_model_exec(state, rel.target_model.as_str())?;
    first_targeting_exec(t.relationships.entries(), model_name)
}

// ── Offering actions ─────────────────────────────────────────────────────────

/// Quick fix or refactor.
#[derive(Clone, Copy, Debug, PartialEq, Eq, Structural)]
pub enum ActionKind {
    QuickFix,
    Refactor,
}

/// What an action carries to its resolution: which fix, in which file, on
/// which model and relationship.
#[derive(Clone, Debug)]
pub struct ActionData {
    pub action_id: String,
    pub uri: String,
    pub model_name: String,
    pub rel_name: Option<String>,
}

/// An offered action; `edit` is filled in when it is resolved.
pub struct CodeAction {
    pub title: String,
    pub kind: ActionKind,
    pub is_preferred: bool,
    pub diagnostic: Option<LspDiagnostic>,
    pub data: ActionData,
    pub edit: Option<crate::rename::WorkspaceEdit>,
}

/// An offered action as values.
pub struct ActionV {
    pub title: Seq<char>,
    pub kind: ActionKind,
    pub preferred: bool,
    pub diag: Option<DiagView>,
    pub id: Seq<char>,
    pub uri: Seq<char>,
    pub model: Seq<char>,
    pub rel: Option<Seq<char>>,
}

pub open spec fn opt_s(o: Option<String>) -> Option<Seq<char>> {
    match o {
        Some(s) => Some(s@),
        None => None,
    }
}

/// The values of an offered action.
pub open spec fn action_v(a: CodeAction) -> ActionV {
    ActionV {
        title: a.title@,
        kind: a.kind,
        preferred: a.is_preferred,
        diag: match a.diagnostic {
            Some(d) => Some(d@),
            None => None,
        },
        id: a.data.action_id@,
        uri: a.data.uri@,
        model: a.data.model_name@,
        rel: opt_s(a.data.rel_name),
    }
}

pub open spec fn aviews(v: Seq<CodeAction>) -> Seq<ActionV> {
    v.map_values(|a: CodeAction| action_v(a))
}

/// CA-03: add `__tablename__`, named after the class.
pub open spec fn ca03(d: DiagView, m: Model, uri: Seq<char>) -> ActionV {
    ActionV {
        title: "Add `__tablename__ = \""@ + snake_u(m.name@) + "s"@ + "\"`"@,
        kind: ActionKind::QuickFix,
        preferred: false,
        diag: Some(d),
        id: "CA-03"@,
        uri,
        model: m.name@,
        rel: None,
    }
}

/// CA-04: point `back_populates` at the counterpart.
pub open spec fn ca04(d: DiagView, m: Model, r: Relationship, cp: Seq<char>, uri: Seq<char>) -> ActionV {
    ActionV {
        title: "Fix `back_populates` to `"@ + cp + "`"@,
        kind: ActionKind::QuickFix,
        preferred: true,
        diag: Some(d),
        id: "CA-04"@,
        uri,
        model: m.name@,
        rel: Some(r.name@),
    }
}

/// CA-09: rewrite the cascade.
pub open spec fn ca09(d: DiagView, m: Model, r: Relationship, uri: Seq<char>) -> ActionV {
    ActionV {
        title: "Rewrite cascade to `all, delete-orphan`"@,
        kind: ActionKind::QuickFix,
        preferred: false,
        diag: Some(d),
        id: "CA-09"@,
        uri,
        model: m.name@,
        rel: Some(r.name@),
    }
}

/// CA-06: add the missing `back_populates`.
pub open spec fn ca06(m: Model, r: Relationship, cp: Seq<char>, uri: Seq<char>) -> ActionV {
    ActionV {
        title: "Add `back_populates=\""@ + cp + "\"`"@,
        kind: ActionKind::Refactor,
        preferred: true,
        diag: None,
        id: "CA-06"@,
        uri,
        model: m.name@,
        rel: Some(r.name@),
    }
}

/// The fixes one diagnostic gets on one relationship of model `m`.
pub open spec fn rel_fixes(st: WorkspaceState, d: DiagView, m: Model, uri: Seq<char>, r: Relationship) -> Seq<ActionV> {
    if d.code == "SQLA-W402"@ || d.code == "SQLA-W403"@ {
        match r.back_populates_range {
            Some(br) => if overlaps(d.range, br) {
                match counterpart_of(st, m.name@, r.name@) {
                    Some(cp) => seq![ca04(d, m, r, cp, uri)],
                    None => Seq::empty(),
                }
            } else {
                Seq::empty()
            },
            None => Seq::empty(),
        }
    } else if d.code == "SQLA-W409"@ {
        match r.cascade_range {
            Some(cr) => if overlaps(d.range, cr) {
                seq![ca09(d, m, r, uri)]
            } else {
                Seq::empty()
            },
            None => Seq::empty(),
        }
    } else {
        Seq::empty()
    }
}

pub open spec fn rel_fixes_f(st: WorkspaceState, d: DiagView, m: Model, uri: Seq<char>) -> spec_fn((String, Relationship)) -> Seq<ActionV> {
    |e: (String, Relationship)| rel_fixes(st, d, m, uri, e.1)
}

/// The fixes one diagnostic gets on one model.
pub open spec fn model_fixes(st: WorkspaceState, d: DiagView, uri: Seq<char>, m: Model) -> Seq<ActionV> {
    if d.code == "SQLA-W101"@ {
        if overlaps(d.range, m.name_range) {
            seq![ca03(d, m, uri)]
        } else {
            Seq::empty()
        }
    } else {
        cat_map(m.relationships.seq(), rel_fixes_f(st, d, m, uri))
    }
}

pub open spec fn model_fixes_f(st: WorkspaceState, d: DiagView, uri: Seq<char>) -> spec_fn(Model) -> Seq<ActionV> {
    |m: Model| model_fixes(st, d, uri, m)
}

/// The fixes of one diagnostic, model by model.
pub open spec fn diag_fixes(st: WorkspaceState, models: Seq<Model>, uri: Seq<char>, d: DiagView) -> Seq<ActionV> {
    cat_map(models, model_fixes_f(st, d, uri))
}

pub open spec fn diag_fixes_f(st: WorkspaceState, models: Seq<Model>, uri: Seq<char>) -> spec_fn(DiagView) -> Seq<ActionV> {
    |d: DiagView| diag_fixes(st, models, uri, d)
}

/// The refactor one relationship gets under the cursor.
pub open spec fn rel_refactor(st: WorkspaceState, cursor: Range, m: Model, uri: Seq<char>, r: Relationship) -> Seq<ActionV> {
    if r.back_populates is None && overlaps(cursor, r.full_range) {
        match counterpart_of(st, m.name@, r.name@) {
            Some(cp) => seq![ca06(m, r, cp, uri)],
            None => Seq::empty(),
        }
    } else {
        Seq::empty()
    }
}

pub open spec fn rel_refactor_f(st: WorkspaceState, cursor: Range, m: Model, uri: Seq<char>) -> spec_fn((String, Relationship)) -> Seq<ActionV> {
    |e: (String, Relationship)| rel_refactor(st, cursor, m, uri, e.1)
}

pub open spec fn model_refactors_f(st: WorkspaceState, cursor: Range, uri: Seq<char>) -> spec_fn(Model) -> Seq<ActionV> {
    |m: Model| cat_map(m.relationships.seq(), rel_refactor_f(st, cursor, m, uri))
}

/// Every action offered in file `uri` for `diags` and the cursor range: the
/// fixes, diagnostic by diagnostic, then the refactors.
pub open spec fn actions_spec(st: WorkspaceState, uri: Seq<char>, cursor: Range, diags: Seq<LspDiagnostic>) -> Seq<ActionV> {
    if st.file_models@.contains_key(uri) {
        let models = st.file_models@[uri]@;
        cat_map(dviews(diags), diag_fixes_f(st, models, uri)) + cat_map(models, model_refactors_f(st, cursor, uri))
    } else {
        Seq::empty()
    }
}

/// None of the actions carries an edit yet.
pub open spec fn no_edits(v: Seq<CodeAction>) -> bool {
    forall|k: int| 0 <= k < v.len() ==> (#[trigger] v[k]).edit is None
}

fn push_action(out: &mut Vec<CodeAction>, a: CodeAction)
    requires
        a.edit is None,
        no_edits(old(out)@),
    ensures
        aviews(final(out)@) == aviews(old(out)@).push(action_v(a)),
        no_edits(final(out)@),
{
    out.push(a);
    assert(aviews(out@) =~= aviews(old(out)@).push(action_v(a)));
}

fn clone_diag(d: &LspDiagnostic) -> (r: LspDiagnostic)
    ensures
        r@ == d@,
{
    LspDiagnostic {
        range: d.range,
        severity: d.severity,
        code: d.code.clone(),
        source: d.source.clone(),
        message: d.message.clone(),
        deprecated: d.deprecated,
    }
}

fn data_of(id: &str, uri: &str, m: &Model, rel: Option<&Relationship>) -> (d: ActionData)
    ensures
        d.action_id@ == id@,
        d.uri@ == uri@,
        d.model_name@ == m.name@,
        opt_s(d.rel_name) == match rel {
            Some(r) => Some(r.name@),
            None => None::<Seq<char>>,
        },
{
    ActionData {
        action_id: to_owned(id),
        uri: to_owned(uri),
        model_name: m.name.clone(),
        rel_name: match rel {
            Some(r) => Some(r.name.clone()),
            None => None,
        },
    }
}

fn rel_fixes_exec(state: &WorkspaceState, d: &LspDiagnostic, m: &Model, uri: &str, r: &Relationship, out: &mut Vec<CodeAction>)
    requires
        no_edits(old(out)@),
    ensures
        no_edits(final(out)@),
        aviews(final(out)@) == aviews(old(out)@) + rel_fixes(*state, d@, *m, uri@, *r),
{
    let code = d.code.as_str();
    if str_eq(code, "SQLA-W402") || str_eq(code, "SQLA-W403") {
        if let Some(br) = r.back_populates_range {
            if diag_overlaps(d, br) {
                if let Some(cp) = resolve_back_populates_counterpart(m.name.as_str(), r.name.as_str(), state) {
                    let title = concat3("Fix `back_populates` to `", cp.as_str(), "`");
                    let a = CodeAction {
                        title,
                        kind: ActionKind::QuickFix,
                        is_preferred: true,
                        diagnostic: Some(clone_diag(d)),
                        data: data_of("CA-04", uri, m, Some(r)),
                        edit: None,
                    };
                    push_action(out, a);
                }
            }
        }
    } else if str_eq(code, "SQLA-W409") {
        if let Some(cr) = r.cascade_range {
            if diag_overlaps(d, cr) {
                let a = CodeAction {
                    title: to_owned("Rewrite cascade to `all, delete-orphan`"),
                    kind: ActionKind::QuickFix,
                    is_preferred: false,
                    diagnostic: Some(clone_diag(d)),
                    data: data_of("CA-09", uri, m, Some(r)),
                    edit: None,
                };
                push_action(out, a);
            }
        }
    }
    assert(aviews(final(out)@) =~= aviews(old(out)@) + rel_fixes(*state, d@, *m, uri@, *r));
}

fn model_fixes_exec(state: &WorkspaceState, d: &LspDiagnostic, uri: &str, m: &Model, out: &mut Vec<CodeAction>)
    requires
        no_edits(old(out)@),
    ensures
        no_edits(final(out)@),
        aviews(final(out)@) == aviews(old(out)@) + model_fixes(*state, d@, uri@, *m),
{
    let ghost start = aviews(out@);
    if str_eq(d.code.as_str(), "SQLA-W101") {
        if diag_overlaps(d, m.name_range) {
            let mut title = to_owned("Add `__tablename__ = \"");
            let t = to_snake_case(m.name.as_str());
            push_str(&mut title, t.as_str());
            push_str(&mut title, "s");
            push_str(&mut title, "\"`");
            let a = CodeAction {
                title,
                kind: ActionKind::QuickFix,
                is_preferred: false,
                diagnostic: Some(clone_diag(d)),
                data: data_of("CA-03", uri, m, None),
                edit: None,
            };
            push_action(out, a);
        }
        assert(aviews(out@) =~= start + model_fixes(*state, d@, uri@, *m));
        return ;
    }
    let rels = m.relationships.entries();
    let mut i: usize = 0;
    while i < rels.len()
        invariant
            i <= rels@.len(),
            rels@ == m.relationships.seq(),
            no_edits(out@),
            aviews(out@) == start + cat_map(rels@.take(i as int), rel_fixes_f(*state, d@, *m, uri@)),
        decreases rels@.len() - i,
    {
        proof {
            lemma_cat_map_take(rels@, rel_fixes_f(*state, d@, *m, uri@), i as int);
        }
        rel_fixes_exec(state, d, m, uri, &rels[i].1, out);
        i = i + 1;
    }
    assert(rels@.take(rels@.len() as int) =~= rels@);
}

fn model_refactors_exec(state: &WorkspaceState, cursor: Range, uri: &str, m: &Model, out: &mut Vec<CodeAction>)
    requires
        no_edits(old(out)@),
    ensures
        no_edits(final(out)@),
        aviews(final(out)@) == aviews(old(out)@) + model_refactors_f(*state, cursor, uri@)(*m),
{
    let ghost start = aviews(out@);
    let rels = m.relationships.entries();
    let mut i: usize = 0;
    while i < rels.len()
        invariant
            i <= rels@.len(),
            rels@ == m.relationships.seq(),
            no_edits(out@),
            aviews(out@) == start + cat_map(rels@.take(i as int), rel_refactor_f(*state, cursor, *m, uri@)),
        decreases rels@.len() - i,
    {
        proof {
            lemma_cat_map_take(rels@, rel_refactor_f(*state, cursor, *m, uri@), i as int);
        }
        let r = &rels[i].1;
        let ghost s0 = aviews(out@);
        if r.back_populates.is_none() && range_overlaps_lsp(cursor, r.full_range) {
            if let Some(cp) = resolve_back_populates_counterpart(m.name.as_str(), r.name.as_str(), state) {
                let title = concat3("Add `back_populates=\"", cp.as_str(), "\"`");
                let a = CodeAction {
                    title,
                    kind: ActionKind::Refactor,
                    is_preferred: true,
                    diagnostic: None,
                    data: data_of("CA-06", uri, m, Some(r)),
                    edit: None,
                };
                push_action(out, a);
            }
        }
        assert(aviews(out@) =~= s0 + rel_refactor(*state, cursor, *m, uri@, *r));
        i = i + 1;
    }
    assert(rels@.take(rels@.len() as int) =~= rels@);
}

/// The quick fixes for `diags` in file `uri`, then the refactors for the
/// relationships under the cursor range.
pub fn provide_code_actions(uri: &str, cursor: Range, diags: &[LspDiagnostic], state: &WorkspaceState) -> (r: Vec<CodeAction>)
    ensures
        aviews(r@) == actions_spec(*state, uri@, cursor, diags@),
        no_edits(r@),
{
    let mut out: Vec<CodeAction> = Vec::new();
    let models = match state.file_models.get(uri) {
        Some(ms) => ms,
        None => {
            return out;
        },
    };
    let ghost mv = models@;
    let mut i: usize = 0;
    while i < diags.len()
        invariant
            i <= diags@.len(),
            mv == models@,
            no_edits(out@),
            aviews(out@) == cat_map(dviews(diags@).take(i as int), diag_fixes_f(*state, mv, uri@)),
        decreases diags@.len() - i,
    {
        proof {
            lemma_cat_map_take(dviews(diags@), diag_fixes_f(*state, mv, uri@), i as int);
        }
        let ghost s0 = aviews(out@);
        let d = &diags[i];
        let mut j: usize = 0;
        while j < models.len()
            invariant
                j <= models@.len(),
                mv == models@,
                no_edits(out@),
                aviews(out@) == s0 + cat_map(mv.take(j as int), model_fixes_f(*state, d@, uri@)),
            decreases models@.len() - j,
        {
            proof {
                lemma_cat_map_take(mv, model_fixes_f(*state, d@, uri@), j as int);
            }
            model_fixes_exec(state, d, uri, &models[j], &mut out);
            j = j + 1;
        }
        assert(mv.take(mv.len() as int) =~= mv);
        i = i + 1;
    }
    assert(dviews(diags@).take(diags@.len() as int) =~= dviews(diags@));
    let ghost s1 = aviews(out@);
    let mut k: usize = 0;
    while k < models.len()
        invariant
            k <= models@.len(),
            mv == models@,
            no_edits(out@),
            aviews(out@) == s1 + cat_map(mv.take(k as int), model_refactors_f(*state, cursor, uri@)),
        decreases models@.len() - k,
    {
        proof {
            lemma_cat_map_take(mv, model_refactors_f(*state, cursor, uri@), k as int);
        }
        model_refactors_exec(state, cursor, uri, &models[k], &mut out);
        k = k + 1;
    }
    assert(mv.take(mv.len() as int) =~= mv);
    out
}

// ── Resolving actions ────────────────────────────────────────────────────────

/// Where `, back_populates=...` goes: just before the last `)` on the last
/// line of the relationship, searching up to its end column (a byte offset).
pub open spec fn closing_paren(source: Seq<char>, r: Range) -> Option<Position> {
    let ls = lines(source);
    if (r.end_line as int) >= ls.len() {
        None
    } else {
        let line = ls[r.end_line as int];
        let w = crate::positions::wsum(line, true);
        let search = if (r.end_col as nat) < w {
            r.end_col as int
        } else {
            w as int
        };
        let prefix = line.take(crate::positions::char_index(line, search));
        let j = crate::text::rfind(prefix, seq![')']);
        if j < 0 {
            None
        } else {
            Some(Position { line: r.end_line, character: crate::positions::wsum(line.take(j), true) as u32 })
        }
    }
}

/// The relationship's end column falls on a character boundary of its line
/// (where that line exists).
pub open spec fn paren_ok(source: Seq<char>, r: Range) -> bool {
    let ls = lines(source);
    (r.end_line as int) < ls.len() ==> {
        let line = ls[r.end_line as int];
        let w = crate::positions::wsum(line, true);
        crate::positions::on_boundary(
            line,
            if (r.end_col as nat) < w {
                r.end_col as int
            } else {
                w as int
            },
        )
    }
}

/// The position just before the `)` that closes a relationship call.
pub fn find_closing_paren_of_call(source: &str, full_range: Range) -> (p: Option<Position>)
    requires
        paren_ok(source@, full_range),
    ensures
        p == closing_paren(source@, full_range),
{
    let ls = lines_exec(source);
    let el = full_range.end_line as usize;
    if el >= ls.len() {
        return None;
    }
    let line = &ls[el];
    let ghost lv = line@;
    assert(lv == lines(source@)[el as int]);
    let mut width: usize = 0;
    let mut i: usize = 0;
    proof {
        crate::text::lemma_encode_len(lv);
        crate::positions::lemma_wsum_is_utf8_width(lv);
    }
    let s = crate::text::from_chars(line.as_slice());
    let total = s.as_str().as_bytes().len();
    let search = if (full_range.end_col as usize) < total {
        full_range.end_col as usize
    } else {
        total
    };
    let k = crate::positions::char_index_exec(line, search);
    let prefix = crate::text::slice_vec(line.as_slice(), 0, k);
    proof {
        crate::positions::lemma_char_index(lv, search as int);
        assert(lv.subrange(0, k as int) =~= lv.take(k as int));
    }
    let close = vec![')'];
    assert(close@ =~= seq![')']);
    match crate::text::rfind_exec(prefix.as_slice(), close.as_slice()) {
        None => None,
        Some(j) => {
            proof {
                crate::text::lemma_last_upto_props(prefix@, seq![')'], prefix@.len() - 1);
                assert(prefix@.take(j as int) =~= lv.take(j as int));
            }
            let mut b: usize = 0;
            let mut q: usize = 0;
            while q < j
                invariant
                    q <= j,
                    j <= k,
                    k <= lv.len(),
                    line@ == lv,
                    b == crate::positions::wsum(lv.take(q as int), true),
                    crate::positions::wsum(lv.take(k as int), true) == search,
                decreases j - q,
            {
                proof {
                    crate::positions::lemma_wsum_take(lv, q as int, true);
                    crate::positions::lemma_wsum_mono(lv, q + 1, k as int, true);
                }
                b = b + crate::text::char_width_exec(line[q]);
                q = q + 1;
            }
            Some(Position { line: full_range.end_line, character: b as u32 })
        },
    }
}

/// The edit a resolved action makes, if it still applies.
pub open spec fn resolve_spec(st: WorkspaceState, id: Seq<char>, uri: Seq<char>, model: Seq<char>, rel: Seq<char>) -> Option<EditV> {
    if !st.file_sources@.contains_key(uri) || !st.file_models@.contains_key(uri) {
        None
    } else {
        let src = st.file_sources@[uri]@;
        match find_model(st.file_models@[uri]@, model) {
            None => None,
            Some(m) => if id == "CA-03"@ {
                let il = vstd::wrapping::u32_specs::wrapping_add(
                    header_end_from(lines(src), 0, m.name_range.start_line),
                    1,
                );
                Some(
                    (
                        uri,
                        Range { start_line: il, start_col: 0, end_line: il, end_col: 0 },
                        "    __tablename__ = \""@ + snake_u(model) + "s"@ + "\"\n"@,
                    ),
                )
            } else if !m.relationships@.contains_key(rel) {
                None
            } else {
                let r = m.relationships@[rel];
                if id == "CA-04"@ {
                    match (r.back_populates_range, counterpart_of(st, model, rel)) {
                        (Some(br), Some(cp)) => Some(
                            (uri, br, quoted_bytes(src, br.start_line as int, br.start_col as int, cp)),
                        ),
                        _ => None,
                    }
                } else if id == "CA-06"@ {
                    match counterpart_of(st, model, rel) {
                        Some(cp) => match closing_paren(src, r.full_range) {
                            Some(p) => Some(
                                (
                                    uri,
                                    Range {
                                        start_line: p.line,
                                        start_col: p.character,
                                        end_line: p.line,
                                        end_col: p.character,
                                    },
                                    ", back_populates=\""@ + cp + "\""@,
                                ),
                            ),
                            None => None,
                        },
                        None => None,
                    }
                } else if id == "CA-09"@ {
                    match r.cascade_range {
                        Some(cr) => Some(
                            (
                                uri,
                                cr,
                                quoted_bytes(
                                    src,
                                    cr.start_line as int,
                                    cr.start_col as int,
                                    "all, delete-orphan"@,
                                ),
                            ),
                        ),
                        None => None,
                    }
                } else {
                    None
                }
            },
        }
    }
}

/// Every relationship's end column falls on a character boundary of its line.
pub open spec fn parens_ok(st: WorkspaceState) -> bool {
    forall|uri: Seq<char>, i: int, k: int|
        #![trigger st.file_models@[uri]@[i].relationships.seq()[k]]
        st.file_models@.contains_key(uri) && 0 <= i < st.file_models@[uri]@.len() && 0 <= k
            < st.file_models@[uri]@[i].relationships.seq().len() ==> paren_ok(
            src_of(st, uri),
            st.file_models@[uri]@[i].relationships.seq()[k].1.full_range,
        )
}

/// Whether a relationship's end column falls on a character boundary of
/// its line.
pub fn paren_ok_exec(source: &str, r: Range) -> (b: bool)
    ensures
        b == paren_ok(source@, r),
{
    let ls = crate::text::lines_exec(source);
    let l = r.end_line as usize;
    if l >= ls.len() {
        return true;
    }
    let line = &ls[l];
    let col = r.end_col as usize;
    let m = crate::text::utf8_width_min(line.as_slice(), col);
    proof {
        crate::positions::lemma_wsum_is_utf8_width(line@);
        assert(line@.take(line@.len() as int) =~= line@);
        assert(crate::positions::on_boundary(line@, crate::positions::wsum(line@, true) as int));
    }
    m < col || crate::positions::on_boundary_exec(line, col)
}

/// Whether every indexed relationship's end column falls on a character
/// boundary of its line in its file's text (what `apply_fixes` needs).
#[verifier::loop_isolation(false)]
pub fn parens_ok_exec(state: &WorkspaceState) -> (b: bool)
    ensures
        b == parens_ok(*state),
{
    let files = state.file_models.entries();
    proof {
        state.file_models.lemma_seq();
    }
    let mut i: usize = 0;
    while i < files.len()
        invariant
            i <= files@.len(),
            files@ == state.file_models.seq(),
            crate::strmap::keys_distinct(state.file_models.seq()),
            state.file_models@ == crate::strmap::map_of(state.file_models.seq()),
            forall|k: int, a: int, c: int|
                #![trigger files@[k].1@[a].relationships.seq()[c]]
                0 <= k < i && 0 <= a < files@[k].1@.len() && 0 <= c < files@[k].1@[a].relationships.seq().len()
                    ==> paren_ok(src_of(*state, files@[k].0@), files@[k].1@[a].relationships.seq()[c].1.full_range),
        decreases files@.len() - i,
    {
        let uri = files[i].0.as_str();
        let src = crate::rename::src_exec(state, uri);
        let ms = &files[i].1;
        let mut a: usize = 0;
        while a < ms.len()
            invariant
                i < files@.len(),
                ms@ == files@[i as int].1@,
                src@ == src_of(*state, files@[i as int].0@),
                a <= ms@.len(),
                forall|a2: int, c: int|
                    #![trigger ms@[a2].relationships.seq()[c]]
                    0 <= a2 < a && 0 <= c < ms@[a2].relationships.seq().len() ==> paren_ok(
                        src@,
                        ms@[a2].relationships.seq()[c].1.full_range,
                    ),
            decreases ms@.len() - a,
        {
            let rels = ms[a].relationships.entries();
            let mut c: usize = 0;
            while c < rels.len()
                invariant
                    a < ms@.len(),
                    rels@ == ms@[a as int].relationships.seq(),
                    c <= rels@.len(),
                    forall|c2: int| 0 <= c2 < c ==> paren_ok(src@, #[trigger] rels@[c2].1.full_range),
                decreases rels@.len() - c,
            {
                if !paren_ok_exec(src, rels[c].1.full_range) {
                    proof {
                        state.file_models.lemma_seq();
                        assert(files@ == state.file_models.seq());
                        let u = files@[i as int].0@;
                        assert(state.file_models@.contains_key(state.file_models.seq()[i as int].0@));
                        assert(state.file_models@[u] == files@[i as int].1);
                        assert(state.file_models@[u]@[a as int].relationships.seq()[c as int] == rels@[c as int]);
                    }
                    return false;
                }
                c = c + 1;
            }
            a = a + 1;
        }
        i = i + 1;
    }
    proof {
        assert forall|uri: Seq<char>, a: int, c: int|
            #![trigger state.file_models@[uri]@[a].relationships.seq()[c]]
            state.file_models@.contains_key(uri) && 0 <= a < state.file_models@[uri]@.len() && 0 <= c
                < state.file_models@[uri]@[a].relationships.seq().len() implies paren_ok(
            src_of(*state, uri),
            state.file_models@[uri]@[a].relationships.seq()[c].1.full_range,
        ) by {
            state.file_models.lemma_seq();
            assert(files@ == state.file_models.seq());
            assert(state.file_models@.contains_key(uri));
            let k = crate::strmap::key_index(state.file_models.seq(), uri);
            crate::strmap::lemma_key_index(state.file_models.seq(), uri);
            assert(0 <= k < files@.len());
            assert(state.file_models.seq()[k].0@ == uri);
            assert(files@[k].0@ == uri);
            assert(state.file_models@[uri] == state.file_models.seq()[k].1);
            assert(state.file_models@[uri] == files@[k].1);
            assert(files@[k].1@[a].relationships.seq()[c] == state.file_models@[uri]@[a].relationships.seq()[c]);
        }
    }
    true
}

proof fn lemma_find_model_index(models: Seq<Model>, name: Seq<char>)
    ensures
        find_model(models, name) is Some ==> exists|i: int|
            0 <= i < models.len() && models[i] == find_model(models, name)->0,
    decreases models.len(),
{
    if models.len() > 0 && models[0].name@ != name {
        lemma_find_model_index(models.drop_first(), name);
        if find_model(models, name) is Some {
            let i = choose|i: int|
                0 <= i < models.drop_first().len() && models.drop_first()[i] == find_model(
                    models,
                    name,
                )->0;
            assert(models[i + 1] == models.drop_first()[i]);
        }
    } else if models.len() > 0 {
        assert(models[0] == find_model(models, name)->0);
    }
}

/// A relationship name, or the empty name where there is none.
pub open spec fn rel_or_empty(o: Option<String>) -> Seq<char> {
    match o {
        Some(n) => n@,
        None => Seq::<char>::empty(),
    }
}

/// Fill in an offered action's edit from the workspace; an action that no
/// longer applies is returned unchanged.
pub fn resolve_code_action(action: CodeAction, state: &WorkspaceState) -> (r: CodeAction)
    requires
        parens_ok(*state),
    ensures
        action_v(r) == action_v(action),
        match resolve_spec(
            *state,
            action.data.action_id@,
            action.data.uri@,
            action.data.model_name@,
            rel_or_empty(action.data.rel_name),
        ) {
            Some(e) => r.edit is Some && crate::rename::groups(r.edit->0.changes@, seq![e]),
            None => r.edit == action.edit,
        },
{
    let mut action = action;
    let id = action.data.action_id.as_str();
    let uri = action.data.uri.as_str();
    let model_name = action.data.model_name.as_str();
    let rel_name = match &action.data.rel_name {
        Some(n) => n.as_str(),
        None => {
            proof {
                reveal_strlit("");
            }
            ""
        },
    };
    assert(rel_name@ == rel_or_empty(action.data.rel_name));
    let edit = build_edit(state, id, uri, model_name, rel_name);
    match edit {
        Some(e) => {
            let mut v: Vec<FileEdit> = Vec::new();
            v.push(e);
            proof {
                assert(eviews(v@) =~= seq![e@]);
            }
            action.edit = Some(crate::rename::group_edits(v));
        },
        None => {},
    }
    action
}

fn edit_of(uri: &str, range: Range, text: String) -> (e: FileEdit)
    ensures
        e@ == (uri@, range, text@),
{
    FileEdit { uri: to_owned(uri), range, new_text: text }
}

fn build_edit(state: &WorkspaceState, id: &str, uri: &str, model_name: &str, rel_name: &str) -> (r: Option<FileEdit>)
    requires
        parens_ok(*state),
    ensures
        match r {
            Some(e) => resolve_spec(*state, id@, uri@, model_name@, rel_name@) == Some(e@),
            None => resolve_spec(*state, id@, uri@, model_name@, rel_name@) is None,
        },
{
    let src = state.file_sources.get(uri)?;
    let models = state.file_models.get(uri)?;
    let m = crate::f01::find_model_exec(models, model_name)?;
    if str_eq(id, "CA-03") {
        let h = find_class_header_end(src.as_str(), m.name_range.start_line);
        let il = h.wrapping_add(1);
        let mut t = to_owned("    __tablename__ = \"");
        let sn = to_snake_case(model_name);
        push_str(&mut t, sn.as_str());
        push_str(&mut t, "s");
        push_str(&mut t, "\"\n");
        return Some(edit_of(uri, Range { start_line: il, start_col: 0, end_line: il, end_col: 0 }, t));
    }
    let r = m.relationships.get(rel_name)?;
    if str_eq(id, "CA-04") {
        let br = r.back_populates_range?;
        let cp = resolve_back_populates_counterpart(model_name, rel_name, state)?;
        let t = quoted(src.as_str(), br.start_line, br.start_col, cp.as_str());
        Some(edit_of(uri, br, t))
    } else if str_eq(id, "CA-06") {
        let cp = resolve_back_populates_counterpart(model_name, rel_name, state)?;
        proof {
            lemma_find_model_index(state.file_models@[uri@]@, model_name@);
            let i = choose|i: int|
                0 <= i < state.file_models@[uri@]@.len() && state.file_models@[uri@]@[i] == *m;
            use_type_invariant(&m.relationships);
            m.relationships.lemma_seq();
            let k = crate::strmap::key_index(m.relationships.seq(), rel_name@);
            crate::strmap::lemma_key_index(m.relationships.seq(), rel_name@);
            assert(m.relationships@.contains_key(m.relationships.seq()[k].0@));
            assert(state.file_models@[uri@]@[i].relationships.seq()[k].1 == *r);
        }
        let p = find_closing_paren_of_call(src.as_str(), r.full_range)?;
        let t = concat3(", back_populates=\"", cp.as_str(), "\"");
        Some(
            edit_of(
                uri,
                Range { start_line: p.line, start_col: p.character, end_line: p.line, end_col: p.character },
                t,
            ),
        )
    } else if str_eq(id, "CA-09") {
        let cr = r.cascade_range?;
        let t = quoted(src.as_str(), cr.start_line, cr.start_col, "all, delete-orphan");
        Some(edit_of(uri, cr, t))
    } else {
        None
    }
}

/// How many characters after the first are upper-case.
pub open spec fn uppers_after_first(s: Seq<char>) -> nat
    decreases s.len(),
{
    if s.len() <= 1 {
        0
    } else {
        uppers_after_first(s.drop_last()) + if is_upper(s.last()) {
            1nat
        } else {
            0nat
        }
    }
}

/// The generated table name lays out the class name's characters in
/// order, each lowered, with one `_` inserted just before every upper-case
/// character past the first and nowhere else: character `i` lands at `i`
/// plus the upper-case characters up to it, and the result is as long as
/// the name plus those. So `BlogPost` gives `blog_post` (and the table
/// `blog_posts`).
pub proof fn law_snake_u_layout(s: Seq<char>)
    ensures
        snake_u(s).len() == s.len() + uppers_after_first(s),
        forall|i: int|
            0 <= i < s.len() ==> i + uppers_after_first(s.take(i + 1)) < snake_u(s).len() && snake_u(s)[i
                + uppers_after_first(#[trigger] s.take(i + 1))] == lower_first(s[i]),
        forall|i: int|
            1 <= i < s.len() && is_upper(s[i]) ==> snake_u(s)[i + uppers_after_first(
                #[trigger] s.take(i + 1),
            ) - 1] == '_',
    decreases s.len(),
{
    if s.len() > 0 {
        let p = s.drop_last();
        let n = s.len() - 1;
        law_snake_u_layout(p);
        assert(s.take(n + 1) =~= s);
        assert forall|i: int| 0 <= i < n implies #[trigger] s.take(i + 1) == p.take(i + 1) by {
            assert(s.take(i + 1) =~= p.take(i + 1));
        }
        let c = s.last();
        let piece = if is_upper(c) && s.len() > 1 {
            seq!['_', lower_first(c)]
        } else {
            seq![lower_first(c)]
        };
        assert(snake_u(s) == snake_u(p) + piece);
        if s.len() == 1 {
            assert(uppers_after_first(s) == 0);
        }
        assert forall|i: int|
            0 <= i < s.len() implies i + uppers_after_first(s.take(i + 1)) < snake_u(s).len() && snake_u(s)[i
                + uppers_after_first(#[trigger] s.take(i + 1))] == lower_first(s[i]) by {
            if i < n {
                assert(p[i] == s[i]);
                assert(s.take(i + 1) == p.take(i + 1));
            }
        }
        assert forall|i: int|
            1 <= i < s.len() && is_upper(s[i]) implies snake_u(s)[i + uppers_after_first(
                #[trigger] s.take(i + 1),
            ) - 1] == '_' by {
            if i < n {
                assert(p[i] == s[i]);
                assert(s.take(i + 1) == p.take(i + 1));
            }
        }
    }
}

} // verus!
