//! Rename of models, columns and relationships across the workspace, with
//! the cursor dispatch and quoting helpers it shares with code actions.
use vstd::prelude::*;

use crate::state::WorkspaceState;
use crate::strmap::StrMap;
use crate::text::{
    ascii_lower, ascii_lower_exec, lines, lines_exec, push_char, push_str, str_eq, to_owned,
};
use crate::types::{pos_in, pos_in_spec, Column, Model, Position, Range, Relationship};

verus! {

// ── Quoting ──────────────────────────────────────────────────────────────────

/// The quote character at byte `col` of line `line` of `source`: `'` or `"`
/// when one is there, `"` otherwise.
pub open spec fn quote_at(source: Seq<char>, line: int, col: int) -> char {
    let ls = lines(source);
    if 0 <= line < ls.len() {
        let bytes = vstd::utf8::encode_utf8(ls[line]);
        if 0 <= col < bytes.len() && bytes[col] == 39u8 {
            '\''
        } else {
            '"'
        }
    } else {
        '"'
    }
}

/// The quote character the source uses at a position.
pub fn quote_char_at(source: &str, line: u32, col: u32) -> (q: char)
    ensures
        q == quote_at(source@, line as int, col as int),
{
    let ls = lines_exec(source);
    if (line as usize) < ls.len() {
        let l = crate::text::from_chars(ls[line as usize].as_slice());
        let bytes = l.as_str().as_bytes();
        if (col as usize) < bytes.len() {
            let b = bytes[col as usize];
            if b == 39u8 {
                return '\'';
            }
        }
    }
    '"'
}

/// `name` between the quotes the source uses at a position.
pub open spec fn quoted_spec(source: Seq<char>, line: int, col: int, name: Seq<char>) -> Seq<char> {
    seq![quote_at(source, line, col)] + name + seq![quote_at(source, line, col)]
}

/// Wrap `name` in the quotes the source uses at a position.
pub fn quoted(source: &str, line: u32, col: u32, name: &str) -> (s: String)
    ensures
        s@ == quoted_spec(source@, line as int, col as int, name@),
{
    let q = quote_char_at(source, line, col);
    let mut s = String::new();
    push_char(&mut s, q);
    push_str(&mut s, name);
    push_char(&mut s, q);
    assert(s@ =~= quoted_spec(source@, line as int, col as int, name@));
    s
}

/// `CamelCase` to `snake_case`: `_` before each ASCII capital but the first
/// character, every character ASCII-lowered.
pub open spec fn snake(s: Seq<char>) -> Seq<char>
    decreases s.len(),
{
    if s.len() == 0 {
        Seq::empty()
    } else {
        let c = s.last();
        snake(s.drop_last()) + if 'A' <= c <= 'Z' && s.len() > 1 {
            seq!['_', ascii_lower(c)]
        } else {
            seq![ascii_lower(c)]
        }
    }
}

/// Derive a table name from a class name.
pub fn to_snake_case(s: &str) -> (r: String)
    ensures
        r@ == snake(s@),
{
    let cs = crate::text::to_chars(s);
    let mut out = String::new();
    let mut i: usize = 0;
    while i < cs.len()
        invariant
            i <= cs@.len(),
            cs@ == s@,
            out@ == snake(cs@.take(i as int)),
        decreases cs@.len() - i,
    {
        proof {
            assert(cs@.take(i + 1).drop_last() =~= cs@.take(i as int));
        }
        let ch = cs[i];
        let ghost before = out@;
        if 'A' <= ch && ch <= 'Z' && i > 0 {
            push_char(&mut out, '_');
        }
        push_char(&mut out, ascii_lower_exec(ch));
        assert(out@ =~= snake(cs@.take(i + 1)));
        i = i + 1;
    }
    assert(cs@.take(cs@.len() as int) =~= cs@);
    out
}

// ── Dispatch ─────────────────────────────────────────────────────────────────

/// The first entry whose name range holds the position, or -1.
pub open spec fn first_hit<T>(s: Seq<(String, T)>, name_range: spec_fn(T) -> Range, pos: Position) -> int
    decreases s.len(),
{
    if s.len() == 0 {
        -1
    } else {
        let k = first_hit(s.drop_last(), name_range, pos);
        if k >= 0 {
            k
        } else if pos_in_spec(pos, name_range(s.last().1)) {
            s.len() - 1
        } else {
            -1
        }
    }
}

pub open spec fn col_range() -> spec_fn(Column) -> Range {
    |c: Column| c.name_range
}

pub open spec fn rel_range() -> spec_fn(Relationship) -> Range {
    |r: Relationship| r.name_range
}

/// What the cursor is on, as positions: the model, then a column or a
/// relationship by its place in the model's index.
pub enum Hit {
    Model(int),
    Column(int, int),
    Relationship(int, int),
}

/// What the cursor is on within one model.
pub open spec fn hit_in(m: Model, i: int, pos: Position) -> Option<Hit> {
    if pos_in_spec(pos, m.name_range) {
        Some(Hit::Model(i))
    } else if first_hit(m.columns.seq(), col_range(), pos) >= 0 {
        Some(Hit::Column(i, first_hit(m.columns.seq(), col_range(), pos)))
    } else if first_hit(m.relationships.seq(), rel_range(), pos) >= 0 {
        Some(Hit::Relationship(i, first_hit(m.relationships.seq(), rel_range(), pos)))
    } else {
        None
    }
}

/// The first model of the file (from index `i` on) with a hit.
pub open spec fn dispatch_from(models: Seq<Model>, i: int, pos: Position) -> Option<Hit>
    decreases models.len() - i,
{
    if i < 0 || i >= models.len() {
        None
    } else {
        match hit_in(models[i], i, pos) {
            Some(h) => Some(h),
            None => dispatch_from(models, i + 1, pos),
        }
    }
}

/// What the cursor at `pos` is on, in a file's models.
pub open spec fn dispatch_spec(models: Seq<Model>, pos: Position) -> Option<Hit> {
    dispatch_from(models, 0, pos)
}

proof fn lemma_first_hit_props<T>(s: Seq<(String, T)>, f: spec_fn(T) -> Range, pos: Position)
    ensures
        -1 <= first_hit(s, f, pos) < s.len(),
        first_hit(s, f, pos) >= 0 ==> pos_in_spec(pos, f(s[first_hit(s, f, pos)].1)),
        first_hit(s, f, pos) >= 0 ==> forall|j: int|
            0 <= j < first_hit(s, f, pos) ==> !pos_in_spec(pos, f(#[trigger] s[j].1)),
        first_hit(s, f, pos) < 0 ==> forall|j: int| 0 <= j < s.len() ==> !pos_in_spec(pos, f(#[trigger] s[j].1)),
    decreases s.len(),
{
    if s.len() > 0 {
        lemma_first_hit_props(s.drop_last(), f, pos);
        assert(forall|j: int| 0 <= j < s.len() - 1 ==> s.drop_last()[j] == s[j]);
    }
}

fn first_col_hit(cols: &Vec<(String, Column)>, pos: Position) -> (r: Option<usize>)
    ensures
        match r {
            Some(k) => k < cols@.len() && k as int == first_hit(cols@, col_range(), pos),
            None => first_hit(cols@, col_range(), pos) < 0,
        },
{
    proof {
        lemma_first_hit_props(cols@, col_range(), pos);
    }
    let mut i: usize = 0;
    while i < cols.len()
        invariant
            i <= cols@.len(),
            forall|j: int| 0 <= j < i ==> !pos_in_spec(pos, (#[trigger] cols@[j]).1.name_range),
        decreases cols@.len() - i,
    {
        if pos_in(pos, cols[i].1.name_range) {
            proof {
                lemma_first_hit_props(cols@, col_range(), pos);
                let x = first_hit(cols@, col_range(), pos);
                if x < 0 || x > i {
                    assert(pos_in_spec(pos, col_range()(cols@[i as int].1)));
                }
                if 0 <= x < i {
                    assert(pos_in_spec(pos, cols@[x].1.name_range));
                }
            }
            return Some(i);
        }
        i = i + 1;
    }
    proof {
        lemma_first_hit_props(cols@, col_range(), pos);
        let x = first_hit(cols@, col_range(), pos);
        if x >= 0 {
            assert(pos_in_spec(pos, cols@[x].1.name_range));
        }
    }
    None
}

fn first_rel_hit(rels: &Vec<(String, Relationship)>, pos: Position) -> (r: Option<usize>)
    ensures
        match r {
            Some(k) => k < rels@.len() && k as int == first_hit(rels@, rel_range(), pos),
            None => first_hit(rels@, rel_range(), pos) < 0,
        },
{
    proof {
        lemma_first_hit_props(rels@, rel_range(), pos);
    }
    let mut i: usize = 0;
    while i < rels.len()
        invariant
            i <= rels@.len(),
            forall|j: int| 0 <= j < i ==> !pos_in_spec(pos, (#[trigger] rels@[j]).1.name_range),
        decreases rels@.len() - i,
    {
        if pos_in(pos, rels[i].1.name_range) {
            proof {
                lemma_first_hit_props(rels@, rel_range(), pos);
                let x = first_hit(rels@, rel_range(), pos);
                if x < 0 || x > i {
                    assert(pos_in_spec(pos, rel_range()(rels@[i as int].1)));
                }
                if 0 <= x < i {
                    assert(pos_in_spec(pos, rels@[x].1.name_range));
                }
            }
            return Some(i);
        }
        i = i + 1;
    }
    proof {
        lemma_first_hit_props(rels@, rel_range(), pos);
        let x = first_hit(rels@, rel_range(), pos);
        if x >= 0 {
            assert(pos_in_spec(pos, rels@[x].1.name_range));
        }
    }
    None
}

/// What the cursor is on: `(model, kind, entry)` with kind 0 for the model
/// name, 1 for a column, 2 for a relationship.
pub fn dispatch(file_models: &[Model], pos: Position) -> (r: Option<(usize, u8, usize)>)
    ensures
        match r {
            Some((i, kind, k)) => i < file_models@.len() && match dispatch_spec(file_models@, pos) {
                Some(Hit::Model(x)) => kind == 0 && x == i,
                Some(Hit::Column(x, y)) => kind == 1 && x == i && y == k && k
                    < file_models@[i as int].columns.seq().len(),
                Some(Hit::Relationship(x, y)) => kind == 2 && x == i && y == k && k
                    < file_models@[i as int].relationships.seq().len(),
                None => false,
            },
            None => dispatch_spec(file_models@, pos) is None,
        },
{
    let mut i: usize = 0;
    while i < file_models.len()
        invariant
            i <= file_models@.len(),
            dispatch_spec(file_models@, pos) == dispatch_from(file_models@, i as int, pos),
        decreases file_models@.len() - i,
    {
        let m = &file_models[i];
        if pos_in(pos, m.name_range) {
            return Some((i, 0, 0));
        }
        match first_col_hit(m.columns.entries(), pos) {
            Some(k) => {
                return Some((i, 1, k));
            },
            None => {},
        }
        match first_rel_hit(m.relationships.entries(), pos) {
            Some(k) => {
                return Some((i, 2, k));
            },
            None => {},
        }
        i = i + 1;
    }
    None
}

/// The range and current name of what the cursor is on.
pub open spec fn prepare_spec(models: Seq<Model>, pos: Position) -> Option<(Range, Seq<char>)> {
    match dispatch_spec(models, pos) {
        Some(Hit::Model(i)) => Some((models[i].name_range, models[i].name@)),
        Some(Hit::Column(i, k)) => {
            let c = models[i].columns.seq()[k].1;
            Some((c.name_range, c.name@))
        },
        Some(Hit::Relationship(i, k)) => {
            let r = models[i].relationships.seq()[k].1;
            Some((r.name_range, r.name@))
        },
        None => None,
    }
}

/// The models indexed for a file, none when it is not indexed.
pub open spec fn file_models_of(st: WorkspaceState, uri: Seq<char>) -> Seq<Model> {
    if st.file_models@.contains_key(uri) {
        st.file_models@[uri]@
    } else {
        Seq::empty()
    }
}

/// The range to rename and its placeholder text, for the symbol under the cursor.
pub fn prepare_rename(uri: &str, pos: Position, state: &WorkspaceState) -> (r: Option<(Range, String)>)
    ensures
        match r {
            Some((range, name)) => prepare_spec(file_models_of(*state, uri@), pos) == Some(
                (range, name@),
            ),
            None => prepare_spec(file_models_of(*state, uri@), pos) is None,
        },
{
    let models = match state.file_models.get(uri) {
        Some(ms) => ms,
        None => {
            return None;
        },
    };
    match dispatch(models.as_slice(), pos) {
        None => None,
        Some((i, kind, k)) => {
            let m = &models[i];
            if kind == 0 {
                Some((m.name_range, m.name.clone()))
            } else if kind == 1 {
                let c = &m.columns.entries()[k].1;
                Some((c.name_range, c.name.clone()))
            } else {
                let r = &m.relationships.entries()[k].1;
                Some((r.name_range, r.name.clone()))
            }
        },
    }
}

// ── Edits ────────────────────────────────────────────────────────────────────

/// A replacement of a range of one file.
#[derive(Clone, Debug)]
pub struct FileEdit {
    pub uri: String,
    pub range: Range,
    pub new_text: String,
}

/// An edit as (file, range, text).
pub type EditV = (Seq<char>, Range, Seq<char>);

impl View for FileEdit {
    type V = EditV;

    open spec fn view(&self) -> EditV {
        (self.uri@, self.range, self.new_text@)
    }
}

pub open spec fn eviews(v: Seq<FileEdit>) -> Seq<EditV> {
    v.map_values(|e: FileEdit| e@)
}

/// The results of `f` on each element of `s`, in order.
pub open spec fn cat_map<T, U>(s: Seq<T>, f: spec_fn(T) -> Seq<U>) -> Seq<U>
    decreases s.len(),
{
    if s.len() == 0 {
        Seq::empty()
    } else {
        cat_map(s.drop_last(), f) + f(s.last())
    }
}

pub proof fn lemma_cat_map_take<T, U>(s: Seq<T>, f: spec_fn(T) -> Seq<U>, i: int)
    requires
        0 <= i < s.len(),
    ensures
        cat_map(s.take(i + 1), f) == cat_map(s.take(i), f) + f(s[i]),
{
    assert(s.take(i + 1).drop_last() =~= s.take(i));
}

fn push_edit(out: &mut Vec<FileEdit>, uri: &str, range: Range, new_text: String)
    ensures
        eviews(final(out)@) == eviews(old(out)@).push((uri@, range, new_text@)),
{
    out.push(FileEdit { uri: to_owned(uri), range, new_text });
    assert(eviews(out@) =~= eviews(old(out)@).push((uri@, range, new_text@)));
}

/// The source text of a file, empty when it is not indexed.
pub open spec fn src_of(st: WorkspaceState, uri: Seq<char>) -> Seq<char> {
    if st.file_sources@.contains_key(uri) {
        st.file_sources@[uri]@
    } else {
        Seq::empty()
    }
}

pub(crate) fn src_exec<'a>(state: &'a WorkspaceState, uri: &str) -> (s: &'a str)
    ensures
        s@ == src_of(*state, uri@),
{
    match state.file_sources.get(uri) {
        Some(s) => s.as_str(),
        None => {
            proof {
                reveal_strlit("");
            }
            ""
        },
    }
}

/// What a rename is of, with the names it needs.
pub enum RenameKind {
    /// A model: its old class name and table, the new class name and the
    /// table derived from it.
    Model(Seq<char>, Option<Seq<char>>, Seq<char>, Seq<char>),
    /// A column: its model's name and table, its old name, the new name.
    Column(Seq<char>, Option<Seq<char>>, Seq<char>, Seq<char>),
    /// A relationship: its model's name, its old name, the new name.
    Relationship(Seq<char>, Seq<char>, Seq<char>),
}

/// The reference edits one column of file `uri` gets.
pub open spec fn col_edits(k: RenameKind, src: Seq<char>, uri: Seq<char>, c: Column) -> Seq<EditV> {
    match c.foreign_key {
        Some(fk) => {
            let q = quote_at(src, fk.range.start_line as int, fk.range.start_col as int);
            match k {
                RenameKind::Model(old_name, old_table, new_name, new_table) => {
                    let tm = old_table == Some(fk.table@);
                    let cm = fk.table@ == old_name;
                    if tm || cm {
                        let part = if cm {
                            new_name
                        } else {
                            new_table
                        };
                        seq![(uri, fk.range, seq![q] + part + "."@ + fk.column@ + seq![q])]
                    } else {
                        Seq::empty()
                    }
                },
                RenameKind::Column(model_name, old_table, old_col, new_name) => {
                    if (old_table == Some(fk.table@) || fk.table@ == model_name) && fk.column@
                        == old_col {
                        seq![(uri, fk.range, seq![q] + fk.table@ + "."@ + new_name + seq![q])]
                    } else {
                        Seq::empty()
                    }
                },
                RenameKind::Relationship(_, _, _) => Seq::empty(),
            }
        },
        None => Seq::empty(),
    }
}

/// The reference edits one relationship of file `uri` gets.
pub open spec fn rel_edits(k: RenameKind, src: Seq<char>, uri: Seq<char>, r: Relationship) -> Seq<EditV> {
    match k {
        RenameKind::Model(old_name, _, new_name, _) => match r.target_range {
            Some(tr) => if r.target_model@ == old_name {
                seq![(uri, tr, quoted_spec(src, tr.start_line as int, tr.start_col as int, new_name))]
            } else {
                Seq::empty()
            },
            None => Seq::empty(),
        },
        RenameKind::Column(_, _, _, _) => Seq::empty(),
        RenameKind::Relationship(owner, old_rel, new_name) => match r.back_populates_range {
            Some(br) => if r.target_model@ == owner && r.back_populates is Some
                && r.back_populates->0@ == old_rel {
                seq![(uri, br, quoted_spec(src, br.start_line as int, br.start_col as int, new_name))]
            } else {
                Seq::empty()
            },
            None => Seq::empty(),
        },
    }
}

pub open spec fn col_edits_f(k: RenameKind, src: Seq<char>, uri: Seq<char>) -> spec_fn((String, Column)) -> Seq<EditV> {
    |e: (String, Column)| col_edits(k, src, uri, e.1)
}

pub open spec fn rel_edits_f(k: RenameKind, src: Seq<char>, uri: Seq<char>) -> spec_fn((String, Relationship)) -> Seq<EditV> {
    |e: (String, Relationship)| rel_edits(k, src, uri, e.1)
}

/// The reference edits of one model: its columns, then its relationships.
pub open spec fn model_edits(k: RenameKind, src: Seq<char>, uri: Seq<char>, m: Model) -> Seq<EditV> {
    cat_map(m.columns.seq(), col_edits_f(k, src, uri)) + cat_map(
        m.relationships.seq(),
        rel_edits_f(k, src, uri),
    )
}

pub open spec fn model_edits_f(k: RenameKind, src: Seq<char>, uri: Seq<char>) -> spec_fn(Model) -> Seq<EditV> {
    |m: Model| model_edits(k, src, uri, m)
}

/// The reference edits of one indexed file.
pub open spec fn file_edits(k: RenameKind, st: WorkspaceState, f: (String, Vec<Model>)) -> Seq<EditV> {
    cat_map(f.1@, model_edits_f(k, src_of(st, f.0@), f.0@))
}

pub open spec fn file_edits_f(k: RenameKind, st: WorkspaceState) -> spec_fn((String, Vec<Model>)) -> Seq<EditV> {
    |f: (String, Vec<Model>)| file_edits(k, st, f)
}

/// The reference edits across every indexed file, file by file.
pub open spec fn ref_edits(k: RenameKind, st: WorkspaceState) -> Seq<EditV> {
    cat_map(st.file_models.seq(), file_edits_f(k, st))
}

/// An exec description of the rename.
enum Kind<'a> {
    Model { old_name: &'a str, old_table: Option<&'a str>, new_name: &'a str, new_table: &'a str },
    Column { model_name: &'a str, old_table: Option<&'a str>, old_col: &'a str, new_name: &'a str },
    Relationship { owner: &'a str, old_rel: &'a str, new_name: &'a str },
}

spec fn opt_v(o: Option<&str>) -> Option<Seq<char>> {
    match o {
        Some(s) => Some(s@),
        None => None,
    }
}

spec fn kind_v(k: Kind) -> RenameKind {
    match k {
        Kind::Model { old_name, old_table, new_name, new_table } => RenameKind::Model(
            old_name@,
            opt_v(old_table),
            new_name@,
            new_table@,
        ),
        Kind::Column { model_name, old_table, old_col, new_name } => RenameKind::Column(
            model_name@,
            opt_v(old_table),
            old_col@,
            new_name@,
        ),
        Kind::Relationship { owner, old_rel, new_name } => RenameKind::Relationship(
            owner@,
            old_rel@,
            new_name@,
        ),
    }
}

fn opt_eq(a: Option<&str>, b: &str) -> (r: bool)
    ensures
        r == (opt_v(a) == Some(b@)),
{
    match a {
        Some(x) => str_eq(x, b),
        None => false,
    }
}

fn col_edits_exec(k: &Kind, src: &str, uri: &str, c: &Column, out: &mut Vec<FileEdit>)
    ensures
        eviews(final(out)@) == eviews(old(out)@) + col_edits(kind_v(*k), src@, uri@, *c),
{
    if let Some(fk) = &c.foreign_key {
        let q = quote_char_at(src, fk.range.start_line, fk.range.start_col);
        match k {
            Kind::Model { old_name, old_table, new_name, new_table } => {
                let tm = opt_eq(*old_table, fk.table.as_str());
                let cm = str_eq(fk.table.as_str(), old_name);
                if tm || cm {
                    let part = if cm {
                        *new_name
                    } else {
                        *new_table
                    };
                    let mut t = String::new();
                    push_char(&mut t, q);
                    push_str(&mut t, part);
                    push_str(&mut t, ".");
                    push_str(&mut t, fk.column.as_str());
                    push_char(&mut t, q);
                    assert(t@ =~= seq![q] + part@ + "."@ + fk.column@ + seq![q]);
                    push_edit(out, uri, fk.range, t);
                }
            },
            Kind::Column { model_name, old_table, old_col, new_name } => {
                if (opt_eq(*old_table, fk.table.as_str()) || str_eq(fk.table.as_str(), model_name))
                    && str_eq(fk.column.as_str(), old_col) {
                    let mut t = String::new();
                    push_char(&mut t, q);
                    push_str(&mut t, fk.table.as_str());
                    push_str(&mut t, ".");
                    push_str(&mut t, new_name);
                    push_char(&mut t, q);
                    assert(t@ =~= seq![q] + fk.table@ + "."@ + new_name@ + seq![q]);
                    push_edit(out, uri, fk.range, t);
                }
            },
            Kind::Relationship { .. } => {},
        }
    }
}

fn rel_edits_exec(k: &Kind, src: &str, uri: &str, r: &Relationship, out: &mut Vec<FileEdit>)
    ensures
        eviews(final(out)@) == eviews(old(out)@) + rel_edits(kind_v(*k), src@, uri@, *r),
{
    match k {
        Kind::Model { old_name, new_name, .. } => {
            if let Some(tr) = r.target_range {
                if str_eq(r.target_model.as_str(), old_name) {
                    let t = quoted(src, tr.start_line, tr.start_col, new_name);
                    push_edit(out, uri, tr, t);
                }
            }
        },
        Kind::Column { .. } => {},
        Kind::Relationship { owner, old_rel, new_name } => {
            if let Some(br) = r.back_populates_range {
                let same = match &r.back_populates {
                    Some(b) => str_eq(b.as_str(), old_rel),
                    None => false,
                };
                if str_eq(r.target_model.as_str(), owner) && same {
                    let t = quoted(src, br.start_line, br.start_col, new_name);
                    push_edit(out, uri, br, t);
                }
            }
        },
    }
}

fn model_edits_exec(k: &Kind, src: &str, uri: &str, m: &Model, out: &mut Vec<FileEdit>)
    ensures
        eviews(final(out)@) == eviews(old(out)@) + model_edits(kind_v(*k), src@, uri@, *m),
{
    let ghost start = eviews(out@);
    let ghost kv = kind_v(*k);
    let cols = m.columns.entries();
    let mut i: usize = 0;
    while i < cols.len()
        invariant
            i <= cols@.len(),
            kv == kind_v(*k),
            cols@ == m.columns.seq(),
            eviews(out@) == start + cat_map(cols@.take(i as int), col_edits_f(kv, src@, uri@)),
        decreases cols@.len() - i,
    {
        proof {
            lemma_cat_map_take(cols@, col_edits_f(kv, src@, uri@), i as int);
        }
        col_edits_exec(k, src, uri, &cols[i].1, out);
        i = i + 1;
    }
    assert(cols@.take(cols@.len() as int) =~= cols@);
    let ghost mid = eviews(out@);
    let rels = m.relationships.entries();
    let mut j: usize = 0;
    while j < rels.len()
        invariant
            j <= rels@.len(),
            kv == kind_v(*k),
            rels@ == m.relationships.seq(),
            eviews(out@) == mid + cat_map(rels@.take(j as int), rel_edits_f(kv, src@, uri@)),
        decreases rels@.len() - j,
    {
        proof {
            lemma_cat_map_take(rels@, rel_edits_f(kv, src@, uri@), j as int);
        }
        rel_edits_exec(k, src, uri, &rels[j].1, out);
        j = j + 1;
    }
    assert(rels@.take(rels@.len() as int) =~= rels@);
    assert(eviews(out@) =~= start + model_edits(kv, src@, uri@, *m));
}

fn ref_edits_exec(k: &Kind, state: &WorkspaceState, out: &mut Vec<FileEdit>)
    ensures
        eviews(final(out)@) == eviews(old(out)@) + ref_edits(kind_v(*k), *state),
{
    let ghost start = eviews(out@);
    let ghost kv = kind_v(*k);
    let files = state.file_models.entries();
    let mut i: usize = 0;
    while i < files.len()
        invariant
            i <= files@.len(),
            kv == kind_v(*k),
            files@ == state.file_models.seq(),
            eviews(out@) == start + cat_map(files@.take(i as int), file_edits_f(kv, *state)),
        decreases files@.len() - i,
    {
        proof {
            lemma_cat_map_take(files@, file_edits_f(kv, *state), i as int);
        }
        let uri = files[i].0.as_str();
        let src = src_exec(state, uri);
        let ms = &files[i].1;
        let ghost s0 = eviews(out@);
        let mut j: usize = 0;
        while j < ms.len()
            invariant
                j <= ms@.len(),
                kv == kind_v(*k),
                eviews(out@) == s0 + cat_map(ms@.take(j as int), model_edits_f(kv, src@, uri@)),
            decreases ms@.len() - j,
        {
            proof {
                lemma_cat_map_take(ms@, model_edits_f(kv, src@, uri@), j as int);
            }
            model_edits_exec(k, src, uri, &ms[j], out);
            j = j + 1;
        }
        assert(ms@.take(ms@.len() as int) =~= ms@);
        i = i + 1;
    }
    assert(files@.take(files@.len() as int) =~= files@);
}

// ── Grouping by file ─────────────────────────────────────────────────────────

/// A replacement of a range of text.
#[derive(Clone, Debug)]
pub struct TextEdit {
    pub range: Range,
    pub new_text: String,
}

impl View for TextEdit {
    type V = (Range, Seq<char>);

    open spec fn view(&self) -> (Range, Seq<char>) {
        (self.range, self.new_text@)
    }
}

pub open spec fn tviews(v: Seq<TextEdit>) -> Seq<(Range, Seq<char>)> {
    v.map_values(|e: TextEdit| e@)
}

/// Edits to several files, grouped by file.
pub struct WorkspaceEdit {
    pub changes: StrMap<Vec<TextEdit>>,
}

/// The edits of `flat` to file `u`, in order.
pub open spec fn edits_for(flat: Seq<EditV>, u: Seq<char>) -> Seq<(Range, Seq<char>)>
    decreases flat.len(),
{
    if flat.len() == 0 {
        Seq::empty()
    } else {
        let rest = edits_for(flat.drop_last(), u);
        if flat.last().0 == u {
            rest.push((flat.last().1, flat.last().2))
        } else {
            rest
        }
    }
}

/// `m` holds exactly the files `flat` edits, each with its edits in order.
pub open spec fn groups(m: Map<Seq<char>, Vec<TextEdit>>, flat: Seq<EditV>) -> bool {
    &&& forall|u: Seq<char>| m.contains_key(u) <==> exists|j: int| 0 <= j < flat.len() && (#[trigger] flat[j]).0 == u
    &&& forall|u: Seq<char>| #[trigger] m.contains_key(u) ==> tviews(m[u]@) == edits_for(flat, u)
}

/// Group edits by file, keeping their order within each file.
pub fn group_edits(flat: Vec<FileEdit>) -> (w: WorkspaceEdit)
    ensures
        groups(w.changes@, eviews(flat@)),
{
    let ghost fv = eviews(flat@);
    let n = flat.len();
    let mut map: StrMap<Vec<TextEdit>> = StrMap::new();
    for e in it: flat
        invariant
            n == fv.len(),
            it.seq() == flat@,
            fv == eviews(flat@),
            groups(map@, fv.take(it.index() as int)),
    {
        let ghost i = it.index();
        let ghost prev = fv.take(i as int);
        proof {
            assert(fv.take(i + 1).drop_last() =~= prev);
            assert(fv[i as int] == e@);
        }
        let ghost old_map = map@;
        let FileEdit { uri, range, new_text } = e;
        let mut v = match map.remove(uri.as_str()) {
            Some(v) => v,
            None => Vec::new(),
        };
        let ghost vb = tviews(v@);
        v.push(TextEdit { range, new_text });
        proof {
            assert(tviews(v@) =~= vb.push((range, new_text@)));
        }
        map.insert(uri, v);
        proof {
            let cur = fv.take(i + 1);
            assert(cur.last() == (uri@, range, new_text@));
            assert forall|u: Seq<char>| map@.contains_key(u) <==> exists|j: int|
                0 <= j < cur.len() && (#[trigger] cur[j]).0 == u by {
                if u == uri@ {
                    assert(cur[i as int].0 == u);
                } else {
                    if map@.contains_key(u) {
                        assert(old_map.contains_key(u));
                        let j = choose|j: int| 0 <= j < prev.len() && (#[trigger] prev[j]).0 == u;
                        assert(cur[j] == prev[j]);
                    }
                    if exists|j: int| 0 <= j < cur.len() && (#[trigger] cur[j]).0 == u {
                        let j = choose|j: int| 0 <= j < cur.len() && (#[trigger] cur[j]).0 == u;
                        assert(j < prev.len());
                        assert(prev[j] == cur[j]);
                    }
                }
            }
            assert forall|u: Seq<char>| #[trigger] map@.contains_key(u) implies tviews(map@[u]@)
                == edits_for(cur, u) by {
                if u == uri@ {
                    if !old_map.contains_key(u) {
                        if prev.len() > 0 {
                            lemma_edits_for_absent(prev, u);
                        }
                        assert(vb =~= Seq::<(Range, Seq<char>)>::empty());
                        assert(edits_for(prev, u) =~= Seq::<(Range, Seq<char>)>::empty());
                    }
                } else {
                    assert(old_map.contains_key(u));
                }
            }
        }
    }
    proof {
        assert(fv.take(n as int) =~= fv);
    }
    WorkspaceEdit { changes: map }
}

proof fn lemma_edits_for_absent(flat: Seq<EditV>, u: Seq<char>)
    requires
        forall|j: int| 0 <= j < flat.len() ==> (#[trigger] flat[j]).0 != u,
    ensures
        edits_for(flat, u) == Seq::<(Range, Seq<char>)>::empty(),
    decreases flat.len(),
{
    if flat.len() > 0 {
        assert(forall|j: int| 0 <= j < flat.len() - 1 ==> flat.drop_last()[j] == flat[j]);
        lemma_edits_for_absent(flat.drop_last(), u);
    }
}

// ── compute_rename ───────────────────────────────────────────────────────────

pub open spec fn table_v(m: Model) -> Option<Seq<char>> {
    match m.table_name {
        Some(t) => Some(t@),
        None => None,
    }
}

/// The edits of a rename at `pos` in file `uri` to `new_name`: the
/// declaration first, then every reference across the workspace.
pub open spec fn rename_edits(st: WorkspaceState, uri: Seq<char>, pos: Position, new_name: Seq<char>) -> Option<
    Seq<EditV>,
> {
    let ms = file_models_of(st, uri);
    match dispatch_spec(ms, pos) {
        Some(Hit::Model(i)) => {
            let m = ms[i];
            Some(
                seq![(uri, m.name_range, new_name)] + ref_edits(
                    RenameKind::Model(m.name@, table_v(m), new_name, snake(new_name)),
                    st,
                ),
            )
        },
        Some(Hit::Column(i, k)) => {
            let m = ms[i];
            let c = m.columns.seq()[k].1;
            Some(
                seq![(uri, c.name_range, new_name)] + ref_edits(
                    RenameKind::Column(m.name@, table_v(m), c.name@, new_name),
                    st,
                ),
            )
        },
        Some(Hit::Relationship(i, k)) => {
            let m = ms[i];
            let r = m.relationships.seq()[k].1;
            Some(
                seq![(uri, r.name_range, new_name)] + ref_edits(
                    RenameKind::Relationship(m.name@, r.name@, new_name),
                    st,
                ),
            )
        },
        None => None,
    }
}

fn table_opt(m: &Model) -> (r: Option<&str>)
    ensures
        opt_v(r) == table_v(*m),
{
    match &m.table_name {
        Some(t) => Some(t.as_str()),
        None => None,
    }
}

/// Rename the model, column or relationship under the cursor, with every
/// reference to it across the workspace; `None` when the cursor is on none.
pub fn compute_rename(uri: &str, pos: Position, new_name: &str, state: &WorkspaceState) -> (r: Option<
    WorkspaceEdit,
>)
    ensures
        match rename_edits(*state, uri@, pos, new_name@) {
            Some(flat) => r is Some && groups(r->0.changes@, flat),
            None => r is None,
        },
{
    let models = match state.file_models.get(uri) {
        Some(ms) => ms,
        None => {
            return None;
        },
    };
    let (i, kind, k) = match dispatch(models.as_slice(), pos) {
        Some(h) => h,
        None => {
            return None;
        },
    };
    let m = &models[i];
    let mut out: Vec<FileEdit> = Vec::new();
    if kind == 0 {
        push_edit(&mut out, uri, m.name_range, to_owned(new_name));
        let new_table = to_snake_case(new_name);
        let kd = Kind::Model {
            old_name: m.name.as_str(),
            old_table: table_opt(m),
            new_name,
            new_table: new_table.as_str(),
        };
        ref_edits_exec(&kd, state, &mut out);
    } else if kind == 1 {
        let c = &m.columns.entries()[k].1;
        push_edit(&mut out, uri, c.name_range, to_owned(new_name));
        let kd = Kind::Column {
            model_name: m.name.as_str(),
            old_table: table_opt(m),
            old_col: c.name.as_str(),
            new_name,
        };
        ref_edits_exec(&kd, state, &mut out);
    } else {
        let rel = &m.relationships.entries()[k].1;
        push_edit(&mut out, uri, rel.name_range, to_owned(new_name));
        let kd = Kind::Relationship { owner: m.name.as_str(), old_rel: rel.name.as_str(), new_name };
        ref_edits_exec(&kd, state, &mut out);
    }
    proof {
        assert(eviews(out@) =~= rename_edits(*state, uri@, pos, new_name@)->0);
    }
    Some(group_edits(out))
}

/// How many characters after the first are ASCII capitals.
pub open spec fn caps_after_first(s: Seq<char>) -> nat
    decreases s.len(),
{
    if s.len() <= 1 {
        0
    } else {
        caps_after_first(s.drop_last()) + if 'A' <= s.last() && s.last() <= 'Z' {
            1nat
        } else {
            0nat
        }
    }
}

/// The table name derived from a class name lays out the class name's
/// characters in order, each ASCII-lowered, with one `_` inserted just
/// before every ASCII capital past the first character and nowhere else:
/// character `i` lands at `i` plus the capitals up to it, and the result
/// is as long as the name plus those capitals. So `UserAccount` gives
/// `user_account`.
pub proof fn law_snake_layout(s: Seq<char>)
    ensures
        snake(s).len() == s.len() + caps_after_first(s),
        forall|i: int|
            0 <= i < s.len() ==> i + caps_after_first(s.take(i + 1)) < snake(s).len() && snake(s)[i
                + caps_after_first(#[trigger] s.take(i + 1))] == ascii_lower(s[i]),
        forall|i: int|
            1 <= i < s.len() && 'A' <= s[i] && s[i] <= 'Z' ==> snake(s)[i + caps_after_first(
                #[trigger] s.take(i + 1),
            ) - 1] == '_',
    decreases s.len(),
{
    if s.len() > 0 {
        let p = s.drop_last();
        let n = s.len() - 1;
        law_snake_layout(p);
        assert(s.take(n + 1) =~= s);
        assert forall|i: int| 0 <= i < n implies #[trigger] s.take(i + 1) == p.take(i + 1) by {
            assert(s.take(i + 1) =~= p.take(i + 1));
        }
        let c = s.last();
        let piece = if 'A' <= c <= 'Z' && s.len() > 1 {
            seq!['_', ascii_lower(c)]
        } else {
            seq![ascii_lower(c)]
        };
        assert(snake(s) == snake(p) + piece);
        if s.len() == 1 {
            assert(caps_after_first(s) == 0);
        }
        assert forall|i: int|
            0 <= i < s.len() implies i + caps_after_first(s.take(i + 1)) < snake(s).len() && snake(s)[i
                + caps_after_first(#[trigger] s.take(i + 1))] == ascii_lower(s[i]) by {
            if i < n {
                assert(p[i] == s[i]);
                assert(s.take(i + 1) == p.take(i + 1));
            }
        }
        assert forall|i: int|
            1 <= i < s.len() && 'A' <= s[i] && s[i] <= 'Z' implies snake(s)[i + caps_after_first(
                #[trigger] s.take(i + 1),
            ) - 1] == '_' by {
            if i < n {
                assert(p[i] == s[i]);
                assert(s.take(i + 1) == p.take(i + 1));
            }
        }
    }
}

} // verus!
