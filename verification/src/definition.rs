//! Go to definition: from a foreign key, relationship target, back-reference,
//! constraint column or Alembic operation argument to the model, column or
//! relationship it names.
use vstd::prelude::*;

use crate::alembic::{MigrationFile, OpCall};
use crate::completion::{model_with_table, point_path, point_path_exec, table_model, table_model_exec};
use crate::f01::{lookup_model, lookup_model_exec};
use crate::state::WorkspaceState;
use crate::syntax::SyntaxNode;
use crate::text::{trim_char, trim_char_exec, to_chars};
use crate::types::{pos_in, pos_in_spec, Column, Model, Position, Range, Relationship, TableArg};

verus! {

/// A place in a file.
#[derive(Debug, Clone)]
pub struct Location {
    pub uri: String,
    pub range: Range,
}

pub open spec fn loc_v(l: Option<Location>) -> Option<(Seq<char>, Range)> {
    match l {
        Some(x) => Some((x.uri@, x.range)),
        None => None,
    }
}

/// Where the model class `name` is declared.
pub open spec fn model_location(st: WorkspaceState, name: Seq<char>) -> Option<(Seq<char>, Range)> {
    if st.model_index@.contains_key(name) {
        Some((st.model_index@[name].uri@, st.model_index@[name].range))
    } else {
        None
    }
}

/// Where column `col` of model `model` is declared.
pub open spec fn column_location(st: WorkspaceState, model: Seq<char>, col: Seq<char>) -> Option<(Seq<char>, Range)> {
    match lookup_model(st, model) {
        Some(m) => if m.columns@.contains_key(col) {
            Some((st.model_index@[model].uri@, m.columns@[col].name_range))
        } else {
            None
        },
        None => None,
    }
}

/// A foreign key's target column, else the class of its table.
pub open spec fn fk_location(st: WorkspaceState, table: Seq<char>, col: Seq<char>) -> Option<(Seq<char>, Range)> {
    if st.table_index@.contains_key(table) {
        let mn = st.table_index@[table]@;
        if column_location(st, mn, col) is Some {
            column_location(st, mn, col)
        } else {
            model_location(st, mn)
        }
    } else {
        None
    }
}

/// The relationship `bp` of model `target`.
pub open spec fn back_populates_location(st: WorkspaceState, target: Seq<char>, bp: Seq<char>) -> Option<
    (Seq<char>, Range),
> {
    match lookup_model(st, target) {
        Some(m) => if m.relationships@.contains_key(bp) {
            Some((st.model_index@[target].uri@, m.relationships@[bp].name_range))
        } else {
            None
        },
        None => None,
    }
}

/// What the cursor on one relationship resolves to, if it is on a part of it.
pub open spec fn rel_def(st: WorkspaceState, rel: Relationship, pos: Position) -> Option<Option<(Seq<char>, Range)>> {
    if rel.back_populates is Some && rel.back_populates_range is Some && pos_in_spec(pos, rel.back_populates_range->0) {
        Some(back_populates_location(st, rel.target_model@, rel.back_populates->0@))
    } else if rel.target_range is Some && pos_in_spec(pos, rel.target_range->0) {
        Some(model_location(st, rel.target_model@))
    } else {
        None
    }
}

/// The first relationship (from `i`) the cursor is on decides.
pub open spec fn rels_def(st: WorkspaceState, rels: Seq<(String, Relationship)>, pos: Position, i: int) -> Option<
    Option<(Seq<char>, Range)>,
>
    decreases rels.len() - i,
{
    if i < 0 || i >= rels.len() {
        None
    } else if rel_def(st, rels[i].1, pos) is Some {
        rel_def(st, rels[i].1, pos)
    } else {
        rels_def(st, rels, pos, i + 1)
    }
}

/// The first foreign key (from `i`) the cursor is on decides.
pub open spec fn cols_def(st: WorkspaceState, cols: Seq<(String, Column)>, pos: Position, i: int) -> Option<
    Option<(Seq<char>, Range)>,
>
    decreases cols.len() - i,
{
    if i < 0 || i >= cols.len() {
        None
    } else if cols[i].1.foreign_key is Some && pos_in_spec(pos, cols[i].1.foreign_key->0.range) {
        Some(fk_location(st, cols[i].1.foreign_key->0.table@, cols[i].1.foreign_key->0.column@))
    } else {
        cols_def(st, cols, pos, i + 1)
    }
}

/// The first constraint column string (from `j` of entry `i`) the cursor is
/// on that names a column of the model.
pub open spec fn table_args_def(uri: Seq<char>, m: Model, pos: Position, i: int, j: int) -> Option<(Seq<char>, Range)>
    decreases m.table_args@.len() - i, m.table_args@[i].columns@.len() - j,
{
    if i < 0 || i >= m.table_args@.len() {
        None
    } else {
        let ta = m.table_args@[i];
        if j < 0 || j >= ta.columns@.len() || j >= ta.column_ranges@.len() {
            table_args_def(uri, m, pos, i + 1, 0)
        } else if pos_in_spec(pos, ta.column_ranges@[j]) && m.columns@.contains_key(ta.columns@[j]@) {
            Some((uri, m.columns@[ta.columns@[j]@].name_range))
        } else {
            table_args_def(uri, m, pos, i, j + 1)
        }
    }
}

/// What the cursor resolves to within one model, if it is on a reference.
pub open spec fn model_def(uri: Seq<char>, m: Model, pos: Position, st: WorkspaceState) -> Option<(Seq<char>, Range)> {
    match rels_def(st, m.relationships.seq(), pos, 0) {
        Some(d) => d,
        None => match cols_def(st, m.columns.seq(), pos, 0) {
            Some(d) => d,
            None => table_args_def(uri, m, pos, 0, 0),
        },
    }
}

/// The first model of the file (from `i`) that resolves the cursor.
pub open spec fn models_def(uri: Seq<char>, ms: Seq<Model>, pos: Position, st: WorkspaceState, i: int) -> Option<
    (Seq<char>, Range),
>
    decreases ms.len() - i,
{
    if i < 0 || i >= ms.len() {
        None
    } else if model_def(uri, ms[i], pos, st) is Some {
        model_def(uri, ms[i], pos, st)
    } else {
        models_def(uri, ms, pos, st, i + 1)
    }
}

/// The cursor is in the range: on its first line at or after its start, on
/// its last line before its end, or on a line in between.
pub open spec fn in_op_range(pos: Position, r: Range) -> bool {
    (pos.line == r.start_line && pos.character >= r.start_col) || (pos.line == r.end_line && pos.character
        < r.end_col) || (pos.line > r.start_line && pos.line < r.end_line)
}

/// The class of table `t`.
pub open spec fn table_location(st: WorkspaceState, t: Seq<char>) -> Option<(Seq<char>, Range)> {
    if st.table_index@.contains_key(t) {
        model_location(st, st.table_index@[t]@)
    } else {
        None
    }
}

/// Column `c` of the model mapping table `t`.
pub open spec fn table_column_location(st: WorkspaceState, t: Seq<char>, c: Seq<char>) -> Option<(Seq<char>, Range)> {
    match table_model(st, t) {
        Some(m) => if m.columns@.contains_key(c) {
            Some((st.model_index@[st.table_index@[t]@].uri@, m.columns@[c].name_range))
        } else {
            None
        },
        None => None,
    }
}

/// The first operation (from `i`) with an argument at the cursor decides.
pub open spec fn ops_def(st: WorkspaceState, ops: Seq<OpCall>, pos: Position, i: int) -> Option<(Seq<char>, Range)>
    decreases ops.len() - i,
{
    if i < 0 || i >= ops.len() {
        None
    } else {
        let op = ops[i];
        if op.table_name is Some && in_op_range(pos, op.table_name->0.range) {
            table_location(st, op.table_name->0.name@)
        } else if op.column_name is Some && in_op_range(pos, op.column_name->0.range) {
            match op.table_name {
                Some(t) => table_column_location(st, t.name@, op.column_name->0.name@),
                None => None,
            }
        } else {
            ops_def(st, ops, pos, i + 1)
        }
    }
}

/// The text at the cursor names a model (quotes stripped).
pub open spec fn leaf_def(st: WorkspaceState, uri: Seq<char>, pos: Position) -> Option<(Seq<char>, Range)> {
    if st.parse_trees@.contains_key(uri) && st.file_sources@.contains_key(uri) {
        let leaf = point_path(st.parse_trees@[uri], (pos.line, pos.character)).last();
        let bare = trim_char(trim_char(leaf.text@, '"'), '\'');
        if st.model_index@.contains_key(bare) {
            model_location(st, bare)
        } else {
            None
        }
    } else {
        None
    }
}

/// The definition the cursor resolves to: in a migration, through its
/// operation arguments only; in a model file, through the references the
/// models record, then through the word at the cursor.
pub open spec fn definition_spec(uri: Seq<char>, pos: Position, st: WorkspaceState) -> Option<(Seq<char>, Range)> {
    if st.migration_files@.contains_key(uri) {
        ops_def(st, st.migration_files@[uri].op_calls@, pos, 0)
    } else if !st.file_models@.contains_key(uri) {
        None
    } else if models_def(uri, st.file_models@[uri]@, pos, st, 0) is Some {
        models_def(uri, st.file_models@[uri]@, pos, st, 0)
    } else {
        leaf_def(st, uri, pos)
    }
}

fn model_location_exec(state: &WorkspaceState, name: &str) -> (r: Option<Location>)
    ensures
        loc_v(r) == model_location(*state, name@),
{
    let loc = state.model_index.get(name)?;
    Some(Location { uri: loc.uri.clone(), range: loc.range })
}

fn column_location_exec(state: &WorkspaceState, model: &str, col: &str) -> (r: Option<Location>)
    ensures
        loc_v(r) == column_location(*state, model@, col@),
{
    let m = lookup_model_exec(state, model)?;
    let loc = state.model_index.get(model)?;
    let c = m.columns.get(col)?;
    Some(Location { uri: loc.uri.clone(), range: c.name_range })
}

fn fk_location_exec(state: &WorkspaceState, table: &str, col: &str) -> (r: Option<Location>)
    ensures
        loc_v(r) == fk_location(*state, table@, col@),
{
    let mn = state.table_index.get(table)?;
    match column_location_exec(state, mn.as_str(), col) {
        Some(l) => Some(l),
        None => model_location_exec(state, mn.as_str()),
    }
}

fn back_populates_location_exec(state: &WorkspaceState, target: &str, bp: &str) -> (r: Option<Location>)
    ensures
        loc_v(r) == back_populates_location(*state, target@, bp@),
{
    let m = lookup_model_exec(state, target)?;
    let loc = state.model_index.get(target)?;
    let rel = m.relationships.get(bp)?;
    Some(Location { uri: loc.uri.clone(), range: rel.name_range })
}

fn rel_def_exec(state: &WorkspaceState, rel: &Relationship, pos: Position) -> (r: Option<Option<Location>>)
    ensures
        match r {
            Some(l) => rel_def(*state, *rel, pos) == Some(loc_v(l)),
            None => rel_def(*state, *rel, pos) is None,
        },
{
    if let (Some(bp), Some(bpr)) = (&rel.back_populates, rel.back_populates_range) {
        if pos_in(pos, bpr) {
            return Some(back_populates_location_exec(state, rel.target_model.as_str(), bp.as_str()));
        }
    }
    if let Some(tr) = rel.target_range {
        if pos_in(pos, tr) {
            return Some(model_location_exec(state, rel.target_model.as_str()));
        }
    }
    None
}

fn model_def_exec(uri: &str, m: &Model, pos: Position, state: &WorkspaceState) -> (r: Option<Location>)
    ensures
        loc_v(r) == model_def(uri@, *m, pos, *state),
{
    let rels = m.relationships.entries();
    let mut i: usize = 0;
    while i < rels.len()
        invariant
            i <= rels@.len(),
            rels@ == m.relationships.seq(),
            rels_def(*state, rels@, pos, 0) == rels_def(*state, rels@, pos, i as int),
        decreases rels@.len() - i,
    {
        if let Some(d) = rel_def_exec(state, &rels[i].1, pos) {
            return d;
        }
        i = i + 1;
    }
    let cols = m.columns.entries();
    let mut k: usize = 0;
    while k < cols.len()
        invariant
            k <= cols@.len(),
            cols@ == m.columns.seq(),
            rels_def(*state, m.relationships.seq(), pos, 0) is None,
            cols_def(*state, cols@, pos, 0) == cols_def(*state, cols@, pos, k as int),
        decreases cols@.len() - k,
    {
        if let Some(fk) = &cols[k].1.foreign_key {
            if pos_in(pos, fk.range) {
                return fk_location_exec(state, fk.table.as_str(), fk.column.as_str());
            }
        }
        k = k + 1;
    }
    let mut a: usize = 0;
    while a < m.table_args.len()
        invariant
            a <= m.table_args@.len(),
            rels_def(*state, m.relationships.seq(), pos, 0) is None,
            cols_def(*state, m.columns.seq(), pos, 0) is None,
            table_args_def(uri@, *m, pos, 0, 0) == table_args_def(uri@, *m, pos, a as int, 0),
        decreases m.table_args@.len() - a,
    {
        let ta = &m.table_args[a];
        let mut j: usize = 0;
        while j < ta.columns.len() && j < ta.column_ranges.len()
            invariant
                a < m.table_args@.len(),
                *ta == m.table_args@[a as int],
                rels_def(*state, m.relationships.seq(), pos, 0) is None,
                cols_def(*state, m.columns.seq(), pos, 0) is None,
                j <= ta.columns@.len(),
                table_args_def(uri@, *m, pos, 0, 0) == table_args_def(uri@, *m, pos, a as int, j as int),
            decreases ta.columns@.len() - j,
        {
            if pos_in(pos, ta.column_ranges[j]) {
                if let Some(c) = m.columns.get(ta.columns[j].as_str()) {
                    return Some(Location { uri: crate::text::to_owned(uri), range: c.name_range });
                }
            }
            j = j + 1;
        }
        a = a + 1;
    }
    None
}

fn in_op_range_exec(pos: Position, r: Range) -> (b: bool)
    ensures
        b == in_op_range(pos, r),
{
    (pos.line == r.start_line && pos.character >= r.start_col) || (pos.line == r.end_line && pos.character
        < r.end_col) || (pos.line > r.start_line && pos.line < r.end_line)
}

fn table_location_exec(state: &WorkspaceState, t: &str) -> (r: Option<Location>)
    ensures
        loc_v(r) == table_location(*state, t@),
{
    let mn = state.table_index.get(t)?;
    model_location_exec(state, mn.as_str())
}

fn table_column_location_exec(state: &WorkspaceState, t: &str, c: &str) -> (r: Option<Location>)
    ensures
        loc_v(r) == table_column_location(*state, t@, c@),
{
    let m = table_model_exec(state, t)?;
    let mn = state.table_index.get(t)?;
    let loc = state.model_index.get(mn.as_str())?;
    let col = m.columns.get(c)?;
    Some(Location { uri: loc.uri.clone(), range: col.name_range })
}

fn ops_def_exec(state: &WorkspaceState, mf: &MigrationFile, pos: Position) -> (r: Option<Location>)
    ensures
        loc_v(r) == ops_def(*state, mf.op_calls@, pos, 0),
{
    let mut i: usize = 0;
    while i < mf.op_calls.len()
        invariant
            i <= mf.op_calls@.len(),
            ops_def(*state, mf.op_calls@, pos, 0) == ops_def(*state, mf.op_calls@, pos, i as int),
        decreases mf.op_calls@.len() - i,
    {
        let op = &mf.op_calls[i];
        if let Some(tref) = &op.table_name {
            if in_op_range_exec(pos, tref.range) {
                return table_location_exec(state, tref.name.as_str());
            }
        }
        if let Some(cref) = &op.column_name {
            if in_op_range_exec(pos, cref.range) {
                let t = match &op.table_name {
                    Some(t) => t,
                    None => return None,
                };
                return table_column_location_exec(state, t.name.as_str(), cref.name.as_str());
            }
        }
        i = i + 1;
    }
    None
}

/// The definition of the reference at `pos` in file `uri`, if it names one.
pub fn resolve_definition(uri: &str, _source: &str, pos: Position, state: &WorkspaceState) -> (r: Option<Location>)
    ensures
        loc_v(r) == definition_spec(uri@, pos, *state),
{
    if let Some(mf) = state.migration_files.get(uri) {
        return ops_def_exec(state, mf, pos);
    }
    let models = state.file_models.get(uri)?;
    let mut i: usize = 0;
    while i < models.len()
        invariant
            i <= models@.len(),
            state.file_models@.contains_key(uri@),
            !state.migration_files@.contains_key(uri@),
            *models == state.file_models@[uri@],
            models_def(uri@, models@, pos, *state, 0) == models_def(uri@, models@, pos, *state, i as int),
        decreases models@.len() - i,
    {
        if let Some(l) = model_def_exec(uri, &models[i], pos, state) {
            return Some(l);
        }
        i = i + 1;
    }
    let root = state.parse_trees.get(uri)?;
    if !state.file_sources.contains_key(uri) {
        return None;
    }
    let path = point_path_exec(root, (pos.line, pos.character));
    let ghost pv = path@.map_values(|c: &SyntaxNode| *c);
    assert(pv.len() >= 1);
    let leaf = path[path.len() - 1];
    assert(pv.last() == *leaf);
    let t1 = trim_char_exec(to_chars(leaf.text.as_str()).as_slice(), '"');
    let bare_chars = trim_char_exec(t1.as_slice(), '\'');
    let bare = crate::text::from_chars(bare_chars.as_slice());
    if state.model_index.contains_key(bare.as_str()) {
        return model_location_exec(state, bare.as_str());
    }
    None
}

} // verus!
