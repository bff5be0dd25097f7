//! Find references: every foreign key, relationship target, base-class list
//! and back-reference across the workspace that names the model, column or
//! relationship under the cursor.
use vstd::prelude::*;

use crate::definition::Location;
use crate::rename::{cat_map, lemma_cat_map_take};
use crate::state::WorkspaceState;
use crate::text::str_eq;
use crate::types::{pos_in, pos_in_spec, Column, Model, Position, Range, Relationship};

verus! {

pub type LocV = (Seq<char>, Range);

pub open spec fn locviews(s: Seq<Location>) -> Seq<LocV> {
    s.map_values(|l: Location| (l.uri@, l.range))
}

/// A foreign key points at the model: by its table name or its class name.
pub open spec fn fk_names_model(fk_table: Seq<char>, model: Seq<char>, table: Option<Seq<char>>) -> bool {
    (table is Some && fk_table == table->0) || fk_table == model
}

pub open spec fn opt_str(o: Option<String>) -> Option<Seq<char>> {
    match o {
        Some(s) => Some(s@),
        None => None,
    }
}

pub open spec fn fk_model_item(uri: Seq<char>, name: Seq<char>, table: Option<Seq<char>>, c: (String, Column)) -> Seq<LocV> {
    if c.1.foreign_key is Some && fk_names_model(c.1.foreign_key->0.table@, name, table) {
        seq![(uri, c.1.foreign_key->0.range)]
    } else {
        Seq::empty()
    }
}

pub open spec fn rel_target_item(uri: Seq<char>, name: Seq<char>, r: (String, Relationship)) -> Seq<LocV> {
    if r.1.target_model@ == name && r.1.target_range is Some {
        seq![(uri, r.1.target_range->0)]
    } else {
        Seq::empty()
    }
}

pub open spec fn fk_col_item(uri: Seq<char>, name: Seq<char>, table: Option<Seq<char>>, col: Seq<char>, c: (String, Column)) -> Seq<LocV> {
    if c.1.foreign_key is Some && fk_names_model(c.1.foreign_key->0.table@, name, table)
        && c.1.foreign_key->0.column@ == col {
        seq![(uri, c.1.foreign_key->0.range)]
    } else {
        Seq::empty()
    }
}

pub open spec fn bp_item(uri: Seq<char>, owner: Seq<char>, rel: Seq<char>, r: (String, Relationship)) -> Seq<LocV> {
    if r.1.target_model@ == owner && r.1.back_populates is Some && r.1.back_populates->0@ == rel
        && r.1.back_populates_range is Some {
        seq![(uri, r.1.back_populates_range->0)]
    } else {
        Seq::empty()
    }
}

/// The references to a model that one model of file `uri` makes: its foreign
/// keys to it, its relationships targeting it, and its class if it derives
/// from it.
pub open spec fn model_refs_in(uri: Seq<char>, m: Model, name: Seq<char>, table: Option<Seq<char>>) -> Seq<LocV> {
    cat_map(m.columns.seq(), |c: (String, Column)| fk_model_item(uri, name, table, c)) + cat_map(
        m.relationships.seq(),
        |r: (String, Relationship)| rel_target_item(uri, name, r),
    ) + if exists|k: int| 0 <= k < m.bases@.len() && #[trigger] m.bases@[k]@ == name {
        seq![(uri, m.name_range)]
    } else {
        Seq::empty()
    }
}

/// The foreign keys of one model of file `uri` that name a column.
pub open spec fn column_refs_in(
    uri: Seq<char>,
    m: Model,
    name: Seq<char>,
    table: Option<Seq<char>>,
    col: Seq<char>,
) -> Seq<LocV> {
    cat_map(m.columns.seq(), |c: (String, Column)| fk_col_item(uri, name, table, col, c))
}

/// The back-references of one model of file `uri` to relationship `rel` of `owner`.
pub open spec fn rel_refs_in(uri: Seq<char>, m: Model, owner: Seq<char>, rel: Seq<char>) -> Seq<LocV> {
    cat_map(m.relationships.seq(), |r: (String, Relationship)| bp_item(uri, owner, rel, r))
}

/// A reference query: a model, one of its columns, or one of its relationships.
pub enum RefQuery {
    Model(Seq<char>, Option<Seq<char>>),
    Column(Seq<char>, Option<Seq<char>>, Seq<char>),
    Rel(Seq<char>, Seq<char>),
}

pub open spec fn refs_in(uri: Seq<char>, m: Model, q: RefQuery) -> Seq<LocV> {
    match q {
        RefQuery::Model(n, t) => model_refs_in(uri, m, n, t),
        RefQuery::Column(n, t, c) => column_refs_in(uri, m, n, t, c),
        RefQuery::Rel(o, r) => rel_refs_in(uri, m, o, r),
    }
}

/// Every reference in the workspace, file by file in index order.
pub open spec fn workspace_refs(st: WorkspaceState, q: RefQuery) -> Seq<LocV> {
    cat_map(
        st.file_models.seq(),
        |e: (String, Vec<Model>)| cat_map(e.1@, |m: Model| refs_in(e.0@, m, q)),
    )
}

/// The references answered for a declaration, the declaration itself first
/// when asked.
pub open spec fn with_decl(uri: Seq<char>, r: Range, incl: bool, refs: Seq<LocV>) -> Seq<LocV> {
    if incl {
        seq![(uri, r)] + refs
    } else {
        refs
    }
}

/// The first column (from `i`) whose name is at the cursor.
pub open spec fn col_at(cols: Seq<(String, Column)>, pos: Position, i: int) -> Option<Column>
    decreases cols.len() - i,
{
    if i < 0 || i >= cols.len() {
        None
    } else if pos_in_spec(pos, cols[i].1.name_range) {
        Some(cols[i].1)
    } else {
        col_at(cols, pos, i + 1)
    }
}

/// The first relationship (from `i`) whose name is at the cursor.
pub open spec fn rel_at(rels: Seq<(String, Relationship)>, pos: Position, i: int) -> Option<Relationship>
    decreases rels.len() - i,
{
    if i < 0 || i >= rels.len() {
        None
    } else if pos_in_spec(pos, rels[i].1.name_range) {
        Some(rels[i].1)
    } else {
        rel_at(rels, pos, i + 1)
    }
}

/// The declaration the cursor is on in one model: its name, then a column's
/// name, then a relationship's name.
pub open spec fn decl_at(m: Model, pos: Position) -> Option<(RefQuery, Range)> {
    let t = opt_str(m.table_name);
    if pos_in_spec(pos, m.name_range) {
        Some((RefQuery::Model(m.name@, t), m.name_range))
    } else {
        match col_at(m.columns.seq(), pos, 0) {
            Some(c) => Some((RefQuery::Column(m.name@, t, c.name@), c.name_range)),
            None => match rel_at(m.relationships.seq(), pos, 0) {
                Some(r) => Some((RefQuery::Rel(m.name@, r.name@), r.name_range)),
                None => None,
            },
        }
    }
}

/// The first model (from `i`) with a declaration at the cursor.
pub open spec fn first_decl(ms: Seq<Model>, pos: Position, i: int) -> Option<(RefQuery, Range)>
    decreases ms.len() - i,
{
    if i < 0 || i >= ms.len() {
        None
    } else if decl_at(ms[i], pos) is Some {
        decl_at(ms[i], pos)
    } else {
        first_decl(ms, pos, i + 1)
    }
}

/// The references of the declaration at the cursor (none off a declaration).
pub open spec fn references_spec(uri: Seq<char>, pos: Position, incl: bool, st: WorkspaceState) -> Seq<LocV> {
    if !st.file_models@.contains_key(uri) {
        Seq::empty()
    } else {
        match first_decl(st.file_models@[uri]@, pos, 0) {
            None => Seq::empty(),
            Some((q, r)) => with_decl(uri, r, incl, workspace_refs(st, q)),
        }
    }
}

fn push_loc(out: &mut Vec<Location>, uri: &String, range: Range)
    ensures
        locviews(final(out)@) == locviews(old(out)@).push((uri@, range)),
{
    out.push(Location { uri: uri.clone(), range });
    assert(locviews(out@) =~= locviews(old(out)@).push((uri@, range)));
}

fn names_eq(a: &Option<String>, b: &str) -> (r: bool)
    ensures
        r == (a is Some && a->0@ == b@),
{
    match a {
        Some(s) => str_eq(s.as_str(), b),
        None => false,
    }
}

fn fk_names_model_exec(fk_table: &str, model: &str, table: &Option<String>) -> (r: bool)
    ensures
        r == fk_names_model(fk_table@, model@, opt_str(*table)),
{
    let by_table = match table {
        Some(t) => str_eq(fk_table, t.as_str()),
        None => false,
    };
    by_table || str_eq(fk_table, model)
}

/// The executable form of a reference query.
pub enum Query {
    Model(String, Option<String>),
    Column(String, Option<String>, String),
    Rel(String, String),
}

pub open spec fn query_v(q: Query) -> RefQuery {
    match q {
        Query::Model(n, t) => RefQuery::Model(n@, opt_str(t)),
        Query::Column(n, t, c) => RefQuery::Column(n@, opt_str(t), c@),
        Query::Rel(o, r) => RefQuery::Rel(o@, r@),
    }
}

fn append_refs_in(out: &mut Vec<Location>, uri: &String, m: &Model, q: &Query)
    ensures
        locviews(final(out)@) == locviews(old(out)@) + refs_in(uri@, *m, query_v(*q)),
{
    let ghost start = locviews(out@);
    match q {
        Query::Model(name, table) => {
            let ghost fc = |c: (String, Column)| fk_model_item(uri@, name@, opt_str(*table), c);
            let ghost fr = |r: (String, Relationship)| rel_target_item(uri@, name@, r);
            let cols = m.columns.entries();
            let mut i: usize = 0;
            while i < cols.len()
                invariant
                    i <= cols@.len(),
                    cols@ == m.columns.seq(),
                    fc == (|c: (String, Column)| fk_model_item(uri@, name@, opt_str(*table), c)),
                    locviews(out@) == start + cat_map(cols@.take(i as int), fc),
                decreases cols@.len() - i,
            {
                proof {
                    lemma_cat_map_take(cols@, fc, i as int);
                }
                let ghost before = locviews(out@);
                if let Some(fk) = &cols[i].1.foreign_key {
                    if fk_names_model_exec(fk.table.as_str(), name.as_str(), table) {
                        push_loc(out, uri, fk.range);
                    }
                }
                assert(locviews(out@) =~= before + fc(cols@[i as int]));
                i = i + 1;
            }
            assert(cols@.take(cols@.len() as int) =~= cols@);
            let ghost mid = locviews(out@);
            let rels = m.relationships.entries();
            let mut j: usize = 0;
            while j < rels.len()
                invariant
                    j <= rels@.len(),
                    rels@ == m.relationships.seq(),
                    fr == (|r: (String, Relationship)| rel_target_item(uri@, name@, r)),
                    locviews(out@) == mid + cat_map(rels@.take(j as int), fr),
                decreases rels@.len() - j,
            {
                proof {
                    lemma_cat_map_take(rels@, fr, j as int);
                }
                let ghost before = locviews(out@);
                let r = &rels[j].1;
                if str_eq(r.target_model.as_str(), name.as_str()) {
                    if let Some(tr) = r.target_range {
                        push_loc(out, uri, tr);
                    }
                }
                assert(locviews(out@) =~= before + fr(rels@[j as int]));
                j = j + 1;
            }
            assert(rels@.take(rels@.len() as int) =~= rels@);
            let ghost mid2 = locviews(out@);
            let mut k: usize = 0;
            let mut found = false;
            while k < m.bases.len()
                invariant
                    k <= m.bases@.len(),
                    found == exists|x: int| 0 <= x < k && #[trigger] m.bases@[x]@ == name@,
                decreases m.bases@.len() - k,
            {
                if str_eq(m.bases[k].as_str(), name.as_str()) {
                    found = true;
                }
                k = k + 1;
            }
            if found {
                push_loc(out, uri, m.name_range);
            }
            assert(locviews(out@) =~= start + refs_in(uri@, *m, query_v(*q)));
        },
        Query::Column(name, table, col) => {
            let ghost fc = |c: (String, Column)| fk_col_item(uri@, name@, opt_str(*table), col@, c);
            let cols = m.columns.entries();
            let mut i: usize = 0;
            while i < cols.len()
                invariant
                    i <= cols@.len(),
                    cols@ == m.columns.seq(),
                    fc == (|c: (String, Column)| fk_col_item(uri@, name@, opt_str(*table), col@, c)),
                    locviews(out@) == start + cat_map(cols@.take(i as int), fc),
                decreases cols@.len() - i,
            {
                proof {
                    lemma_cat_map_take(cols@, fc, i as int);
                }
                let ghost before = locviews(out@);
                if let Some(fk) = &cols[i].1.foreign_key {
                    if fk_names_model_exec(fk.table.as_str(), name.as_str(), table) && str_eq(
                        fk.column.as_str(),
                        col.as_str(),
                    ) {
                        push_loc(out, uri, fk.range);
                    }
                }
                assert(locviews(out@) =~= before + fc(cols@[i as int]));
                i = i + 1;
            }
            assert(cols@.take(cols@.len() as int) =~= cols@);
        },
        Query::Rel(owner, rel) => {
            let ghost fr = |r: (String, Relationship)| bp_item(uri@, owner@, rel@, r);
            let rels = m.relationships.entries();
            let mut j: usize = 0;
            while j < rels.len()
                invariant
                    j <= rels@.len(),
                    rels@ == m.relationships.seq(),
                    fr == (|r: (String, Relationship)| bp_item(uri@, owner@, rel@, r)),
                    locviews(out@) == start + cat_map(rels@.take(j as int), fr),
                decreases rels@.len() - j,
            {
                proof {
                    lemma_cat_map_take(rels@, fr, j as int);
                }
                let ghost before = locviews(out@);
                let r = &rels[j].1;
                if str_eq(r.target_model.as_str(), owner.as_str()) && names_eq(&r.back_populates, rel.as_str()) {
                    if let Some(bpr) = r.back_populates_range {
                        push_loc(out, uri, bpr);
                    }
                }
                assert(locviews(out@) =~= before + fr(rels@[j as int]));
                j = j + 1;
            }
            assert(rels@.take(rels@.len() as int) =~= rels@);
        },
    }
}

fn collect_refs(q: &Query, state: &WorkspaceState) -> (r: Vec<Location>)
    ensures
        locviews(r@) == workspace_refs(*state, query_v(*q)),
{
    let ghost qv = query_v(*q);
    let ghost ff = |e: (String, Vec<Model>)| cat_map(e.1@, |m: Model| refs_in(e.0@, m, qv));
    let files = state.file_models.entries();
    let mut out: Vec<Location> = Vec::new();
    let mut i: usize = 0;
    while i < files.len()
        invariant
            i <= files@.len(),
            files@ == state.file_models.seq(),
            qv == query_v(*q),
            ff == (|e: (String, Vec<Model>)| cat_map(e.1@, |m: Model| refs_in(e.0@, m, qv))),
            locviews(out@) == cat_map(files@.take(i as int), ff),
        decreases files@.len() - i,
    {
        proof {
            lemma_cat_map_take(files@, ff, i as int);
        }
        let ghost before = locviews(out@);
        let uri = &files[i].0;
        let ms = &files[i].1;
        let ghost fm = |m: Model| refs_in(uri@, m, qv);
        let mut k: usize = 0;
        while k < ms.len()
            invariant
                k <= ms@.len(),
                qv == query_v(*q),
                fm == (|m: Model| refs_in(uri@, m, qv)),
                locviews(out@) == before + cat_map(ms@.take(k as int), fm),
            decreases ms@.len() - k,
        {
            proof {
                lemma_cat_map_take(ms@, fm, k as int);
            }
            append_refs_in(&mut out, uri, &ms[k], q);
            assert(locviews(out@) =~= before + cat_map(ms@.take(k + 1), fm));
            k = k + 1;
        }
        assert(ms@.take(ms@.len() as int) =~= ms@);
        assert(ff(files@[i as int]) == cat_map(ms@, fm));
        assert(locviews(out@) =~= before + ff(files@[i as int]));
        i = i + 1;
    }
    assert(files@.take(files@.len() as int) =~= files@);
    out
}

fn decl_at_exec(m: &Model, pos: Position) -> (r: Option<(Query, Range)>)
    ensures
        match r {
            Some((q, rg)) => decl_at(*m, pos) == Some((query_v(q), rg)),
            None => decl_at(*m, pos) is None,
        },
{
    if pos_in(pos, m.name_range) {
        return Some((Query::Model(m.name.clone(), m.table_name.clone()), m.name_range));
    }
    let cols = m.columns.entries();
    let mut i: usize = 0;
    while i < cols.len()
        invariant
            i <= cols@.len(),
            cols@ == m.columns.seq(),
            !pos_in_spec(pos, m.name_range),
            col_at(cols@, pos, 0) == col_at(cols@, pos, i as int),
        decreases cols@.len() - i,
    {
        if pos_in(pos, cols[i].1.name_range) {
            return Some(
                (Query::Column(m.name.clone(), m.table_name.clone(), cols[i].1.name.clone()), cols[i].1.name_range),
            );
        }
        i = i + 1;
    }
    let rels = m.relationships.entries();
    let mut j: usize = 0;
    while j < rels.len()
        invariant
            j <= rels@.len(),
            rels@ == m.relationships.seq(),
            col_at(m.columns.seq(), pos, 0) is None,
            !pos_in_spec(pos, m.name_range),
            rel_at(rels@, pos, 0) == rel_at(rels@, pos, j as int),
        decreases rels@.len() - j,
    {
        if pos_in(pos, rels[j].1.name_range) {
            return Some((Query::Rel(m.name.clone(), rels[j].1.name.clone()), rels[j].1.name_range));
        }
        j = j + 1;
    }
    None
}

/// Every reference in the workspace to the model, column or relationship
/// declared at `pos` in file `uri` (its declaration first when asked); empty
/// off a declaration.
pub fn provide_references(uri: &str, pos: Position, include_declaration: bool, state: &WorkspaceState) -> (r: Vec<
    Location,
>)
    ensures
        locviews(r@) == references_spec(uri@, pos, include_declaration, *state),
{
    let models = match state.file_models.get(uri) {
        Some(m) => m,
        None => return Vec::new(),
    };
    let mut i: usize = 0;
    while i < models.len()
        invariant
            i <= models@.len(),
            state.file_models@.contains_key(uri@),
            *models == state.file_models@[uri@],
            first_decl(models@, pos, 0) == first_decl(models@, pos, i as int),
        decreases models@.len() - i,
    {
        if let Some((q, rg)) = decl_at_exec(&models[i], pos) {
            let refs = collect_refs(&q, state);
            if include_declaration {
                let mut out: Vec<Location> = Vec::new();
                out.push(Location { uri: crate::text::to_owned(uri), range: rg });
                let mut rest = refs;
                let ghost rv = locviews(rest@);
                out.append(&mut rest);
                assert(locviews(out@) =~= seq![(uri@, rg)] + rv);
                return out;
            }
            return refs;
        }
        i = i + 1;
    }
    Vec::new()
}

} // verus!
