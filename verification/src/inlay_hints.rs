//! Inlay hints: after a foreign-key column the model and column it points
//! to, after a relationship its target and cardinality.
use vstd::prelude::*;

use crate::rename::{cat_map, lemma_cat_map_take};
use crate::state::WorkspaceState;
use crate::types::{Column, Model, Position, Range, Relationship};

verus! {

/// A type hint shown after the construct that ends at `position`.
#[derive(Debug, Clone)]
pub struct InlayHint {
    pub position: Position,
    pub label: String,
    pub tooltip: String,
}

pub open spec fn hviews(s: Seq<InlayHint>) -> Seq<(Position, Seq<char>, Seq<char>)> {
    s.map_values(|h: InlayHint| (h.position, h.label@, h.tooltip@))
}

/// The line lies within the requested range's lines.
pub open spec fn line_in(r: Range, line: u32) -> bool {
    line >= r.start_line && line <= r.end_line
}

pub open spec fn end_pos(r: Range) -> Position {
    Position { line: r.end_line, character: r.end_col }
}

/// The hint of a foreign-key column whose table is indexed.
pub open spec fn col_hint(st: WorkspaceState, r: Range, c: (String, Column)) -> Seq<(Position, Seq<char>, Seq<char>)> {
    let col = c.1;
    if col.foreign_key is Some && line_in(r, col.full_range.start_line) && st.table_index@.contains_key(
        col.foreign_key->0.table@,
    ) {
        let target = st.table_index@[col.foreign_key->0.table@]@ + "."@ + col.foreign_key->0.column@;
        seq![(end_pos(col.full_range), "→ "@ + target, "Foreign key to "@ + target)]
    } else {
        Seq::empty()
    }
}

/// The label of a relationship hint: a list (noting many-to-many), or a scalar.
pub open spec fn rel_label(rel: Relationship) -> Seq<char> {
    if rel.is_list {
        if rel.secondary is Some {
            "list["@ + rel.target_model@ + "] (m2m)"@
        } else {
            "list["@ + rel.target_model@ + "]"@
        }
    } else {
        "→ "@ + rel.target_model@
    }
}

/// The hint of a relationship whose target is indexed.
pub open spec fn rel_hint(st: WorkspaceState, r: Range, e: (String, Relationship)) -> Seq<(Position, Seq<char>, Seq<char>)> {
    let rel = e.1;
    if line_in(r, rel.full_range.start_line) && st.model_index@.contains_key(rel.target_model@) {
        seq![
            (
                end_pos(rel.full_range),
                rel_label(rel),
                "Relationship to "@ + rel.target_model@ + " ("@ + (if rel.is_list {
                    "collection"@
                } else {
                    "scalar"@
                }) + ")"@,
            ),
        ]
    } else {
        Seq::empty()
    }
}

/// The hints of one model: its columns, then its relationships.
pub open spec fn model_hints(st: WorkspaceState, r: Range, m: Model) -> Seq<(Position, Seq<char>, Seq<char>)> {
    cat_map(m.columns.seq(), |c: (String, Column)| col_hint(st, r, c)) + cat_map(
        m.relationships.seq(),
        |e: (String, Relationship)| rel_hint(st, r, e),
    )
}

/// The hints of a file's models that start on a line of the range.
pub open spec fn hints_spec(uri: Seq<char>, r: Range, st: WorkspaceState) -> Seq<(Position, Seq<char>, Seq<char>)> {
    if st.file_models@.contains_key(uri) {
        cat_map(st.file_models@[uri]@, |m: Model| model_hints(st, r, m))
    } else {
        Seq::empty()
    }
}

fn push_hint(out: &mut Vec<InlayHint>, position: Position, label: String, tooltip: String)
    ensures
        hviews(final(out)@) == hviews(old(out)@).push((position, label@, tooltip@)),
{
    out.push(InlayHint { position, label, tooltip });
    assert(hviews(out@) =~= hviews(old(out)@).push((position, label@, tooltip@)));
}

fn append_model_hints(out: &mut Vec<InlayHint>, m: &Model, range: Range, state: &WorkspaceState)
    ensures
        hviews(final(out)@) == hviews(old(out)@) + model_hints(*state, range, *m),
{
    let ghost start = hviews(out@);
    let ghost fc = |c: (String, Column)| col_hint(*state, range, c);
    let ghost fr = |e: (String, Relationship)| rel_hint(*state, range, e);
    let cols = m.columns.entries();
    let mut i: usize = 0;
    while i < cols.len()
        invariant
            i <= cols@.len(),
            cols@ == m.columns.seq(),
            fc == (|c: (String, Column)| col_hint(*state, range, c)),
            hviews(out@) == start + cat_map(cols@.take(i as int), fc),
        decreases cols@.len() - i,
    {
        proof {
            lemma_cat_map_take(cols@, fc, i as int);
        }
        let ghost before = hviews(out@);
        let col = &cols[i].1;
        if let Some(fk) = &col.foreign_key {
            if col.full_range.start_line >= range.start_line && col.full_range.start_line <= range.end_line {
                if let Some(mn) = state.table_index.get(fk.table.as_str()) {
                    let target = crate::text::concat3(mn.as_str(), ".", fk.column.as_str());
                    let label = crate::text::concat2("→ ", target.as_str());
                    let tooltip = crate::text::concat2("Foreign key to ", target.as_str());
                    push_hint(
                        out,
                        Position { line: col.full_range.end_line, character: col.full_range.end_col },
                        label,
                        tooltip,
                    );
                }
            }
        }
        assert(hviews(out@) =~= before + fc(cols@[i as int]));
        i = i + 1;
    }
    assert(cols@.take(cols@.len() as int) =~= cols@);
    let ghost mid = hviews(out@);
    let rels = m.relationships.entries();
    let mut j: usize = 0;
    while j < rels.len()
        invariant
            j <= rels@.len(),
            rels@ == m.relationships.seq(),
            fr == (|e: (String, Relationship)| rel_hint(*state, range, e)),
            hviews(out@) == mid + cat_map(rels@.take(j as int), fr),
        decreases rels@.len() - j,
    {
        proof {
            lemma_cat_map_take(rels@, fr, j as int);
        }
        let ghost before = hviews(out@);
        let rel = &rels[j].1;
        if rel.full_range.start_line >= range.start_line && rel.full_range.start_line <= range.end_line
            && state.model_index.contains_key(rel.target_model.as_str()) {
            let label = if rel.is_list {
                if rel.secondary.is_some() {
                    crate::text::concat3("list[", rel.target_model.as_str(), "] (m2m)")
                } else {
                    crate::text::concat3("list[", rel.target_model.as_str(), "]")
                }
            } else {
                crate::text::concat2("→ ", rel.target_model.as_str())
            };
            let card = if rel.is_list {
                "collection"
            } else {
                "scalar"
            };
            let mut tooltip = crate::text::concat3("Relationship to ", rel.target_model.as_str(), " (");
            crate::text::push_str(&mut tooltip, card);
            crate::text::push_str(&mut tooltip, ")");
            push_hint(
                out,
                Position { line: rel.full_range.end_line, character: rel.full_range.end_col },
                label,
                tooltip,
            );
        }
        assert(hviews(out@) =~= before + fr(rels@[j as int]));
        j = j + 1;
    }
    assert(rels@.take(rels@.len() as int) =~= rels@);
    assert(hviews(out@) =~= start + model_hints(*state, range, *m));
}

/// The hints of file `uri` for the constructs starting on a line of `range`.
pub fn provide_inlay_hints(uri: &str, range: Range, state: &WorkspaceState) -> (r: Vec<InlayHint>)
    ensures
        hviews(r@) == hints_spec(uri@, range, *state),
{
    let mut hints: Vec<InlayHint> = Vec::new();
    let models = match state.file_models.get(uri) {
        Some(m) => m,
        None => return hints,
    };
    let ghost f = |m: Model| model_hints(*state, range, m);
    let mut i: usize = 0;
    while i < models.len()
        invariant
            i <= models@.len(),
            f == (|m: Model| model_hints(*state, range, m)),
            hviews(hints@) == cat_map(models@.take(i as int), f),
        decreases models@.len() - i,
    {
        proof {
            lemma_cat_map_take(models@, f, i as int);
        }
        append_model_hints(&mut hints, &models[i], range, state);
        i = i + 1;
    }
    assert(models@.take(models@.len() as int) =~= models@);
    hints
}

} // verus!
