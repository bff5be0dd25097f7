//! Hover cards for models, columns, relationships, foreign-key strings,
//! `back_populates` values and cascade strings; anything else gets no card.
use vstd::prelude::*;

use crate::f01::{lookup_model, lookup_model_exec};
use crate::state::WorkspaceState;
use crate::text::{from_chars, push_str, split, split_exec, str_eq, to_chars, to_owned, trim, trim_exec};
use crate::text::{contains, dec, occurs_at, push_dec};
use crate::rename::{cat_map, lemma_cat_map_take};
use crate::types::{
    join, pos_in, pos_in_spec, push_joined, type_text, views, Column, Model, Position, Range,
    Relationship, TableArg,
};

verus! {

// ── Cascade tokens ───────────────────────────────────────────────────────────

/// What a cascade token means.
pub open spec fn cascade_meaning(t: Seq<char>) -> Option<Seq<char>> {
    if t == "save-update"@ {
        Some("Cascade session `add()` to related objects when the parent is added."@)
    } else if t == "merge"@ {
        Some("Cascade `session.merge()` to related objects."@)
    } else if t == "expunge"@ {
        Some("Cascade `session.expunge()` to related objects."@)
    } else if t == "delete"@ {
        Some("Delete related objects when the parent is deleted."@)
    } else if t == "delete-orphan"@ {
        Some("Delete related objects when they are de-associated from the parent."@)
    } else if t == "refresh-expire"@ {
        Some("Cascade `session.refresh()` and `session.expire()` to related objects."@)
    } else if t == "all"@ {
        Some("`save-update` + `merge` + `refresh-expire` + `expunge` + `delete`."@)
    } else {
        None
    }
}

/// The meaning of a cascade token (surrounding whitespace ignored).
pub fn cascade_doc(token: &str) -> (r: Option<&'static str>)
    ensures
        match r {
            Some(d) => cascade_meaning(trim(token@)) == Some(d@),
            None => cascade_meaning(trim(token@)) is None,
        },
{
    let cs = to_chars(token);
    let t = from_chars(trim_exec(cs.as_slice()).as_slice());
    let t = t.as_str();
    if str_eq(t, "save-update") {
        Some("Cascade session `add()` to related objects when the parent is added.")
    } else if str_eq(t, "merge") {
        Some("Cascade `session.merge()` to related objects.")
    } else if str_eq(t, "expunge") {
        Some("Cascade `session.expunge()` to related objects.")
    } else if str_eq(t, "delete") {
        Some("Delete related objects when the parent is deleted.")
    } else if str_eq(t, "delete-orphan") {
        Some("Delete related objects when they are de-associated from the parent.")
    } else if str_eq(t, "refresh-expire") {
        Some("Cascade `session.refresh()` and `session.expire()` to related objects.")
    } else if str_eq(t, "all") {
        Some("`save-update` + `merge` + `refresh-expire` + `expunge` + `delete`.")
    } else {
        None
    }
}

/// The table row of one cascade token.
pub open spec fn cascade_row(piece: Seq<char>) -> Seq<char> {
    let t = trim(piece);
    match cascade_meaning(trim(t)) {
        Some(d) => "| `"@ + t + "` | "@ + d + " |\n"@,
        None => "| `"@ + t + "` | ⚠ unknown cascade token |\n"@,
    }
}

pub open spec fn cascade_row_f() -> spec_fn(Seq<char>) -> Seq<char> {
    |p: Seq<char>| cascade_row(p)
}

/// The card of a cascade string: one row per comma-separated token.
pub open spec fn cascade_card_text(s: Seq<char>) -> Seq<char> {
    "**cascade** `\""@ + s + "\"`\n\n---\n"@ + "| Token | Meaning |\n|---|---|\n"@
        + crate::rename::cat_map(split(s, ','), cascade_row_f())
}

pub fn cascade_card(cascade_str: &str) -> (r: String)
    ensures
        r@ == cascade_card_text(cascade_str@),
{
    let cs = to_chars(cascade_str);
    let parts = split_exec(cs.as_slice(), ',');
    let ghost sp = split(cascade_str@, ',');
    let mut md = to_owned("**cascade** `\"");
    push_str(&mut md, cascade_str);
    push_str(&mut md, "\"`\n\n---\n");
    push_str(&mut md, "| Token | Meaning |\n|---|---|\n");
    let ghost head = md@;
    let mut i: usize = 0;
    while i < parts.len()
        invariant
            i <= parts@.len(),
            parts@.len() == sp.len(),
            forall|k: int| 0 <= k < parts@.len() ==> #[trigger] parts@[k]@ == sp[k],
            md@ == head + crate::rename::cat_map(sp.take(i as int), cascade_row_f()),
        decreases parts@.len() - i,
    {
        proof {
            crate::rename::lemma_cat_map_take(sp, cascade_row_f(), i as int);
        }
        let t = from_chars(trim_exec(parts[i].as_slice()).as_slice());
        let ghost before = md@;
        push_str(&mut md, "| `");
        push_str(&mut md, t.as_str());
        match cascade_doc(t.as_str()) {
            Some(doc) => {
                push_str(&mut md, "` | ");
                push_str(&mut md, doc);
                push_str(&mut md, " |\n");
            },
            None => {
                push_str(&mut md, "` | ⚠ unknown cascade token |\n");
            },
        }
        assert(md@ =~= before + cascade_row(sp[i as int]));
        i = i + 1;
    }
    assert(sp.take(sp.len() as int) =~= sp);
    md
}

// ── Foreign-key strings ──────────────────────────────────────────────────────

/// The card of a `ForeignKey("table.column")` string.
pub open spec fn fk_string_card_text(st: WorkspaceState, table: Seq<char>, column: Seq<char>) -> Seq<char> {
    let head = "**ForeignKey(`\""@ + table + "."@ + column + "\"`)**\n\n---\n"@;
    if st.table_index@.contains_key(table) {
        let mn = st.table_index@[table]@;
        let line = "→ `"@ + table + "."@ + column + "` ("@ + mn + ". "@ + column + ")\n"@;
        if st.model_index@.contains_key(mn) {
            head + line + "\nDefined in `"@ + st.model_index@[mn].uri@ + "`"@
        } else {
            head + line
        }
    } else {
        head + "→ `"@ + table + "."@ + column + "` *(target table not in workspace)*\n"@
    }
}

pub fn fk_string_card(table: &str, column: &str, state: &WorkspaceState) -> (r: String)
    ensures
        r@ == fk_string_card_text(*state, table@, column@),
{
    let mut md = to_owned("**ForeignKey(`\"");
    push_str(&mut md, table);
    push_str(&mut md, ".");
    push_str(&mut md, column);
    push_str(&mut md, "\"`)**\n\n---\n");
    match state.table_index.get(table) {
        Some(model_name) => {
            push_str(&mut md, "→ `");
            push_str(&mut md, table);
            push_str(&mut md, ".");
            push_str(&mut md, column);
            push_str(&mut md, "` (");
            push_str(&mut md, model_name.as_str());
            push_str(&mut md, ". ");
            push_str(&mut md, column);
            push_str(&mut md, ")\n");
            if let Some(loc) = state.model_index.get(model_name.as_str()) {
                push_str(&mut md, "\nDefined in `");
                push_str(&mut md, loc.uri.as_str());
                push_str(&mut md, "`");
            }
        },
        None => {
            push_str(&mut md, "→ `");
            push_str(&mut md, table);
            push_str(&mut md, ".");
            push_str(&mut md, column);
            push_str(&mut md, "` *(target table not in workspace)*\n");
        },
    }
    md
}

// ── Relationships ────────────────────────────────────────────────────────────

/// How a relationship's target is shown: a list, a many-to-many list, or one.
pub open spec fn cardinality_text(r: Relationship) -> Seq<char> {
    match r.secondary {
        Some(sec) => "list["@ + r.target_model@ + "] (m2m via `"@ + sec@ + "`)"@,
        None => if r.is_list {
            "list["@ + r.target_model@ + "]"@
        } else {
            "→ "@ + r.target_model@
        },
    }
}

/// An optional table row: `| label | `value` |`, or nothing.
pub open spec fn code_row(label: Seq<char>, v: Option<String>) -> Seq<char> {
    match v {
        Some(s) => "| "@ + label + " | `"@ + s@ + "` |\n"@,
        None => Seq::empty(),
    }
}

/// The card of relationship `rel_name` of `m` (empty if it has none such).
pub open spec fn relationship_card_text(st: WorkspaceState, m: Model, rel_name: Seq<char>) -> Seq<char> {
    if !m.relationships@.contains_key(rel_name) {
        Seq::empty()
    } else {
        let r = m.relationships@[rel_name];
        let target_row = if st.model_index@.contains_key(r.target_model@) {
            "| target | "@ + cardinality_text(r) + " |\n"@
        } else {
            "| target | "@ + r.target_model@ + " *(unresolved)* |\n"@
        };
        "**"@ + m.name@ + "."@ + rel_name + "** *(relationship)*\n\n---\n"@ + "| | |\n|---|---|\n"@
            + target_row + code_row("back_populates"@, r.back_populates) + code_row("lazy"@, r.lazy)
            + code_row("cascade"@, r.cascade) + if r.viewonly == Some(true) {
            "| viewonly | true |\n"@
        } else {
            Seq::empty()
        }
    }
}

fn push_code_row(md: &mut String, label: &str, v: &Option<String>)
    ensures
        final(md)@ == old(md)@ + code_row(label@, *v),
{
    match v {
        Some(s) => {
            push_str(md, "| ");
            push_str(md, label);
            push_str(md, " | `");
            push_str(md, s.as_str());
            push_str(md, "` |\n");
        },
        None => {
            assert(old(md)@ + Seq::<char>::empty() =~= old(md)@);
        },
    }
}

fn push_cardinality(md: &mut String, r: &Relationship)
    ensures
        final(md)@ == old(md)@ + cardinality_text(*r),
{
    match &r.secondary {
        Some(sec) => {
            push_str(md, "list[");
            push_str(md, r.target_model.as_str());
            push_str(md, "] (m2m via `");
            push_str(md, sec.as_str());
            push_str(md, "`)");
        },
        None => {
            if r.is_list {
                push_str(md, "list[");
                push_str(md, r.target_model.as_str());
                push_str(md, "]");
            } else {
                push_str(md, "→ ");
                push_str(md, r.target_model.as_str());
            }
        },
    }
}

pub fn relationship_card(model: &Model, rel_name: &str, state: &WorkspaceState) -> (r: String)
    ensures
        r@ == relationship_card_text(*state, *model, rel_name@),
{
    let rel = match model.relationships.get(rel_name) {
        Some(r) => r,
        None => {
            return String::new();
        },
    };
    let mut md = to_owned("**");
    push_str(&mut md, model.name.as_str());
    push_str(&mut md, ".");
    push_str(&mut md, rel_name);
    push_str(&mut md, "** *(relationship)*\n\n---\n");
    push_str(&mut md, "| | |\n|---|---|\n");
    if state.model_index.contains_key(rel.target_model.as_str()) {
        push_str(&mut md, "| target | ");
        push_cardinality(&mut md, rel);
        push_str(&mut md, " |\n");
    } else {
        push_str(&mut md, "| target | ");
        push_str(&mut md, rel.target_model.as_str());
        push_str(&mut md, " *(unresolved)* |\n");
    }
    push_code_row(&mut md, "back_populates", &rel.back_populates);
    push_code_row(&mut md, "lazy", &rel.lazy);
    push_code_row(&mut md, "cascade", &rel.cascade);
    if rel.viewonly == Some(true) {
        push_str(&mut md, "| viewonly | true |\n");
    }
    proof {
        let s = relationship_card_text(*state, *model, rel_name@);
        assert(md@ =~= s);
    }
    md
}

// ── back_populates values ────────────────────────────────────────────────────

/// The card of a `back_populates="counterpart"` value on a relationship to
/// `target`: the counterpart relationship, or why there is none.
pub open spec fn back_populates_card_text(st: WorkspaceState, target: Seq<char>, cp: Seq<char>) -> Seq<char> {
    match lookup_model(st, target) {
        None => "**back_populates** `\""@ + cp + "\"`\n\n*Target model `"@ + target
            + "` not found in workspace.*"@,
        Some(t) => if t.relationships@.contains_key(cp) {
            let r = t.relationships@[cp];
            "**back_populates** `\""@ + cp + "\"` → **"@ + target + "."@ + cp + "**\n\n---\n"@
                + "| | |\n|---|---|\n"@ + "| target | "@ + if r.is_list {
                "list["@ + r.target_model@ + "]"@
            } else {
                "→ "@ + r.target_model@
            } + " |\n"@ + code_row("lazy"@, r.lazy)
        } else {
            "**back_populates** `\""@ + cp + "\"`\n\n*Counterpart `"@ + target + "."@ + cp
                + "` not found on target model.*"@
        },
    }
}

pub fn back_populates_card(target_model: &str, counterpart: &str, state: &WorkspaceState) -> (r: String)
    ensures
        r@ == back_populates_card_text(*state, target_model@, counterpart@),
{
    let target = match lookup_model_exec(state, target_model) {
        Some(t) => t,
        None => {
            let mut md = to_owned("**back_populates** `\"");
            push_str(&mut md, counterpart);
            push_str(&mut md, "\"`\n\n*Target model `");
            push_str(&mut md, target_model);
            push_str(&mut md, "` not found in workspace.*");
            return md;
        },
    };
    match target.relationships.get(counterpart) {
        Some(rel) => {
            let mut md = to_owned("**back_populates** `\"");
            push_str(&mut md, counterpart);
            push_str(&mut md, "\"` → **");
            push_str(&mut md, target_model);
            push_str(&mut md, ".");
            push_str(&mut md, counterpart);
            push_str(&mut md, "**\n\n---\n");
            push_str(&mut md, "| | |\n|---|---|\n");
            push_str(&mut md, "| target | ");
            if rel.is_list {
                push_str(&mut md, "list[");
                push_str(&mut md, rel.target_model.as_str());
                push_str(&mut md, "]");
            } else {
                push_str(&mut md, "→ ");
                push_str(&mut md, rel.target_model.as_str());
            }
            push_str(&mut md, " |\n");
            push_code_row(&mut md, "lazy", &rel.lazy);
            md
        },
        None => {
            let mut md = to_owned("**back_populates** `\"");
            push_str(&mut md, counterpart);
            push_str(&mut md, "\"`\n\n*Counterpart `");
            push_str(&mut md, target_model);
            push_str(&mut md, ".");
            push_str(&mut md, counterpart);
            push_str(&mut md, "` not found on target model.*");
            md
        },
    }
}

// ── Models ───────────────────────────────────────────────────────────────────

/// The names of the columns whose value satisfies `p`, in order.
pub open spec fn names_where(s: Seq<(String, Column)>, p: spec_fn(Column) -> bool) -> Seq<Seq<char>>
    decreases s.len(),
{
    if s.len() == 0 {
        Seq::empty()
    } else {
        let r = names_where(s.drop_last(), p);
        if p(s.last().1) {
            r.push(s.last().0@)
        } else {
            r
        }
    }
}

pub open spec fn is_pk() -> spec_fn(Column) -> bool {
    |c: Column| c.args.primary_key
}

pub open spec fn is_unique_only() -> spec_fn(Column) -> bool {
    |c: Column| c.args.unique && !c.args.primary_key
}

pub open spec fn has_fk() -> spec_fn(Column) -> bool {
    |c: Column| c.foreign_key is Some
}

/// Each name with a prefix.
pub open spec fn prefixed(ns: Seq<Seq<char>>, pre: Seq<char>) -> Seq<Seq<char>> {
    ns.map_values(|n: Seq<char>| pre + n)
}

/// The highlights of a model's columns: primary keys, unique columns, and
/// how many foreign keys.
pub open spec fn highlights(cols: Seq<(String, Column)>) -> Seq<Seq<char>> {
    let fk = names_where(cols, has_fk()).len();
    prefixed(names_where(cols, is_pk()), "pk "@) + prefixed(names_where(cols, is_unique_only()), "unique "@)
        + if fk > 0 {
        seq![dec(fk) + " fk"@]
    } else {
        Seq::empty()
    }
}

/// A list shown up to `cap` items, then how many more there are.
pub open spec fn capped(items: Seq<Seq<char>>, cap: nat, sep: Seq<char>, more_sep: Seq<char>) -> Seq<char> {
    if items.len() <= cap {
        join(items, sep)
    } else {
        join(items.take(cap as int), sep) + more_sep + "… +"@ + dec((items.len() - cap) as nat) + " more"@
    }
}

/// How a relationship is previewed on its model's card.
pub open spec fn rel_preview(st: WorkspaceState, e: (String, Relationship)) -> Seq<char> {
    let t = e.1.target_model@;
    let resolved = if st.model_index@.contains_key(t) {
        t
    } else {
        t + " *(unresolved)*"@
    };
    "`"@ + e.0@ + "` "@ + if e.1.is_list {
        "list["@ + resolved + "]"@
    } else {
        "→ "@ + resolved
    }
}

/// The first lines of a model's card: its class and its table.
pub open spec fn model_head_text(m: Model) -> Seq<char> {
    "**class "@ + m.name@ + "(Base)** *(model)*\n\n---\n"@ + "| | |\n|---|---|\n"@ + match m.table_name {
        Some(t) => "| table | `"@ + t@ + "` |\n"@,
        None => "| table | — *(no __tablename__)* |\n"@,
    }
}

/// The column rows of a model's card: count and highlights, then the names.
pub open spec fn model_columns_text(m: Model) -> Seq<char> {
    let cols = m.columns.seq();
    let hl = highlights(cols);
    "| columns | "@ + dec(cols.len()) + if hl.len() == 0 {
        Seq::empty()
    } else {
        "  ·  "@ + join(hl, "  ·  "@)
    } + "  |\n"@ + "| | "@ + capped(cols.map_values(|e: (String, Column)| e.0@), 6, ", "@, " "@)
        + " |\n"@
}

/// The relations row of a model's card, if it has relationships.
pub open spec fn model_relations_text(st: WorkspaceState, m: Model) -> Seq<char> {
    let rels = m.relationships.seq();
    let n_rels = rels.len();
    let previews = rels.take(if n_rels < 3 { n_rels as int } else { 3 }).map_values(
        |e: (String, Relationship)| rel_preview(st, e),
    );
    if n_rels > 0 {
        "| relations | "@ + dec(n_rels) + "  ·  "@ + capped_rels(previews, n_rels) + " |\n"@
    } else {
        Seq::empty()
    }
}

/// The card of a model.
pub open spec fn model_card_text(st: WorkspaceState, m: Model) -> Seq<char> {
    model_head_text(m) + model_columns_text(m) + model_relations_text(st, m) + match m.docstring {
        Some(d) => "| doc | "@ + d@ + " |\n"@,
        None => Seq::empty(),
    }
}

/// The relationship previews (at most three) and how many more there are.
pub open spec fn capped_rels(previews: Seq<Seq<char>>, n: nat) -> Seq<char> {
    if n > 3 {
        join(previews, "  ·  "@) + "  … +"@ + dec((n - 3) as nat) + " more"@
    } else {
        join(previews, "  ·  "@)
    }
}

fn push_capped(md: &mut String, items: &Vec<String>, cap: usize, sep: &str, more_sep: &str)
    ensures
        final(md)@ == old(md)@ + capped(views(items@), cap as nat, sep@, more_sep@),
{
    if items.len() <= cap {
        push_joined(md, items, sep);
    } else {
        let mut shown: Vec<String> = Vec::new();
        let mut i: usize = 0;
        while i < cap
            invariant
                i <= cap < items@.len(),
                shown@ == items@.take(i as int),
            decreases cap - i,
        {
            shown.push(items[i].clone());
            i = i + 1;
            assert(shown@ =~= items@.take(i as int));
        }
        assert(views(shown@) =~= views(items@).take(cap as int));
        push_joined(md, &shown, sep);
        push_str(md, more_sep);
        push_str(md, "… +");
        push_dec(md, (items.len() - cap) as u64);
        push_str(md, " more");
    }
}

fn concat_strs(a: &str, b: &str) -> (r: String)
    ensures
        r@ == a@ + b@,
{
    crate::text::concat2(a, b)
}

/// Highlights, column names and foreign-key count of a model's columns.
fn column_summary(cols: &Vec<(String, Column)>) -> (r: (Vec<String>, Vec<String>))
    ensures
        views(r.0@) == highlights(cols@),
        views(r.1@) == cols@.map_values(|e: (String, Column)| e.0@),
{
    let mut pks: Vec<String> = Vec::new();
    let mut uqs: Vec<String> = Vec::new();
    let mut names: Vec<String> = Vec::new();
    let mut fk: usize = 0;
    let mut i: usize = 0;
    while i < cols.len()
        invariant
            i <= cols@.len(),
            views(pks@) == prefixed(names_where(cols@.take(i as int), is_pk()), "pk "@),
            views(uqs@) == prefixed(names_where(cols@.take(i as int), is_unique_only()), "unique "@),
            views(names@) == cols@.take(i as int).map_values(|e: (String, Column)| e.0@),
            fk == names_where(cols@.take(i as int), has_fk()).len(),
            fk <= i,
        decreases cols@.len() - i,
    {
        let ghost t = cols@.take(i as int);
        let ghost t1 = cols@.take(i + 1);
        proof {
            assert(t1.drop_last() =~= t);
            assert(t1.last() == cols@[i as int]);
            reveal_strlit("pk ");
            reveal_strlit("unique ");
        }
        let (n, c) = &cols[i];
        let ghost opk = views(pks@);
        let ghost ouq = views(uqs@);
        let ghost onm = views(names@);
        if c.args.primary_key {
            pks.push(concat_strs("pk ", n.as_str()));
            assert(views(pks@) =~= opk.push("pk "@ + n@));
        }
        if c.args.unique && !c.args.primary_key {
            uqs.push(concat_strs("unique ", n.as_str()));
            assert(views(uqs@) =~= ouq.push("unique "@ + n@));
        }
        if c.foreign_key.is_some() {
            fk = fk + 1;
        }
        names.push(n.clone());
        assert(views(names@) =~= onm.push(n@));
        proof {
            assert(prefixed(names_where(t, is_pk()), "pk "@).push("pk "@ + n@) =~= prefixed(
                names_where(t, is_pk()).push(n@),
                "pk "@,
            ));
            assert(prefixed(names_where(t, is_unique_only()), "unique "@).push("unique "@ + n@)
                =~= prefixed(names_where(t, is_unique_only()).push(n@), "unique "@));
            assert(t1.map_values(|e: (String, Column)| e.0@) =~= t.map_values(
                |e: (String, Column)| e.0@,
            ).push(n@));
        }
        i = i + 1;
    }
    proof {
        assert(cols@.take(cols@.len() as int) =~= cols@);
    }
    let mut hl: Vec<String> = Vec::new();
    let mut j: usize = 0;
    while j < pks.len()
        invariant
            j <= pks@.len(),
            views(hl@) == views(pks@).take(j as int),
        decreases pks@.len() - j,
    {
        let ghost o = views(hl@);
        let c = pks[j].clone();
        hl.push(c);
        assert(views(hl@) =~= o.push(pks@[j as int]@));
        assert(views(pks@).take(j + 1) =~= views(pks@).take(j as int).push(pks@[j as int]@));
        j = j + 1;
    }
    let mut k: usize = 0;
    while k < uqs.len()
        invariant
            k <= uqs@.len(),
            j == pks@.len(),
            views(hl@) == views(pks@) + views(uqs@).take(k as int),
        decreases uqs@.len() - k,
    {
        let ghost o = views(hl@);
        let c = uqs[k].clone();
        hl.push(c);
        assert(views(hl@) =~= o.push(uqs@[k as int]@));
        assert(views(uqs@).take(k + 1) =~= views(uqs@).take(k as int).push(uqs@[k as int]@));
        k = k + 1;
    }
    assert(views(pks@).take(pks@.len() as int) =~= views(pks@));
    assert(views(uqs@).take(uqs@.len() as int) =~= views(uqs@));
    if fk > 0 {
        let mut t = String::new();
        push_dec(&mut t, fk as u64);
        push_str(&mut t, " fk");
        let ghost o = views(hl@);
        hl.push(t);
        assert(views(hl@) =~= o.push(dec(fk as nat) + " fk"@));
    }
    assert(views(hl@) =~= highlights(cols@));
    (hl, names)
}

fn push_rel_preview(md: &mut String, state: &WorkspaceState, name: &String, rel: &Relationship)
    ensures
        final(md)@ == old(md)@ + rel_preview(*state, (*name, *rel)),
{
    push_str(md, "`");
    push_str(md, name.as_str());
    push_str(md, "` ");
    let known = state.model_index.contains_key(rel.target_model.as_str());
    if rel.is_list {
        push_str(md, "list[");
    } else {
        push_str(md, "→ ");
    }
    push_str(md, rel.target_model.as_str());
    if !known {
        push_str(md, " *(unresolved)*");
    }
    if rel.is_list {
        push_str(md, "]");
    }
    proof {
        let ghost s = rel_preview(*state, (*name, *rel));
        assert(final(md)@ =~= old(md)@ + s);
    }
}

fn push_relations_row(md: &mut String, state: &WorkspaceState, model: &Model)
    ensures
        final(md)@ == old(md)@ + model_relations_text(*state, *model),
{
    let rels = model.relationships.entries();
    let n_rels = rels.len();
    let ghost rs = rels@;
    let ghost f = |e: (String, Relationship)| rel_preview(*state, e);
    if n_rels == 0 {
        assert(old(md)@ + Seq::<char>::empty() =~= old(md)@);
        return;
    }
    push_str(md, "| relations | ");
    push_dec(md, n_rels as u64);
    push_str(md, "  ·  ");
    let ghost before = md@;
    let mut i: usize = 0;
    while i < n_rels && i < 3
        invariant
            i <= n_rels,
            i <= 3,
            n_rels == rels@.len(),
            rs == rels@,
            f == (|e: (String, Relationship)| rel_preview(*state, e)),
            md@ == before + join(rs.take(i as int).map_values(f), "  ·  "@),
        decreases 3 - i,
    {
        if i > 0 {
            push_str(md, "  ·  ");
        }
        push_rel_preview(md, state, &rels[i].0, &rels[i].1);
        proof {
            let a = rs.take(i as int).map_values(f);
            let b = rs.take(i + 1).map_values(f);
            assert(b.drop_last() =~= a);
            assert(b.last() == rel_preview(*state, rs[i as int]));
            if i == 0 {
                assert(a.len() == 0);
                assert(b.len() == 1);
            }
        }
        i = i + 1;
    }
    let ghost joined = md@;
    if n_rels > 3 {
        push_str(md, "  … +");
        push_dec(md, (n_rels - 3) as u64);
        push_str(md, " more");
    }
    push_str(md, " |\n");
    proof {
        let shown_n: int = if n_rels < 3 { n_rels as int } else { 3 };
        assert(i == shown_n);
        assert(md@ =~= old(md)@ + model_relations_text(*state, *model));
    }
}

fn push_columns_rows(md: &mut String, model: &Model)
    ensures
        final(md)@ == old(md)@ + model_columns_text(*model),
{
    let cols = model.columns.entries();
    let (hl, names) = column_summary(cols);
    push_str(md, "| columns | ");
    push_dec(md, cols.len() as u64);
    if hl.len() > 0 {
        push_str(md, "  ·  ");
        push_joined(md, &hl, "  ·  ");
    }
    push_str(md, "  |\n");
    push_str(md, "| | ");
    push_capped(md, &names, 6, ", ", " ");
    push_str(md, " |\n");
    assert(md@ =~= old(md)@ + model_columns_text(*model));
}

pub fn model_card(model: &Model, state: &WorkspaceState) -> (r: String)
    ensures
        r@ == model_card_text(*state, *model),
{
    let mut md = to_owned("**class ");
    push_str(&mut md, model.name.as_str());
    push_str(&mut md, "(Base)** *(model)*\n\n---\n");
    push_str(&mut md, "| | |\n|---|---|\n");
    match &model.table_name {
        Some(t) => {
            push_str(&mut md, "| table | `");
            push_str(&mut md, t.as_str());
            push_str(&mut md, "` |\n");
        },
        None => {
            push_str(&mut md, "| table | — *(no __tablename__)* |\n");
        },
    }
    assert(md@ =~= model_head_text(*model));
    push_columns_rows(&mut md, model);
    push_relations_row(&mut md, state, model);
    let ghost mid = md@;
    match &model.docstring {
        Some(d) => {
            push_str(&mut md, "| doc | ");
            push_str(&mut md, d.as_str());
            push_str(&mut md, " |\n");
        },
        None => {},
    }
    assert(md@ =~= model_card_text(*state, *model));
    md
}

// ── Columns ──────────────────────────────────────────────────────────────────

/// The table a model maps, or a dash.
pub open spec fn table_of(m: Model) -> Seq<char> {
    match m.table_name {
        Some(t) => t@,
        None => "—"@,
    }
}

/// `true` or `false`.
pub open spec fn bool_text(b: bool) -> Seq<char> {
    if b {
        "true"@
    } else {
        "false"@
    }
}

/// The counterpart a relationship names, or `?`.
pub open spec fn bp_or_q(r: Relationship) -> Seq<char> {
    match r.back_populates {
        Some(b) => b@,
        None => "?"@,
    }
}

/// The first lines of a column's card.
pub open spec fn column_head_text(m: Model, name: Seq<char>, c: Column) -> Seq<char> {
    "**"@ + m.name@ + "."@ + name + "**"@ + if c.args.primary_key {
        " *(column, pk)*"@
    } else if c.foreign_key is Some {
        " *(column, FK)*"@
    } else {
        " *(column)*"@
    } + "\n\n---\n"@ + "| | |\n|---|---|\n"@ + "| table | `"@ + table_of(m) + "` |\n"@
}

/// The alias row of a column whose attribute and database names differ.
pub open spec fn alias_text(name: Seq<char>, c: Column) -> Seq<char> {
    match c.key {
        Some(a) => if a@ != name {
            "| column | `"@ + a@ + "` ← aliased (attr `"@ + name + "`) |\n"@
        } else {
            Seq::empty()
        },
        None => Seq::empty(),
    }
}

/// The flag row of a column.
pub open spec fn flags_text(c: Column) -> Seq<char> {
    "| nullable | "@ + bool_text(c.args.nullable) + " &nbsp;&nbsp; unique &nbsp; "@ + bool_text(
        c.args.unique,
    ) + " &nbsp;&nbsp; primary key &nbsp; "@ + bool_text(c.args.primary_key) + " |\n"@
}

/// Alias, type, flag and default rows of a column's card.
pub open spec fn column_facts_text(name: Seq<char>, c: Column) -> Seq<char> {
    alias_text(name, c) + ("| type | `"@ + "Mapped["@ + type_text(c.mapped_type@) + "]"@ + "` |\n"@)
        + flags_text(c) + match c.args.default {
        Some(d) => "| default | `"@ + d@ + "` |\n"@,
        None => "| default | — |\n"@,
    }
}

/// The names of the `__table_args__` entries that cover column `name`.
pub open spec fn index_names(tas: Seq<TableArg>, name: Seq<char>) -> Seq<Seq<char>>
    decreases tas.len(),
{
    if tas.len() == 0 {
        Seq::empty()
    } else {
        let r = index_names(tas.drop_last(), name);
        let ta = tas.last();
        if views(ta.columns@).contains(name) && ta.name is Some {
            r.push(ta.name->0@)
        } else {
            r
        }
    }
}

/// Index and doc rows of a column's card.
pub open spec fn column_index_doc_text(m: Model, name: Seq<char>, c: Column) -> Seq<char> {
    let ix = index_names(m.table_args@, name);
    (if ix.len() > 0 {
        "| index | `"@ + join(ix, ", "@) + "` |\n"@
    } else {
        Seq::empty()
    }) + match c.doc {
        Some(d) => "| doc | "@ + d@ + " |\n"@,
        None => Seq::empty(),
    }
}

/// The relationships (in order) whose target is `tm`, shown as pairs.
pub open spec fn backing(rels: Seq<(String, Relationship)>, mname: Seq<char>, tm: Seq<char>) -> Seq<Seq<char>>
    decreases rels.len(),
{
    if rels.len() == 0 {
        Seq::empty()
    } else {
        let r = backing(rels.drop_last(), mname, tm);
        let rel = rels.last().1;
        if rel.target_model@ == tm {
            r.push(
                "`"@ + mname + "."@ + rel.name@ + "` ↔ `"@ + rel.target_model@ + "."@ + bp_or_q(rel)
                    + "`"@,
            )
        } else {
            r
        }
    }
}

/// The foreign-key rows of a column's card: its target, and the
/// relationships that ride on it.
pub open spec fn column_fk_text(st: WorkspaceState, m: Model, c: Column) -> Seq<char> {
    match c.foreign_key {
        None => Seq::empty(),
        Some(fk) => if st.table_index@.contains_key(fk.table@) {
            let mn = st.table_index@[fk.table@]@;
            let b = backing(m.relationships.seq(), m.name@, mn);
            "| foreign | "@ + "→ `"@ + fk.table@ + "."@ + fk.column@ + "` ("@ + mn + "."@ + fk.column@
                + ")"@ + " |\n"@ + if b.len() > 0 {
                "| backs | "@ + join(b, ", "@) + " |\n"@
            } else {
                Seq::empty()
            }
        } else {
            "| foreign | "@ + "→ `"@ + fk.table@ + "."@ + fk.column@ + "` *(target not in workspace)*"@
                + " |\n"@
        },
    }
}

/// The relationships of `om` (in order) that target `target`.
pub open spec fn rel_uses(om_name: Seq<char>, rels: Seq<(String, Relationship)>, target: Seq<char>) -> Seq<Seq<char>>
    decreases rels.len(),
{
    if rels.len() == 0 {
        Seq::empty()
    } else {
        let r = rel_uses(om_name, rels.drop_last(), target);
        let rel = rels.last().1;
        if rel.target_model@ == target {
            r.push("rel `"@ + om_name + "."@ + rel.name@ + "` ↔ `"@ + target + "."@ + bp_or_q(rel) + "`"@)
        } else {
            r
        }
    }
}

/// What column `e` of model `om` says of `table.col` of model `target`: its
/// foreign key to it, then the relationships of `om` back to `target`.
pub open spec fn col_uses(
    om: Model,
    e: (String, Column),
    table: Seq<char>,
    col: Seq<char>,
    target: Seq<char>,
) -> Seq<Seq<char>> {
    match e.1.foreign_key {
        Some(fk) => if fk.table@ == table && fk.column@ == col {
            seq![
                "FK  `"@ + match om.table_name {
                    Some(t) => t@,
                    None => om.name@,
                } + "."@ + e.0@ + "` → `"@ + table + "."@ + col + "`"@,
            ] + rel_uses(om.name@, om.relationships.seq(), target)
        } else {
            Seq::empty()
        },
        None => Seq::empty(),
    }
}

pub open spec fn col_uses_f(om: Model, table: Seq<char>, col: Seq<char>, target: Seq<char>) -> spec_fn((String, Column)) -> Seq<Seq<char>> {
    |e: (String, Column)| col_uses(om, e, table, col, target)
}

/// The uses of `table.col` in another model (none in the model itself).
pub open spec fn model_uses(om: Model, table: Seq<char>, col: Seq<char>, target: Seq<char>) -> Seq<Seq<char>> {
    if om.name@ == target {
        Seq::empty()
    } else {
        cat_map(om.columns.seq(), col_uses_f(om, table, col, target))
    }
}

pub open spec fn model_uses_f(table: Seq<char>, col: Seq<char>, target: Seq<char>) -> spec_fn(Model) -> Seq<Seq<char>> {
    |om: Model| model_uses(om, table, col, target)
}

pub open spec fn file_uses_f(table: Seq<char>, col: Seq<char>, target: Seq<char>) -> spec_fn((String, Vec<Model>)) -> Seq<Seq<char>> {
    |e: (String, Vec<Model>)| cat_map(e.1@, model_uses_f(table, col, target))
}

/// Everything in the workspace that uses `table.col` of model `target`.
pub open spec fn used_by(st: WorkspaceState, table: Seq<char>, col: Seq<char>, target: Seq<char>) -> Seq<Seq<char>> {
    cat_map(st.file_models.seq(), file_uses_f(table, col, target))
}

/// The used-by row of a key or unique column's card.
pub open spec fn column_used_text(st: WorkspaceState, m: Model, name: Seq<char>, c: Column) -> Seq<char> {
    if c.args.primary_key || c.args.unique {
        let u = used_by(st, table_of(m), name, m.name@);
        if u.len() == 0 {
            "| used by | — *(no relationship references this column)* |\n"@
        } else {
            "| used by | "@ + capped(u, 6, "<br>"@, " "@) + " |\n"@
        }
    } else {
        Seq::empty()
    }
}

/// The card of column `name` of `m` (empty if it has none such).
pub open spec fn column_card_text(st: WorkspaceState, m: Model, name: Seq<char>) -> Seq<char> {
    if !m.columns@.contains_key(name) {
        Seq::empty()
    } else {
        let c = m.columns@[name];
        column_head_text(m, name, c) + column_facts_text(name, c) + column_index_doc_text(m, name, c)
            + column_fk_text(st, m, c) + column_used_text(st, m, name, c)
    }
}

fn push_table_of(md: &mut String, m: &Model)
    ensures
        final(md)@ == old(md)@ + table_of(*m),
{
    match &m.table_name {
        Some(t) => push_str(md, t.as_str()),
        None => push_str(md, "—"),
    }
}

fn push_bool(md: &mut String, b: bool)
    ensures
        final(md)@ == old(md)@ + bool_text(b),
{
    if b {
        push_str(md, "true");
    } else {
        push_str(md, "false");
    }
}

fn push_column_head(md: &mut String, m: &Model, name: &str, c: &Column)
    ensures
        final(md)@ == old(md)@ + column_head_text(*m, name@, *c),
{
    push_str(md, "**");
    push_str(md, m.name.as_str());
    push_str(md, ".");
    push_str(md, name);
    push_str(md, "**");
    if c.args.primary_key {
        push_str(md, " *(column, pk)*");
    } else if c.foreign_key.is_some() {
        push_str(md, " *(column, FK)*");
    } else {
        push_str(md, " *(column)*");
    }
    push_str(md, "\n\n---\n");
    push_str(md, "| | |\n|---|---|\n");
    push_str(md, "| table | `");
    push_table_of(md, m);
    push_str(md, "` |\n");
    assert(final(md)@ =~= old(md)@ + column_head_text(*m, name@, *c));
}

fn push_alias(md: &mut String, name: &str, c: &Column)
    ensures
        final(md)@ == old(md)@ + alias_text(name@, *c),
{
    match &c.key {
        Some(a) => {
            if !str_eq(a.as_str(), name) {
                push_str(md, "| column | `");
                push_str(md, a.as_str());
                push_str(md, "` ← aliased (attr `");
                push_str(md, name);
                push_str(md, "`) |\n");
            }
        },
        None => {},
    }
    assert(final(md)@ =~= old(md)@ + alias_text(name@, *c));
}

fn push_flags(md: &mut String, c: &Column)
    ensures
        final(md)@ == old(md)@ + flags_text(*c),
{
    push_str(md, "| nullable | ");
    push_bool(md, c.args.nullable);
    push_str(md, " &nbsp;&nbsp; unique &nbsp; ");
    push_bool(md, c.args.unique);
    push_str(md, " &nbsp;&nbsp; primary key &nbsp; ");
    push_bool(md, c.args.primary_key);
    push_str(md, " |\n");
    assert(final(md)@ =~= old(md)@ + flags_text(*c));
}

fn push_column_facts(md: &mut String, name: &str, c: &Column)
    ensures
        final(md)@ == old(md)@ + column_facts_text(name@, *c),
{
    push_alias(md, name, c);
    let ghost a = md@;
    let mut t = to_owned("| type | `");
    push_str(&mut t, "Mapped[");
    let ty = c.mapped_type.to_display();
    push_str(&mut t, ty.as_str());
    push_str(&mut t, "]");
    push_str(&mut t, "` |\n");
    push_str(md, t.as_str());
    push_flags(md, c);
    let ghost b = md@;
    match &c.args.default {
        Some(d) => {
            push_str(md, "| default | `");
            push_str(md, d.as_str());
            push_str(md, "` |\n");
        },
        None => {
            push_str(md, "| default | — |\n");
        },
    }
    assert(final(md)@ =~= old(md)@ + column_facts_text(name@, *c));
}

fn strings_contain(v: &Vec<String>, s: &str) -> (r: bool)
    ensures
        r == views(v@).contains(s@),
{
    let mut i: usize = 0;
    while i < v.len()
        invariant
            i <= v@.len(),
            forall|k: int| 0 <= k < i ==> views(v@)[k] != s@,
        decreases v@.len() - i,
    {
        if str_eq(v[i].as_str(), s) {
            assert(views(v@)[i as int] == s@);
            return true;
        }
        i = i + 1;
    }
    false
}

fn push_column_index_doc(md: &mut String, m: &Model, name: &str, c: &Column)
    ensures
        final(md)@ == old(md)@ + column_index_doc_text(*m, name@, *c),
{
    let tas = &m.table_args;
    let mut ix: Vec<String> = Vec::new();
    let mut i: usize = 0;
    while i < tas.len()
        invariant
            i <= tas@.len(),
            views(ix@) == index_names(tas@.take(i as int), name@),
        decreases tas@.len() - i,
    {
        proof {
            assert(tas@.take(i + 1).drop_last() =~= tas@.take(i as int));
        }
        let ta = &tas[i];
        if strings_contain(&ta.columns, name) {
            match &ta.name {
                Some(n) => {
                    let ghost o = views(ix@);
                    ix.push(n.clone());
                    assert(views(ix@) =~= o.push(n@));
                },
                None => {},
            }
        }
        i = i + 1;
    }
    assert(tas@.take(tas@.len() as int) =~= tas@);
    if ix.len() > 0 {
        push_str(md, "| index | `");
        push_joined(md, &ix, ", ");
        push_str(md, "` |\n");
    }
    match &c.doc {
        Some(d) => {
            push_str(md, "| doc | ");
            push_str(md, d.as_str());
            push_str(md, " |\n");
        },
        None => {},
    }
    assert(final(md)@ =~= old(md)@ + column_index_doc_text(*m, name@, *c));
}

fn push_pair(out: &mut Vec<String>, pre: &str, a: &str, b: &str, c: &str, d: &str, post: &str)
    ensures
        views(final(out)@) == views(old(out)@).push(pre@ + a@ + "."@ + b@ + "` ↔ `"@ + c@ + "."@ + d@ + post@),
{
    let mut t = to_owned(pre);
    push_str(&mut t, a);
    push_str(&mut t, ".");
    push_str(&mut t, b);
    push_str(&mut t, "` ↔ `");
    push_str(&mut t, c);
    push_str(&mut t, ".");
    push_str(&mut t, d);
    push_str(&mut t, post);
    let ghost o = views(out@);
    out.push(t);
    assert(views(out@) =~= o.push(pre@ + a@ + "."@ + b@ + "` ↔ `"@ + c@ + "."@ + d@ + post@));
}

fn bp_or_q_exec(r: &Relationship) -> (s: &str)
    ensures
        s@ == bp_or_q(*r),
{
    match &r.back_populates {
        Some(b) => b.as_str(),
        None => "?",
    }
}

fn push_column_fk(md: &mut String, state: &WorkspaceState, m: &Model, c: &Column)
    ensures
        final(md)@ == old(md)@ + column_fk_text(*state, *m, *c),
{
    let fk = match &c.foreign_key {
        Some(fk) => fk,
        None => {
            assert(old(md)@ + Seq::<char>::empty() =~= old(md)@);
            return;
        },
    };
    push_str(md, "| foreign | ");
    push_str(md, "→ `");
    push_str(md, fk.table.as_str());
    push_str(md, ".");
    push_str(md, fk.column.as_str());
    match state.table_index.get(fk.table.as_str()) {
        Some(mn) => {
            push_str(md, "` (");
            push_str(md, mn.as_str());
            push_str(md, ".");
            push_str(md, fk.column.as_str());
            push_str(md, ")");
            push_str(md, " |\n");
            let ghost mid = md@;
            let rels = m.relationships.entries();
            let mut b: Vec<String> = Vec::new();
            let mut i: usize = 0;
            while i < rels.len()
                invariant
                    i <= rels@.len(),
                    rels@ == m.relationships.seq(),
                    views(b@) == backing(rels@.take(i as int), m.name@, mn@),
                decreases rels@.len() - i,
            {
                proof {
                    assert(rels@.take(i + 1).drop_last() =~= rels@.take(i as int));
                }
                let rel = &rels[i].1;
                if str_eq(rel.target_model.as_str(), mn.as_str()) {
                    push_pair(
                        &mut b,
                        "`",
                        m.name.as_str(),
                        rel.name.as_str(),
                        rel.target_model.as_str(),
                        bp_or_q_exec(rel),
                        "`",
                    );
                }
                i = i + 1;
            }
            assert(rels@.take(rels@.len() as int) =~= rels@);
            if b.len() > 0 {
                push_str(md, "| backs | ");
                push_joined(md, &b, ", ");
                push_str(md, " |\n");
            }
        },
        None => {
            push_str(md, "` *(target not in workspace)*");
            push_str(md, " |\n");
        },
    }
    assert(final(md)@ =~= old(md)@ + column_fk_text(*state, *m, *c));
}

fn push_col_uses(out: &mut Vec<String>, om: &Model, cname: &String, col: &Column, table: &str, name: &str, target: &str)
    ensures
        views(final(out)@) == views(old(out)@) + col_uses(*om, (*cname, *col), table@, name@, target@),
{
    let fk = match &col.foreign_key {
        Some(fk) => fk,
        None => {
            assert(views(old(out)@) + Seq::<Seq<char>>::empty() =~= views(old(out)@));
            return;
        },
    };
    if !(str_eq(fk.table.as_str(), table) && str_eq(fk.column.as_str(), name)) {
        assert(views(old(out)@) + Seq::<Seq<char>>::empty() =~= views(old(out)@));
        return;
    }
    let mut t = to_owned("FK  `");
    match &om.table_name {
        Some(tn) => push_str(&mut t, tn.as_str()),
        None => push_str(&mut t, om.name.as_str()),
    }
    push_str(&mut t, ".");
    push_str(&mut t, cname.as_str());
    push_str(&mut t, "` → `");
    push_str(&mut t, table);
    push_str(&mut t, ".");
    push_str(&mut t, name);
    push_str(&mut t, "`");
    let ghost o = views(out@);
    out.push(t);
    let ghost start = views(out@);
    assert(start =~= o.push(t@));
    let rels = om.relationships.entries();
    let mut i: usize = 0;
    while i < rels.len()
        invariant
            i <= rels@.len(),
            rels@ == om.relationships.seq(),
            views(out@) == start + rel_uses(om.name@, rels@.take(i as int), target@),
        decreases rels@.len() - i,
    {
        proof {
            assert(rels@.take(i + 1).drop_last() =~= rels@.take(i as int));
        }
        let rel = &rels[i].1;
        if str_eq(rel.target_model.as_str(), target) {
            push_pair(out, "rel `", om.name.as_str(), rel.name.as_str(), target, bp_or_q_exec(rel), "`");
            proof {
                let a = rel_uses(om.name@, rels@.take(i as int), target@);
                assert(start + a.push("rel `"@ + om.name@ + "."@ + rel.name@ + "` ↔ `"@ + target@ + "."@ + bp_or_q(*rel) + "`"@) =~= (start + a).push("rel `"@ + om.name@ + "."@ + rel.name@ + "` ↔ `"@ + target@ + "."@ + bp_or_q(*rel) + "`"@));
            }
        }
        i = i + 1;
    }
    assert(rels@.take(rels@.len() as int) =~= rels@);
    assert(views(out@) =~= o + col_uses(*om, (*cname, *col), table@, name@, target@));
}

fn push_model_uses(out: &mut Vec<String>, om: &Model, table: &str, name: &str, target: &str)
    ensures
        views(final(out)@) == views(old(out)@) + model_uses(*om, table@, name@, target@),
{
    if str_eq(om.name.as_str(), target) {
        assert(views(old(out)@) + Seq::<Seq<char>>::empty() =~= views(old(out)@));
        return;
    }
    let ghost start = views(out@);
    let ghost f = col_uses_f(*om, table@, name@, target@);
    let cols = om.columns.entries();
    let mut i: usize = 0;
    while i < cols.len()
        invariant
            i <= cols@.len(),
            cols@ == om.columns.seq(),
            f == col_uses_f(*om, table@, name@, target@),
            views(out@) == start + cat_map(cols@.take(i as int), f),
        decreases cols@.len() - i,
    {
        proof {
            lemma_cat_map_take(cols@, f, i as int);
        }
        push_col_uses(out, om, &cols[i].0, &cols[i].1, table, name, target);
        proof {
            assert(cols@[i as int] == (cols@[i as int].0, cols@[i as int].1));
        }
        i = i + 1;
    }
    assert(cols@.take(cols@.len() as int) =~= cols@);
}

fn used_by_exec(state: &WorkspaceState, table: &str, name: &str, target: &str) -> (r: Vec<String>)
    ensures
        views(r@) == used_by(*state, table@, name@, target@),
{
    let ghost ff = file_uses_f(table@, name@, target@);
    let ghost mf = model_uses_f(table@, name@, target@);
    let files = state.file_models.entries();
    let mut out: Vec<String> = Vec::new();
    let mut i: usize = 0;
    while i < files.len()
        invariant
            i <= files@.len(),
            files@ == state.file_models.seq(),
            ff == file_uses_f(table@, name@, target@),
            mf == model_uses_f(table@, name@, target@),
            views(out@) == cat_map(files@.take(i as int), ff),
        decreases files@.len() - i,
    {
        proof {
            lemma_cat_map_take(files@, ff, i as int);
        }
        let models = &files[i].1;
        let ghost start = views(out@);
        let mut j: usize = 0;
        while j < models.len()
            invariant
                j <= models@.len(),
                mf == model_uses_f(table@, name@, target@),
                views(out@) == start + cat_map(models@.take(j as int), mf),
            decreases models@.len() - j,
        {
            proof {
                lemma_cat_map_take(models@, mf, j as int);
            }
            push_model_uses(&mut out, &models[j], table, name, target);
            j = j + 1;
        }
        assert(models@.take(models@.len() as int) =~= models@);
        i = i + 1;
    }
    assert(files@.take(files@.len() as int) =~= files@);
    out
}

fn push_column_used(md: &mut String, state: &WorkspaceState, m: &Model, name: &str, c: &Column)
    ensures
        final(md)@ == old(md)@ + column_used_text(*state, *m, name@, *c),
{
    if !(c.args.primary_key || c.args.unique) {
        assert(old(md)@ + Seq::<char>::empty() =~= old(md)@);
        return;
    }
    let mut table = String::new();
    push_table_of(&mut table, m);
    assert(table@ =~= table_of(*m));
    let u = used_by_exec(state, table.as_str(), name, m.name.as_str());
    if u.len() == 0 {
        push_str(md, "| used by | — *(no relationship references this column)* |\n");
    } else {
        push_str(md, "| used by | ");
        push_capped(md, &u, 6, "<br>", " ");
        push_str(md, " |\n");
    }
}

pub fn column_card(model: &Model, col_name: &str, state: &WorkspaceState) -> (r: String)
    ensures
        r@ == column_card_text(*state, *model, col_name@),
{
    let col = match model.columns.get(col_name) {
        Some(c) => c,
        None => {
            return String::new();
        },
    };
    let mut md = String::new();
    push_column_head(&mut md, model, col_name, col);
    push_column_facts(&mut md, col_name, col);
    push_column_index_doc(&mut md, model, col_name, col);
    push_column_fk(&mut md, state, model, col);
    push_column_used(&mut md, state, model, col_name, col);
    assert(md@ =~= column_card_text(*state, *model, col_name@));
    md
}

// ── Choosing the card ────────────────────────────────────────────────────────

/// A hover answer: the card's markdown and the range it covers.
pub struct HoverCard {
    pub markdown: String,
    pub range: Range,
}

/// The first result `f` gives along `s`.
pub open spec fn first_some<T, U>(s: Seq<T>, f: spec_fn(T) -> Option<U>) -> Option<U>
    decreases s.len(),
{
    if s.len() == 0 {
        None
    } else {
        match f(s[0]) {
            Some(x) => Some(x),
            None => first_some(s.drop_first(), f),
        }
    }
}

proof fn lemma_first_some_step<T, U>(s: Seq<T>, f: spec_fn(T) -> Option<U>, i: int)
    requires
        0 <= i < s.len(),
    ensures
        first_some(s.skip(i), f) == match f(s[i]) {
            Some(x) => Some(x),
            None => first_some(s.skip(i + 1), f),
        },
{
    assert(s.skip(i)[0] == s[i]);
    assert(s.skip(i).drop_first() =~= s.skip(i + 1));
}

/// A card on a relationship's `back_populates` or `cascade` value.
pub open spec fn rel_value_hit(st: WorkspaceState, pos: Position, e: (String, Relationship)) -> Option<(Seq<char>, Range)> {
    let r = e.1;
    if r.back_populates is Some && r.back_populates_range is Some && pos_in_spec(
        pos,
        r.back_populates_range->0,
    ) {
        Some(
            (
                back_populates_card_text(st, r.target_model@, r.back_populates->0@),
                r.back_populates_range->0,
            ),
        )
    } else if r.cascade is Some && r.cascade_range is Some && pos_in_spec(pos, r.cascade_range->0) {
        Some((cascade_card_text(r.cascade->0@), r.cascade_range->0))
    } else {
        None
    }
}

/// A card on a column's foreign-key string.
pub open spec fn fk_hit(st: WorkspaceState, pos: Position, e: (String, Column)) -> Option<(Seq<char>, Range)> {
    match e.1.foreign_key {
        Some(fk) => if pos_in_spec(pos, fk.range) {
            Some((fk_string_card_text(st, fk.table@, fk.column@), fk.range))
        } else {
            None
        },
        None => None,
    }
}

/// A card on a column's name.
pub open spec fn col_hit(st: WorkspaceState, m: Model, pos: Position, e: (String, Column)) -> Option<(Seq<char>, Range)> {
    let md = column_card_text(st, m, e.0@);
    if pos_in_spec(pos, e.1.name_range) && md.len() > 0 {
        Some((md, e.1.name_range))
    } else {
        None
    }
}

/// A card on a relationship's name.
pub open spec fn rel_hit(st: WorkspaceState, m: Model, pos: Position, e: (String, Relationship)) -> Option<(Seq<char>, Range)> {
    let md = relationship_card_text(st, m, e.0@);
    if pos_in_spec(pos, e.1.name_range) && md.len() > 0 {
        Some((md, e.1.name_range))
    } else {
        None
    }
}

pub open spec fn or_else<U>(a: Option<U>, b: Option<U>) -> Option<U> {
    match a {
        Some(x) => Some(x),
        None => b,
    }
}

/// The card for a position in model `m`, most specific first: relationship
/// values, foreign-key strings, column names, relationship names, the
/// model's name.
#[verifier::opaque]
pub open spec fn model_hit(st: WorkspaceState, pos: Position, m: Model) -> Option<(Seq<char>, Range)> {
    or_else(
        first_some(m.relationships.seq(), |e: (String, Relationship)| rel_value_hit(st, pos, e)),
        or_else(
            first_some(m.columns.seq(), |e: (String, Column)| fk_hit(st, pos, e)),
            or_else(
                first_some(m.columns.seq(), |e: (String, Column)| col_hit(st, m, pos, e)),
                or_else(
                    first_some(
                        m.relationships.seq(),
                        |e: (String, Relationship)| rel_hit(st, m, pos, e),
                    ),
                    if pos_in_spec(pos, m.name_range) {
                        Some((model_card_text(st, m), m.name_range))
                    } else {
                        None
                    },
                ),
            ),
        ),
    )
}

/// The hover answer at `pos` in file `uri`: the first model of the file
/// with a card there.
pub open spec fn hover_at(st: WorkspaceState, uri: Seq<char>, pos: Position) -> Option<(Seq<char>, Range)> {
    if st.file_models@.contains_key(uri) {
        first_some(st.file_models@[uri]@, |m: Model| model_hit(st, pos, m))
    } else {
        None
    }
}

pub open spec fn card_v(c: Option<HoverCard>) -> Option<(Seq<char>, Range)> {
    match c {
        Some(h) => Some((h.markdown@, h.range)),
        None => None,
    }
}

fn rel_value_hover(state: &WorkspaceState, pos: Position, m: &Model) -> (r: Option<HoverCard>)
    ensures
        card_v(r) == first_some(m.relationships.seq(), |e: (String, Relationship)| rel_value_hit(*state, pos, e)),
{
    let ghost f = |e: (String, Relationship)| rel_value_hit(*state, pos, e);
    let rels = m.relationships.entries();
    let mut i: usize = 0;
    assert(rels@.skip(0) =~= rels@);
    while i < rels.len()
        invariant
            i <= rels@.len(),
            rels@ == m.relationships.seq(),
            f == (|e: (String, Relationship)| rel_value_hit(*state, pos, e)),
            first_some(rels@, f) == first_some(rels@.skip(i as int), f),
        decreases rels@.len() - i,
    {
        proof {
            lemma_first_some_step(rels@, f, i as int);
        }
        let r = &rels[i].1;
        if let (Some(bp), Some(br)) = (&r.back_populates, &r.back_populates_range) {
            if pos_in(pos, *br) {
                let md = back_populates_card(r.target_model.as_str(), bp.as_str(), state);
                return Some(HoverCard { markdown: md, range: *br });
            }
        }
        if let (Some(cas), Some(cr)) = (&r.cascade, &r.cascade_range) {
            if pos_in(pos, *cr) {
                let md = cascade_card(cas.as_str());
                return Some(HoverCard { markdown: md, range: *cr });
            }
        }
        i = i + 1;
    }
    None
}

fn fk_hover(state: &WorkspaceState, pos: Position, m: &Model) -> (r: Option<HoverCard>)
    ensures
        card_v(r) == first_some(m.columns.seq(), |e: (String, Column)| fk_hit(*state, pos, e)),
{
    let ghost f = |e: (String, Column)| fk_hit(*state, pos, e);
    let cols = m.columns.entries();
    let mut i: usize = 0;
    assert(cols@.skip(0) =~= cols@);
    while i < cols.len()
        invariant
            i <= cols@.len(),
            cols@ == m.columns.seq(),
            f == (|e: (String, Column)| fk_hit(*state, pos, e)),
            first_some(cols@, f) == first_some(cols@.skip(i as int), f),
        decreases cols@.len() - i,
    {
        proof {
            lemma_first_some_step(cols@, f, i as int);
        }
        if let Some(fk) = &cols[i].1.foreign_key {
            if pos_in(pos, fk.range) {
                let md = fk_string_card(fk.table.as_str(), fk.column.as_str(), state);
                return Some(HoverCard { markdown: md, range: fk.range });
            }
        }
        i = i + 1;
    }
    None
}

fn col_hover(state: &WorkspaceState, pos: Position, m: &Model) -> (r: Option<HoverCard>)
    ensures
        card_v(r) == first_some(m.columns.seq(), |e: (String, Column)| col_hit(*state, *m, pos, e)),
{
    let ghost f = |e: (String, Column)| col_hit(*state, *m, pos, e);
    let cols = m.columns.entries();
    let mut i: usize = 0;
    assert(cols@.skip(0) =~= cols@);
    while i < cols.len()
        invariant
            i <= cols@.len(),
            cols@ == m.columns.seq(),
            f == (|e: (String, Column)| col_hit(*state, *m, pos, e)),
            first_some(cols@, f) == first_some(cols@.skip(i as int), f),
        decreases cols@.len() - i,
    {
        proof {
            lemma_first_some_step(cols@, f, i as int);
        }
        if pos_in(pos, cols[i].1.name_range) {
            let md = column_card(m, cols[i].0.as_str(), state);
            if !md.as_str().is_empty() {
                return Some(HoverCard { markdown: md, range: cols[i].1.name_range });
            }
        }
        i = i + 1;
    }
    None
}

fn rel_name_hover(state: &WorkspaceState, pos: Position, m: &Model) -> (r: Option<HoverCard>)
    ensures
        card_v(r) == first_some(m.relationships.seq(), |e: (String, Relationship)| rel_hit(*state, *m, pos, e)),
{
    let ghost f = |e: (String, Relationship)| rel_hit(*state, *m, pos, e);
    let rels = m.relationships.entries();
    let mut i: usize = 0;
    assert(rels@.skip(0) =~= rels@);
    while i < rels.len()
        invariant
            i <= rels@.len(),
            rels@ == m.relationships.seq(),
            f == (|e: (String, Relationship)| rel_hit(*state, *m, pos, e)),
            first_some(rels@, f) == first_some(rels@.skip(i as int), f),
        decreases rels@.len() - i,
    {
        proof {
            lemma_first_some_step(rels@, f, i as int);
        }
        if pos_in(pos, rels[i].1.name_range) {
            let md = relationship_card(m, rels[i].0.as_str(), state);
            if !md.as_str().is_empty() {
                return Some(HoverCard { markdown: md, range: rels[i].1.name_range });
            }
        }
        i = i + 1;
    }
    None
}

fn model_hover(state: &WorkspaceState, pos: Position, m: &Model) -> (r: Option<HoverCard>)
    ensures
        card_v(r) == model_hit(*state, pos, *m),
{
    reveal(model_hit);
    let a = rel_value_hover(state, pos, m);
    if a.is_some() {
        return a;
    }
    let b = fk_hover(state, pos, m);
    if b.is_some() {
        return b;
    }
    let c = col_hover(state, pos, m);
    if c.is_some() {
        return c;
    }
    let d = rel_name_hover(state, pos, m);
    if d.is_some() {
        return d;
    }
    if pos_in(pos, m.name_range) {
        let md = model_card(m, state);
        return Some(HoverCard { markdown: md, range: m.name_range });
    }
    None
}

/// The hover card at `pos` in file `uri`, or none where no model construct
/// is under the cursor.
pub fn provide_hover(uri: &str, pos: Position, state: &WorkspaceState) -> (r: Option<HoverCard>)
    ensures
        card_v(r) == hover_at(*state, uri@, pos),
{
    let models = match state.file_models.get(uri) {
        Some(ms) => ms,
        None => {
            return None;
        },
    };
    let ghost f = |m: Model| model_hit(*state, pos, m);
    assert(hover_at(*state, uri@, pos) == first_some(models@, f));
    let mut i: usize = 0;
    assert(models@.skip(0) =~= models@);
    while i < models.len()
        invariant
            i <= models@.len(),
            f == (|m: Model| model_hit(*state, pos, m)),
            hover_at(*state, uri@, pos) == first_some(models@, f),
            first_some(models@, f) == first_some(models@.skip(i as int), f),
        decreases models@.len() - i,
    {
        proof {
            lemma_first_some_step(models@, f, i as int);
        }
        let h = model_hover(state, pos, &models[i]);
        assert(f(models@[i as int]) == model_hit(*state, pos, models@[i as int]));
        if h.is_some() {
            assert(first_some(models@, f) == card_v(h));
            return h;
        }
        i = i + 1;
    }
    None
}

/// The relationship card shows where the relationship leads. A target
/// that is not indexed shows as `| target | T *(unresolved)* |`. For an
/// indexed target, the target row is `| target | list[T] (m2m via `S`) |`
/// through a secondary table `S`; otherwise `| target | list[T] |` when the
/// relationship is a collection and `| target | → T |` when it holds one
/// object.
pub proof fn law_card_shows_cardinality(st: WorkspaceState, m: Model, rel_name: Seq<char>)
    requires
        m.relationships@.contains_key(rel_name),
    ensures
        !st.model_index@.contains_key(m.relationships@[rel_name].target_model@) ==> contains(
            relationship_card_text(st, m, rel_name),
            "| target | "@ + m.relationships@[rel_name].target_model@ + " *(unresolved)* |\n"@,
        ),
        st.model_index@.contains_key(m.relationships@[rel_name].target_model@)
            && m.relationships@[rel_name].secondary is Some ==> contains(
            relationship_card_text(st, m, rel_name),
            "| target | list["@ + m.relationships@[rel_name].target_model@ + "] (m2m via `"@
                + m.relationships@[rel_name].secondary->0@ + "`) |\n"@,
        ),
        st.model_index@.contains_key(m.relationships@[rel_name].target_model@)
            && m.relationships@[rel_name].secondary is None && m.relationships@[rel_name].is_list ==> contains(
            relationship_card_text(st, m, rel_name),
            "| target | list["@ + m.relationships@[rel_name].target_model@ + "] |\n"@,
        ),
        st.model_index@.contains_key(m.relationships@[rel_name].target_model@)
            && m.relationships@[rel_name].secondary is None && !m.relationships@[rel_name].is_list ==> contains(
            relationship_card_text(st, m, rel_name),
            "| target | → "@ + m.relationships@[rel_name].target_model@ + " |\n"@,
        ),
{
    let r = m.relationships@[rel_name];
    let t = r.target_model@;
    let head = "**"@ + m.name@ + "."@ + rel_name + "** *(relationship)*\n\n---\n"@ + "| | |\n|---|---|\n"@;
    let row = if st.model_index@.contains_key(t) {
        "| target | "@ + cardinality_text(r) + " |\n"@
    } else {
        "| target | "@ + t + " *(unresolved)* |\n"@
    };
    let tail = code_row("back_populates"@, r.back_populates) + code_row("lazy"@, r.lazy) + code_row(
        "cascade"@,
        r.cascade,
    ) + if r.viewonly == Some(true) {
        "| viewonly | true |\n"@
    } else {
        Seq::empty()
    };
    let card = relationship_card_text(st, m, rel_name);
    assert(card =~= head + row + tail);
    assert(card.subrange(head.len() as int, (head.len() + row.len()) as int) =~= row);
    assert(occurs_at(card, row, head.len() as int));
    reveal_strlit("| target | ");
    reveal_strlit("list[");
    reveal_strlit("]");
    reveal_strlit(" |\n");
    reveal_strlit("| target | list[");
    reveal_strlit("] |\n");
    reveal_strlit("→ ");
    reveal_strlit("| target | → ");
    if !st.model_index@.contains_key(t) {
    } else if r.secondary is Some {
        reveal_strlit("] (m2m via `");
        reveal_strlit("`)");
        reveal_strlit("`) |\n");
        assert(row =~= "| target | list["@ + t + "] (m2m via `"@ + r.secondary->0@ + "`) |\n"@);
    } else if r.is_list {
        assert(row =~= "| target | list["@ + t + "] |\n"@);
    } else {
        assert(row =~= "| target | → "@ + t + " |\n"@);
    }
}

} // verus!
