//! The workspace ER schema in three renderings: Mermaid, Graphviz DOT, and
//! boxed ASCII.
use vstd::prelude::*;

use crate::f01::base_v;
use crate::sort::{kviews, skey, sort_order, sorted_order, str_key};
use crate::state::WorkspaceState;
use crate::text::{lowercase, push_char, push_str, str_eq, to_lowercase, to_owned, to_uppercase, uppercase};
use crate::types::{join, type_text, Column, MappedType, Model, Relationship, TypeV};

verus! {

// ── Ordering ─────────────────────────────────────────────────────────────────

/// A column's place in the source: its name's line, then column.
pub open spec fn col_key(c: Column) -> Seq<u32> {
    seq![c.name_range.start_line, c.name_range.start_col]
}

/// A model's columns in source order (stable).
pub open spec fn sorted_cols(m: Model) -> Seq<Column> {
    let cs = m.columns.seq();
    sorted_order(cs.map_values(|e: (String, Column)| col_key(e.1))).map_values(|i: int| cs[i].1)
}

/// The columns of a model, ordered by where their names appear.
pub fn sorted_columns(model: &Model) -> (r: Vec<&Column>)
    ensures
        r@.map_values(|c: &Column| *c) == sorted_cols(*model),
{
    let cs = model.columns.entries();
    let ghost ks = cs@.map_values(|e: (String, Column)| col_key(e.1));
    let mut keys: Vec<Vec<u32>> = Vec::new();
    let mut i: usize = 0;
    while i < cs.len()
        invariant
            i <= cs@.len(),
            cs@ == model.columns.seq(),
            ks == cs@.map_values(|e: (String, Column)| col_key(e.1)),
            keys@.len() == i,
            forall|k: int| 0 <= k < i ==> #[trigger] keys@[k]@ == ks[k],
        decreases cs@.len() - i,
    {
        let r = cs[i].1.name_range;
        let k = vec![r.start_line, r.start_col];
        keys.push(k);
        i = i + 1;
    }
    assert(kviews(keys@) =~= ks);
    let order = sort_order(&keys);
    let ghost so = sorted_order(ks);
    let mut out: Vec<&Column> = Vec::new();
    let mut j: usize = 0;
    while j < order.len()
        invariant
            j <= order@.len(),
            order@.len() == cs@.len(),
            forall|k: int| 0 <= k < order@.len() ==> (#[trigger] order@[k]) < cs@.len(),
            out@.len() == j,
            forall|k: int| 0 <= k < j ==> *(#[trigger] out@[k]) == cs@[order@[k] as int].1,
        decreases order@.len() - j,
    {
        out.push(&cs[order[j]].1);
        j = j + 1;
    }
    proof {
        assert(order@.map_values(|i: usize| i as int) == so);
        assert forall|k: int| 0 <= k < out@.len() implies out@.map_values(|c: &Column| *c)[k]
            == sorted_cols(*model)[k] by {
            assert(so[k] == order@[k] as int);
        }
        assert(out@.map_values(|c: &Column| *c) =~= sorted_cols(*model));
    }
    out
}

/// Some rendered model has this name.
pub open spec fn is_known(known: Seq<Model>, t: Seq<char>) -> bool {
    exists|i: int| 0 <= i < known.len() && (#[trigger] known[i]).name@ == t
}

/// The relationships whose target is a rendered model, in index order.
pub open spec fn kept_rels(rels: Seq<(String, Relationship)>, known: Seq<Model>) -> Seq<Relationship>
    decreases rels.len(),
{
    if rels.len() == 0 {
        Seq::empty()
    } else {
        let rest = kept_rels(rels.drop_last(), known);
        if is_known(known, rels.last().1.target_model@) {
            rest.push(rels.last().1)
        } else {
            rest
        }
    }
}

/// A model's relationships to rendered models, by name (stable).
pub open spec fn sorted_rels_of(m: Model, known: Seq<Model>) -> Seq<Relationship> {
    let k = kept_rels(m.relationships.seq(), known);
    sorted_order(k.map_values(|r: Relationship| skey(r.name@))).map_values(|i: int| k[i])
}

fn is_known_exec(known: &[&Model], t: &str) -> (r: bool)
    ensures
        r == is_known(known@.map_values(|m: &Model| *m), t@),
{
    let ghost ks = known@.map_values(|m: &Model| *m);
    let mut i: usize = 0;
    while i < known.len()
        invariant
            i <= known@.len(),
            ks == known@.map_values(|m: &Model| *m),
            forall|j: int| 0 <= j < i ==> (#[trigger] ks[j]).name@ != t@,
        decreases known@.len() - i,
    {
        if str_eq(known[i].name.as_str(), t) {
            assert(ks[i as int].name@ == t@);
            return true;
        }
        i = i + 1;
    }
    false
}

/// The relationships of a model that point at a rendered model, by name.
pub fn sorted_rels<'a>(model: &'a Model, known: &[&Model]) -> (r: Vec<&'a Relationship>)
    ensures
        r@.map_values(|x: &Relationship| *x) == sorted_rels_of(
            *model,
            known@.map_values(|m: &Model| *m),
        ),
{
    let ghost kn = known@.map_values(|m: &Model| *m);
    let rels = model.relationships.entries();
    let mut kept: Vec<&Relationship> = Vec::new();
    let mut i: usize = 0;
    while i < rels.len()
        invariant
            i <= rels@.len(),
            rels@ == model.relationships.seq(),
            kn == known@.map_values(|m: &Model| *m),
            kept@.map_values(|x: &Relationship| *x) == kept_rels(rels@.take(i as int), kn),
        decreases rels@.len() - i,
    {
        proof {
            assert(rels@.take(i + 1).drop_last() =~= rels@.take(i as int));
        }
        let ghost before = kept@;
        if is_known_exec(known, rels[i].1.target_model.as_str()) {
            kept.push(&rels[i].1);
            proof {
                assert(kept@.map_values(|x: &Relationship| *x) =~= before.map_values(
                    |x: &Relationship| *x,
                ).push(rels@[i as int].1));
            }
        }
        i = i + 1;
    }
    assert(rels@.take(rels@.len() as int) =~= rels@);
    let ghost k = kept@.map_values(|x: &Relationship| *x);
    let ghost ks = k.map_values(|r: Relationship| skey(r.name@));
    let mut keys: Vec<Vec<u32>> = Vec::new();
    let mut j: usize = 0;
    while j < kept.len()
        invariant
            j <= kept@.len(),
            k == kept@.map_values(|x: &Relationship| *x),
            ks == k.map_values(|r: Relationship| skey(r.name@)),
            keys@.len() == j,
            forall|q: int| 0 <= q < j ==> #[trigger] keys@[q]@ == ks[q],
        decreases kept@.len() - j,
    {
        keys.push(str_key(kept[j].name.as_str()));
        j = j + 1;
    }
    assert(kviews(keys@) =~= ks);
    let order = sort_order(&keys);
    let ghost so = sorted_order(ks);
    let mut out: Vec<&Relationship> = Vec::new();
    let mut q: usize = 0;
    while q < order.len()
        invariant
            q <= order@.len(),
            order@.len() == kept@.len(),
            k == kept@.map_values(|x: &Relationship| *x),
            forall|a: int| 0 <= a < order@.len() ==> (#[trigger] order@[a]) < kept@.len(),
            out@.len() == q,
            forall|a: int| 0 <= a < q ==> *(#[trigger] out@[a]) == k[order@[a] as int],
        decreases order@.len() - q,
    {
        out.push(kept[order[q]]);
        q = q + 1;
    }
    proof {
        assert(order@.map_values(|i: usize| i as int) == so);
        assert forall|a: int| 0 <= a < out@.len() implies out@.map_values(|x: &Relationship| *x)[a]
            == sorted_rels_of(*model, kn)[a] by {
            assert(so[a] == order@[a] as int);
        }
        assert(out@.map_values(|x: &Relationship| *x) =~= sorted_rels_of(*model, kn));
    }
    out
}

// ── Types ────────────────────────────────────────────────────────────────────

/// The type as shown in Graphviz and ASCII: `Optional[...]` dropped.
pub fn schema_type(mt: &MappedType) -> (s: String)
    ensures
        s@ == type_text(base_v(mt@)),
    decreases mt,
{
    match mt {
        MappedType::Optional(inner) => schema_type(inner),
        _ => mt.to_display(),
    }
}

/// The Mermaid attribute type of a column type.
pub open spec fn mermaid_type_v(t: TypeV) -> Seq<char>
    decreases t,
{
    match t {
        TypeV::Int => "int"@,
        TypeV::Str => "string"@,
        TypeV::Float => "float"@,
        TypeV::Bool => "boolean"@,
        TypeV::DateTime => "datetime"@,
        TypeV::Optional(inner) => mermaid_type_v(*inner),
        TypeV::List(_) => "array"@,
        TypeV::SqlType(name, _) => lowercase(name),
        TypeV::ForwardRef(s) => lowercase(s),
        TypeV::Unknown(s) => lowercase(s),
    }
}

/// The Mermaid attribute type of a column type.
pub fn mermaid_type(mt: &MappedType) -> (s: String)
    ensures
        s@ == mermaid_type_v(mt@),
    decreases mt,
{
    match mt {
        MappedType::Int => to_owned("int"),
        MappedType::Str => to_owned("string"),
        MappedType::Float => to_owned("float"),
        MappedType::Bool => to_owned("boolean"),
        MappedType::DateTime => to_owned("datetime"),
        MappedType::Optional(inner) => mermaid_type(inner),
        MappedType::List(_) => to_owned("array"),
        MappedType::SqlType { name, .. } => to_lowercase(name.as_str()),
        MappedType::ForwardRef(s) => to_lowercase(s.as_str()),
        MappedType::Unknown(s) => to_lowercase(s.as_str()),
    }
}

// ── Text helpers ─────────────────────────────────────────────────────────────

/// `k` copies of `c`.
pub open spec fn rep(c: char, k: int) -> Seq<char> {
    Seq::new(k as nat, |_i: int| c)
}

/// Appends `k` copies of `c`.
fn push_rep(s: &mut String, c: char, k: u128)
    ensures
        final(s)@ == old(s)@ + rep(c, k as int),
{
    let ghost start = s@;
    let mut i: u128 = 0;
    while i < k
        invariant
            i <= k,
            s@ == start + rep(c, i as int),
        decreases k - i,
    {
        crate::text::push_char(s, c);
        i = i + 1;
        assert(s@ =~= start + rep(c, i as int));
    }
}

/// Number of characters of a string.
fn char_count(s: &str) -> (n: usize)
    ensures
        n == s@.len(),
{
    crate::text::to_chars(s).len()
}

/// The longest of some lines, 0 for none.
pub open spec fn max_len(ls: Seq<Seq<char>>) -> nat
    decreases ls.len(),
{
    if ls.len() == 0 {
        0
    } else {
        let m = max_len(ls.drop_last());
        if ls.last().len() > m {
            ls.last().len()
        } else {
            m
        }
    }
}

fn max_len_exec(ls: &Vec<String>) -> (n: usize)
    ensures
        n == max_len(ls@.map_values(|s: String| s@)),
{
    let ghost v = ls@.map_values(|s: String| s@);
    let mut m: usize = 0;
    let mut i: usize = 0;
    while i < ls.len()
        invariant
            i <= ls@.len(),
            v == ls@.map_values(|s: String| s@),
            m == max_len(v.take(i as int)),
        decreases ls@.len() - i,
    {
        proof {
            assert(v.take(i + 1).drop_last() =~= v.take(i as int));
        }
        let n = char_count(ls[i].as_str());
        if n > m {
            m = n;
        }
        i = i + 1;
    }
    assert(v.take(v.len() as int) =~= v);
    m
}

/// The table of a model, empty when it has none.
pub open spec fn table_or_empty(m: Model) -> Seq<char> {
    match m.table_name {
        Some(t) => t@,
        None => Seq::empty(),
    }
}

fn table_str(m: &Model) -> (s: &str)
    ensures
        s@ == table_or_empty(*m),
{
    match &m.table_name {
        Some(t) => t.as_str(),
        None => {
            proof {
                reveal_strlit("");
            }
            ""
        },
    }
}

// ── ASCII ────────────────────────────────────────────────────────────────────

/// The flags an ASCII column line shows: PK, FK, UQ, NN.
pub open spec fn ascii_flags(c: Column) -> Seq<Seq<char>> {
    (if c.args.primary_key {
        seq!["PK"@]
    } else {
        Seq::empty()
    }) + (if c.foreign_key.is_some() {
        seq!["FK"@]
    } else {
        Seq::empty()
    }) + (if c.args.unique {
        seq!["UQ"@]
    } else {
        Seq::empty()
    }) + (if !c.args.nullable {
        seq!["NN"@]
    } else {
        Seq::empty()
    })
}

/// `name: type`, then the flags in brackets when there are any.
pub open spec fn ascii_col_line(c: Column) -> Seq<char> {
    let base = c.name@ + ": "@ + type_text(base_v(c.mapped_type@));
    if ascii_flags(c).len() == 0 {
        base
    } else {
        base + " ["@ + join(ascii_flags(c), ","@) + "]"@
    }
}

/// `name → Target`, `name → list[Target]`, or `... (m2m)` for a secondary.
pub open spec fn ascii_rel_line(r: Relationship) -> Seq<char> {
    if r.is_list && r.secondary.is_some() {
        r.name@ + " \u{2192} list["@ + r.target_model@ + "] (m2m)"@
    } else if r.is_list {
        r.name@ + " \u{2192} list["@ + r.target_model@ + "]"@
    } else {
        r.name@ + " \u{2192} "@ + r.target_model@
    }
}

pub open spec fn col_lines(m: Model) -> Seq<Seq<char>> {
    sorted_cols(m).map_values(|c: Column| ascii_col_line(c))
}

pub open spec fn rel_lines(m: Model, known: Seq<Model>) -> Seq<Seq<char>> {
    sorted_rels_of(m, known).map_values(|r: Relationship| ascii_rel_line(r))
}

pub open spec fn header(m: Model) -> Seq<char> {
    m.name@ + " ("@ + table_or_empty(m) + ")"@
}

/// The inner width of a model's box: the widest line plus two.
pub open spec fn inner_width(m: Model, known: Seq<Model>) -> int {
    let a = header(m).len();
    let b = max_len(col_lines(m));
    let c = max_len(rel_lines(m, known));
    let w: int = if a >= b && a >= c {
        a as int
    } else if b >= c {
        b as int
    } else {
        c as int
    };
    w + 2
}

/// A line centred between the box's walls.
pub open spec fn center(s: Seq<char>, inner: int) -> Seq<char> {
    let left = (inner - s.len()) / 2;
    "\u{2502}"@ + rep(' ', left) + s + rep(' ', inner - s.len() - left) + "\u{2502}"@
}

/// A line set one space in from the left wall.
pub open spec fn left_line(s: Seq<char>, inner: int) -> Seq<char> {
    "\u{2502} "@ + s + rep(' ', inner - 1 - s.len()) + "\u{2502}"@
}

/// Each line padded inside the walls, one per text line.
pub open spec fn block(ls: Seq<Seq<char>>, inner: int) -> Seq<char>
    decreases ls.len(),
{
    if ls.len() == 0 {
        Seq::empty()
    } else {
        block(ls.drop_last(), inner) + left_line(ls.last(), inner) + "\n"@
    }
}

/// A border line: `l`, `inner` horizontal bars, `r`.
pub open spec fn border(l: Seq<char>, inner: int, r: Seq<char>) -> Seq<char> {
    l + rep('\u{2500}', inner) + r
}

/// The top of a box: border, centred header, separator.
pub open spec fn box_head(h: Seq<char>, inner: int) -> Seq<char> {
    border("\u{250C}"@, inner, "\u{2510}"@) + "\n"@ + center(h, inner) + "\n"@ + border(
        "\u{251C}"@,
        inner,
        "\u{2524}"@,
    ) + "\n"@
}

/// The relationship section of a box, absent when there are none.
pub open spec fn box_rels(rels: Seq<Seq<char>>, inner: int) -> Seq<char> {
    if rels.len() == 0 {
        Seq::empty()
    } else {
        border("\u{251C}"@, inner, "\u{2524}"@) + "\n"@ + block(rels, inner)
    }
}

/// The box drawn for one model.
pub open spec fn ascii_box(m: Model, known: Seq<Model>) -> Seq<char> {
    let inner = inner_width(m, known);
    box_head(header(m), inner) + block(col_lines(m), inner) + box_rels(rel_lines(m, known), inner)
        + border("\u{2514}"@, inner, "\u{2518}"@) + "\n\n"@
}

/// The foreign-key lines of one model, in column order.
pub open spec fn fk_lines_of(model: Seq<char>, cols: Seq<Column>) -> Seq<Seq<char>>
    decreases cols.len(),
{
    if cols.len() == 0 {
        Seq::empty()
    } else {
        let rest = fk_lines_of(model, cols.drop_last());
        let c = cols.last();
        match c.foreign_key {
            Some(fk) => rest.push(
                "  "@ + model + "."@ + c.name@ + " \u{2192} "@ + fk.table@ + "."@ + fk.column@,
            ),
            None => rest,
        }
    }
}

/// The boxes of models `ms`, in order, and every foreign-key line.
pub open spec fn ascii_boxes(ms: Seq<Model>, known: Seq<Model>) -> (Seq<char>, Seq<Seq<char>>)
    decreases ms.len(),
{
    if ms.len() == 0 {
        (Seq::empty(), Seq::empty())
    } else {
        let (b, f) = ascii_boxes(ms.drop_last(), known);
        let m = ms.last();
        (b + ascii_box(m, known), f + fk_lines_of(m.name@, sorted_cols(m)))
    }
}

/// Lines each followed by a newline.
pub open spec fn nl_lines(ls: Seq<Seq<char>>) -> Seq<char>
    decreases ls.len(),
{
    if ls.len() == 0 {
        Seq::empty()
    } else {
        nl_lines(ls.drop_last()) + ls.last() + "\n"@
    }
}

/// The ASCII schema: one box per model, then a `Foreign Keys:` section.
pub open spec fn ascii_text(ms: Seq<Model>) -> Seq<char> {
    if ms.len() == 0 {
        "No SQLAlchemy models found in workspace.\n"@
    } else {
        let (b, f) = ascii_boxes(ms, ms);
        b + if f.len() == 0 {
            Seq::<char>::empty()
        } else {
            "Foreign Keys:\n"@ + nl_lines(f)
        }
    }
}

fn ascii_col_line_exec(c: &Column) -> (s: String)
    ensures
        s@ == ascii_col_line(*c),
{
    let mut s = crate::text::concat2(c.name.as_str(), ": ");
    let t = schema_type(&c.mapped_type);
    push_str(&mut s, t.as_str());
    let mut flags: Vec<String> = Vec::new();
    if c.args.primary_key {
        flags.push(to_owned("PK"));
    }
    if c.foreign_key.is_some() {
        flags.push(to_owned("FK"));
    }
    if c.args.unique {
        flags.push(to_owned("UQ"));
    }
    if !c.args.nullable {
        flags.push(to_owned("NN"));
    }
    assert(crate::types::views(flags@) =~= ascii_flags(*c));
    if flags.len() > 0 {
        push_str(&mut s, " [");
        crate::types::push_joined(&mut s, &flags, ",");
        push_str(&mut s, "]");
    }
    s
}

fn ascii_rel_line_exec(r: &Relationship) -> (s: String)
    ensures
        s@ == ascii_rel_line(*r),
{
    if r.is_list && r.secondary.is_some() {
        let mut s = crate::text::concat3(r.name.as_str(), " \u{2192} list[", r.target_model.as_str());
        push_str(&mut s, "] (m2m)");
        s
    } else if r.is_list {
        let mut s = crate::text::concat3(r.name.as_str(), " \u{2192} list[", r.target_model.as_str());
        push_str(&mut s, "]");
        s
    } else {
        crate::text::concat3(r.name.as_str(), " \u{2192} ", r.target_model.as_str())
    }
}

fn push_block(out: &mut String, ls: &Vec<String>, inner: u128)
    requires
        inner >= max_len(ls@.map_values(|s: String| s@)) + 1,
    ensures
        final(out)@ == old(out)@ + block(ls@.map_values(|s: String| s@), inner as int),
{
    let ghost v = ls@.map_values(|s: String| s@);
    let ghost start = out@;
    let mut i: usize = 0;
    while i < ls.len()
        invariant
            i <= ls@.len(),
            v == ls@.map_values(|s: String| s@),
            inner >= max_len(v) + 1,
            out@ == start + block(v.take(i as int), inner as int),
        decreases ls@.len() - i,
    {
        proof {
            assert(v.take(i + 1).drop_last() =~= v.take(i as int));
            lemma_max_len_ge(v, i as int);
        }
        let n = char_count(ls[i].as_str());
        push_str(out, "\u{2502} ");
        push_str(out, ls[i].as_str());
        push_rep(out, ' ', inner - 1 - n as u128);
        push_str(out, "\u{2502}");
        push_str(out, "\n");
        i = i + 1;
    }
    assert(v.take(v.len() as int) =~= v);
}

proof fn lemma_max_len_ge(v: Seq<Seq<char>>, i: int)
    requires
        0 <= i < v.len(),
    ensures
        v[i].len() <= max_len(v),
    decreases v.len(),
{
    if i < v.len() - 1 {
        lemma_max_len_ge(v.drop_last(), i);
    }
}

fn push_border(out: &mut String, l: &str, inner: u128, r: &str)
    ensures
        final(out)@ == old(out)@ + border(l@, inner as int, r@),
{
    push_str(out, l);
    push_rep(out, '\u{2500}', inner);
    push_str(out, r);
}

fn ascii_col_lines(model: &Model) -> (r: Vec<String>)
    ensures
        r@.map_values(|s: String| s@) == col_lines(*model),
{
    let cols = sorted_columns(model);
    let ghost cv = cols@.map_values(|c: &Column| *c);
    let mut out: Vec<String> = Vec::new();
    let mut i: usize = 0;
    while i < cols.len()
        invariant
            i <= cols@.len(),
            cv == cols@.map_values(|c: &Column| *c),
            out@.len() == i,
            forall|k: int| 0 <= k < i ==> #[trigger] out@[k]@ == ascii_col_line(cv[k]),
        decreases cols@.len() - i,
    {
        out.push(ascii_col_line_exec(cols[i]));
        i = i + 1;
    }
    assert(out@.map_values(|s: String| s@) =~= col_lines(*model));
    out
}

fn ascii_rel_lines(model: &Model, known: &[&Model]) -> (r: Vec<String>)
    ensures
        r@.map_values(|s: String| s@) == rel_lines(*model, known@.map_values(|m: &Model| *m)),
{
    let rels = sorted_rels(model, known);
    let ghost rv = rels@.map_values(|x: &Relationship| *x);
    let mut out: Vec<String> = Vec::new();
    let mut i: usize = 0;
    while i < rels.len()
        invariant
            i <= rels@.len(),
            rv == rels@.map_values(|x: &Relationship| *x),
            out@.len() == i,
            forall|k: int| 0 <= k < i ==> #[trigger] out@[k]@ == ascii_rel_line(rv[k]),
        decreases rels@.len() - i,
    {
        out.push(ascii_rel_line_exec(rels[i]));
        i = i + 1;
    }
    assert(out@.map_values(|s: String| s@) =~= rel_lines(*model, known@.map_values(|m: &Model| *m)));
    out
}

fn push_box_head(out: &mut String, head: &str, inner: u128)
    requires
        inner >= head@.len() + 2,
    ensures
        final(out)@ == old(out)@ + box_head(head@, inner as int),
{
    let ghost start = out@;
    let a = char_count(head);
    push_border(out, "\u{250C}", inner, "\u{2510}");
    push_str(out, "\n");
    let ghost s1 = out@;
    let left = (inner - a as u128) / 2;
    push_str(out, "\u{2502}");
    push_rep(out, ' ', left);
    push_str(out, head);
    push_rep(out, ' ', inner - a as u128 - left);
    push_str(out, "\u{2502}");
    assert(out@ =~= s1 + center(head@, inner as int));
    push_str(out, "\n");
    push_border(out, "\u{251C}", inner, "\u{2524}");
    push_str(out, "\n");
    assert(out@ =~= start + box_head(head@, inner as int));
}

#[verifier::rlimit(40)]
fn push_ascii_box(out: &mut String, model: &Model, known: &[&Model])
    ensures
        final(out)@ == old(out)@ + ascii_box(*model, known@.map_values(|m: &Model| *m)),
{
    let ghost kn = known@.map_values(|m: &Model| *m);
    let ghost start = out@;
    let mut head = crate::text::concat3(model.name.as_str(), " (", table_str(model));
    push_str(&mut head, ")");
    let cl = ascii_col_lines(model);
    let rl = ascii_rel_lines(model, known);
    let a = char_count(head.as_str());
    let b = max_len_exec(&cl);
    let c = max_len_exec(&rl);
    let w = if a >= b && a >= c {
        a
    } else if b >= c {
        b
    } else {
        c
    };
    let inner: u128 = w as u128 + 2;
    assert(inner as int == inner_width(*model, kn));
    push_box_head(out, head.as_str(), inner);
    let ghost s1 = out@;
    push_block(out, &cl, inner);
    let ghost s2 = out@;
    if rl.len() > 0 {
        push_border(out, "\u{251C}", inner, "\u{2524}");
        push_str(out, "\n");
        push_block(out, &rl, inner);
    }
    assert(out@ =~= s2 + box_rels(rel_lines(*model, kn), inner as int));
    push_border(out, "\u{2514}", inner, "\u{2518}");
    push_str(out, "\n\n");
    assert(out@ =~= start + ascii_box(*model, kn));
}

fn push_fk_lines(lines: &mut Vec<String>, model: &Model)
    ensures
        final(lines)@.map_values(|s: String| s@) == old(lines)@.map_values(|s: String| s@)
            + fk_lines_of(model.name@, sorted_cols(*model)),
{
    let cols = sorted_columns(model);
    let ghost cv = cols@.map_values(|c: &Column| *c);
    let ghost start = lines@.map_values(|s: String| s@);
    let mut i: usize = 0;
    while i < cols.len()
        invariant
            i <= cols@.len(),
            cv == cols@.map_values(|c: &Column| *c),
            cv == sorted_cols(*model),
            lines@.map_values(|s: String| s@) == start + fk_lines_of(model.name@, cv.take(i as int)),
        decreases cols@.len() - i,
    {
        proof {
            assert(cv.take(i + 1).drop_last() =~= cv.take(i as int));
        }
        let c = cols[i];
        if let Some(fk) = &c.foreign_key {
            let mut l = crate::text::concat3("  ", model.name.as_str(), ".");
            push_str(&mut l, c.name.as_str());
            push_str(&mut l, " \u{2192} ");
            push_str(&mut l, fk.table.as_str());
            push_str(&mut l, ".");
            push_str(&mut l, fk.column.as_str());
            let ghost before = lines@;
            lines.push(l);
            proof {
                assert(lines@.map_values(|s: String| s@) =~= before.map_values(|s: String| s@).push(l@));
            }
        }
        i = i + 1;
    }
    assert(cv.take(cv.len() as int) =~= cv);
}

/// The boxed ASCII schema of the given models, in order.
pub fn render_ascii(models: &[&Model]) -> (s: String)
    ensures
        s@ == ascii_text(models@.map_values(|m: &Model| *m)),
{
    let ghost ms = models@.map_values(|m: &Model| *m);
    if models.len() == 0 {
        return to_owned("No SQLAlchemy models found in workspace.\n");
    }
    let mut out = String::new();
    let mut fks: Vec<String> = Vec::new();
    let mut i: usize = 0;
    while i < models.len()
        invariant
            i <= models@.len(),
            ms == models@.map_values(|m: &Model| *m),
            out@ == ascii_boxes(ms.take(i as int), ms).0,
            fks@.map_values(|s: String| s@) == ascii_boxes(ms.take(i as int), ms).1,
        decreases models@.len() - i,
    {
        proof {
            assert(ms.take(i + 1).drop_last() =~= ms.take(i as int));
        }
        push_ascii_box(&mut out, models[i], models);
        push_fk_lines(&mut fks, models[i]);
        i = i + 1;
    }
    assert(ms.take(ms.len() as int) =~= ms);
    if fks.len() > 0 {
        push_str(&mut out, "Foreign Keys:\n");
        let ghost before = out@;
        let ghost fv = fks@.map_values(|s: String| s@);
        let mut k: usize = 0;
        while k < fks.len()
            invariant
                k <= fks@.len(),
                fv == fks@.map_values(|s: String| s@),
                out@ == before + nl_lines(fv.take(k as int)),
            decreases fks@.len() - k,
        {
            proof {
                assert(fv.take(k + 1).drop_last() =~= fv.take(k as int));
            }
            push_str(&mut out, fks[k].as_str());
            push_str(&mut out, "\n");
            k = k + 1;
        }
        assert(fv.take(fv.len() as int) =~= fv);
    }
    out
}

// ── Mermaid ──────────────────────────────────────────────────────────────────

pub open spec fn mermaid_card(r: Relationship) -> Seq<char> {
    if r.is_list && r.secondary.is_some() {
        "}o--o{"@
    } else if r.is_list {
        "||--o{"@
    } else {
        "||--||"@
    }
}

/// One relationship line of the Mermaid diagram.
pub open spec fn mermaid_rel_line(m: Model, r: Relationship) -> Seq<char> {
    "    "@ + uppercase(m.name@) + " "@ + mermaid_card(r) + " "@ + uppercase(r.target_model@) + " : \""@
        + r.name@ + "\"\n"@
}

pub open spec fn mermaid_rel_lines(m: Model, rels: Seq<Relationship>) -> Seq<char>
    decreases rels.len(),
{
    if rels.len() == 0 {
        Seq::empty()
    } else {
        mermaid_rel_lines(m, rels.drop_last()) + mermaid_rel_line(m, rels.last())
    }
}

/// The key markers of a Mermaid attribute: PK, FK, UK.
pub open spec fn mermaid_keys(c: Column) -> Seq<Seq<char>> {
    (if c.args.primary_key {
        seq!["PK"@]
    } else {
        Seq::empty()
    }) + (if c.foreign_key.is_some() {
        seq!["FK"@]
    } else {
        Seq::empty()
    }) + (if c.args.unique {
        seq!["UK"@]
    } else {
        Seq::empty()
    })
}

pub open spec fn mermaid_col_line(c: Column) -> Seq<char> {
    "        "@ + mermaid_type_v(c.mapped_type@) + " "@ + c.name@ + (if mermaid_keys(c).len() == 0 {
        Seq::<char>::empty()
    } else {
        " "@ + join(mermaid_keys(c), " "@)
    }) + "\n"@
}

pub open spec fn mermaid_col_lines(cols: Seq<Column>) -> Seq<char>
    decreases cols.len(),
{
    if cols.len() == 0 {
        Seq::empty()
    } else {
        mermaid_col_lines(cols.drop_last()) + mermaid_col_line(cols.last())
    }
}

pub open spec fn mermaid_entity(m: Model) -> Seq<char> {
    "    "@ + uppercase(m.name@) + " {\n"@ + mermaid_col_lines(sorted_cols(m)) + "    }\n"@
}

/// The relationship lines, then the entities, of models `ms`.
pub open spec fn mermaid_parts(ms: Seq<Model>, known: Seq<Model>) -> (Seq<char>, Seq<char>)
    decreases ms.len(),
{
    if ms.len() == 0 {
        (Seq::empty(), Seq::empty())
    } else {
        let (r, e) = mermaid_parts(ms.drop_last(), known);
        let m = ms.last();
        (r + mermaid_rel_lines(m, sorted_rels_of(m, known)), e + mermaid_entity(m))
    }
}

pub open spec fn mermaid_head() -> Seq<char> {
    "%%{init: {'theme': 'base', 'themeVariables': {'fontSize': '14px'}}}%%\nerDiagram\n"@
}

/// The Mermaid ER diagram of the given models.
pub open spec fn mermaid_text(ms: Seq<Model>) -> Seq<char> {
    if ms.len() == 0 {
        mermaid_head() + "    %% No SQLAlchemy models found in workspace.\n"@
    } else {
        let (r, e) = mermaid_parts(ms, ms);
        mermaid_head() + r + "\n"@ + e
    }
}

fn push_mermaid_rels(out: &mut String, model: &Model, known: &[&Model])
    ensures
        final(out)@ == old(out)@ + mermaid_rel_lines(
            *model,
            sorted_rels_of(*model, known@.map_values(|m: &Model| *m)),
        ),
{
    let rels = sorted_rels(model, known);
    let ghost rv = rels@.map_values(|x: &Relationship| *x);
    let ghost start = out@;
    let from = to_uppercase(model.name.as_str());
    let mut i: usize = 0;
    while i < rels.len()
        invariant
            i <= rels@.len(),
            rv == rels@.map_values(|x: &Relationship| *x),
            from@ == uppercase(model.name@),
            out@ == start + mermaid_rel_lines(*model, rv.take(i as int)),
        decreases rels@.len() - i,
    {
        proof {
            assert(rv.take(i + 1).drop_last() =~= rv.take(i as int));
        }
        let r = rels[i];
        let card = if r.is_list && r.secondary.is_some() {
            "}o--o{"
        } else if r.is_list {
            "||--o{"
        } else {
            "||--||"
        };
        let to = to_uppercase(r.target_model.as_str());
        let ghost s0 = out@;
        push_str(out, "    ");
        push_str(out, from.as_str());
        push_str(out, " ");
        push_str(out, card);
        push_str(out, " ");
        push_str(out, to.as_str());
        push_str(out, " : \"");
        push_str(out, r.name.as_str());
        push_str(out, "\"\n");
        assert(out@ =~= s0 + mermaid_rel_line(*model, rv[i as int]));
        i = i + 1;
    }
    assert(rv.take(rv.len() as int) =~= rv);
}

fn push_mermaid_entity(out: &mut String, model: &Model)
    ensures
        final(out)@ == old(out)@ + mermaid_entity(*model),
{
    let ghost start = out@;
    let ent = to_uppercase(model.name.as_str());
    push_str(out, "    ");
    push_str(out, ent.as_str());
    push_str(out, " {\n");
    let ghost s1 = out@;
    let cols = sorted_columns(model);
    let ghost cv = cols@.map_values(|c: &Column| *c);
    let mut i: usize = 0;
    while i < cols.len()
        invariant
            i <= cols@.len(),
            cv == cols@.map_values(|c: &Column| *c),
            out@ == s1 + mermaid_col_lines(cv.take(i as int)),
        decreases cols@.len() - i,
    {
        proof {
            assert(cv.take(i + 1).drop_last() =~= cv.take(i as int));
        }
        let c = cols[i];
        let ghost s0 = out@;
        let typ = mermaid_type(&c.mapped_type);
        push_str(out, "        ");
        push_str(out, typ.as_str());
        push_str(out, " ");
        push_str(out, c.name.as_str());
        let mut keys: Vec<String> = Vec::new();
        if c.args.primary_key {
            keys.push(to_owned("PK"));
        }
        if c.foreign_key.is_some() {
            keys.push(to_owned("FK"));
        }
        if c.args.unique {
            keys.push(to_owned("UK"));
        }
        assert(crate::types::views(keys@) =~= mermaid_keys(*c));
        let ghost s2 = out@;
        if keys.len() > 0 {
            push_str(out, " ");
            crate::types::push_joined(out, &keys, " ");
        }
        push_str(out, "\n");
        assert(out@ =~= s0 + mermaid_col_line(cv[i as int]));
        i = i + 1;
    }
    assert(cv.take(cv.len() as int) =~= cv);
    push_str(out, "    }\n");
    assert(out@ =~= start + mermaid_entity(*model));
}

/// The Mermaid ER diagram of the given models, in order.
pub fn render_mermaid(models: &[&Model]) -> (s: String)
    ensures
        s@ == mermaid_text(models@.map_values(|m: &Model| *m)),
{
    let ghost ms = models@.map_values(|m: &Model| *m);
    let mut out = to_owned(
        "%%{init: {'theme': 'base', 'themeVariables': {'fontSize': '14px'}}}%%\nerDiagram\n",
    );
    if models.len() == 0 {
        push_str(&mut out, "    %% No SQLAlchemy models found in workspace.\n");
        return out;
    }
    let mut rels = String::new();
    let mut ents = String::new();
    let mut i: usize = 0;
    while i < models.len()
        invariant
            i <= models@.len(),
            ms == models@.map_values(|m: &Model| *m),
            rels@ == mermaid_parts(ms.take(i as int), ms).0,
            ents@ == mermaid_parts(ms.take(i as int), ms).1,
        decreases models@.len() - i,
    {
        proof {
            assert(ms.take(i + 1).drop_last() =~= ms.take(i as int));
        }
        push_mermaid_rels(&mut rels, models[i], models);
        push_mermaid_entity(&mut ents, models[i]);
        i = i + 1;
    }
    assert(ms.take(ms.len() as int) =~= ms);
    push_str(&mut out, rels.as_str());
    push_str(&mut out, "\n");
    push_str(&mut out, ents.as_str());
    out
}

// ── Graphviz ─────────────────────────────────────────────────────────────────

/// The markers of a Graphviz field: PK, FK, UQ.
pub open spec fn gv_markers(c: Column) -> Seq<Seq<char>> {
    (if c.args.primary_key {
        seq!["PK"@]
    } else {
        Seq::empty()
    }) + (if c.foreign_key.is_some() {
        seq!["FK"@]
    } else {
        Seq::empty()
    }) + (if c.args.unique {
        seq!["UQ"@]
    } else {
        Seq::empty()
    })
}

/// One field of a record label, `name : type (markers)\l`.
pub open spec fn gv_field(c: Column) -> Seq<char> {
    c.name@ + " : "@ + type_text(base_v(c.mapped_type@)) + (if gv_markers(c).len() == 0 {
        Seq::<char>::empty()
    } else {
        " ("@ + join(gv_markers(c), ", "@) + ")"@
    }) + "\\l"@
}

pub open spec fn gv_fields(cols: Seq<Column>) -> Seq<char>
    decreases cols.len(),
{
    if cols.len() == 0 {
        Seq::empty()
    } else {
        gv_fields(cols.drop_last()) + gv_field(cols.last())
    }
}

/// The record node of one model.
pub open spec fn gv_node(m: Model) -> Seq<char> {
    "  "@ + m.name@ + " [label=\""@ + "{"@ + m.name@ + " ("@ + table_or_empty(m) + ")|"@ + gv_fields(
        sorted_cols(m),
    ) + "}"@ + "\"];\n"@
}

/// The model that owns table `t`: the last of `ms` that declares it.
pub open spec fn table_owner(ms: Seq<Model>, t: Seq<char>) -> Option<Seq<char>>
    decreases ms.len(),
{
    if ms.len() == 0 {
        None
    } else if ms.last().table_name is Some && ms.last().table_name->0@ == t {
        Some(ms.last().name@)
    } else {
        table_owner(ms.drop_last(), t)
    }
}

/// Foreign-key edges of one model, in column order.
pub open spec fn gv_fk_edges(m: Model, cols: Seq<Column>, known: Seq<Model>) -> Seq<char>
    decreases cols.len(),
{
    if cols.len() == 0 {
        Seq::empty()
    } else {
        let c = cols.last();
        gv_fk_edges(m, cols.drop_last(), known) + match c.foreign_key {
            Some(fk) => match table_owner(known, fk.table@) {
                Some(target) => "  "@ + m.name@ + " -> "@ + target + " [label=\""@ + c.name@
                    + " \u{2192} "@ + fk.table@ + "."@ + fk.column@ + "\"];\n"@,
                None => Seq::empty(),
            },
            None => Seq::empty(),
        }
    }
}

/// Many-to-many edges of one model, in relationship order.
pub open spec fn gv_m2m_edges(m: Model, rels: Seq<Relationship>) -> Seq<char>
    decreases rels.len(),
{
    if rels.len() == 0 {
        Seq::empty()
    } else {
        let r = rels.last();
        gv_m2m_edges(m, rels.drop_last()) + if r.is_list && r.secondary.is_some() {
            "  "@ + m.name@ + " -> "@ + r.target_model@ + " [label=\""@ + r.name@
                + " (m2m)\", dir=both];\n"@
        } else {
            Seq::<char>::empty()
        }
    }
}

/// The nodes, then the edges, of models `ms`.
pub open spec fn gv_parts(ms: Seq<Model>, known: Seq<Model>) -> (Seq<char>, Seq<char>)
    decreases ms.len(),
{
    if ms.len() == 0 {
        (Seq::empty(), Seq::empty())
    } else {
        let (n, e) = gv_parts(ms.drop_last(), known);
        let m = ms.last();
        (n + gv_node(m), e + gv_fk_edges(m, sorted_cols(m), known) + gv_m2m_edges(
            m,
            sorted_rels_of(m, known),
        ))
    }
}

pub open spec fn gv_head() -> Seq<char> {
    "digraph schema {\n  rankdir=LR;\n  node [shape=record, fontname=\"monospace\"];\n\n"@
}

/// The Graphviz DOT digraph of the given models.
pub open spec fn graphviz_text(ms: Seq<Model>) -> Seq<char> {
    if ms.len() == 0 {
        gv_head() + "  // No SQLAlchemy models found in workspace.\n}\n"@
    } else {
        let (n, e) = gv_parts(ms, ms);
        gv_head() + n + "\n"@ + e + "}\n"@
    }
}

fn push_gv_node(out: &mut String, model: &Model)
    ensures
        final(out)@ == old(out)@ + gv_node(*model),
{
    let ghost start = out@;
    push_str(out, "  ");
    push_str(out, model.name.as_str());
    push_str(out, " [label=\"");
    push_str(out, "{");
    push_str(out, model.name.as_str());
    push_str(out, " (");
    push_str(out, table_str(model));
    push_str(out, ")|");
    let ghost s1 = out@;
    let cols = sorted_columns(model);
    let ghost cv = cols@.map_values(|c: &Column| *c);
    let mut i: usize = 0;
    while i < cols.len()
        invariant
            i <= cols@.len(),
            cv == cols@.map_values(|c: &Column| *c),
            out@ == s1 + gv_fields(cv.take(i as int)),
        decreases cols@.len() - i,
    {
        proof {
            assert(cv.take(i + 1).drop_last() =~= cv.take(i as int));
        }
        let c = cols[i];
        let ghost s0 = out@;
        let typ = schema_type(&c.mapped_type);
        push_str(out, c.name.as_str());
        push_str(out, " : ");
        push_str(out, typ.as_str());
        let mut marks: Vec<String> = Vec::new();
        if c.args.primary_key {
            marks.push(to_owned("PK"));
        }
        if c.foreign_key.is_some() {
            marks.push(to_owned("FK"));
        }
        if c.args.unique {
            marks.push(to_owned("UQ"));
        }
        assert(crate::types::views(marks@) =~= gv_markers(*c));
        if marks.len() > 0 {
            push_str(out, " (");
            crate::types::push_joined(out, &marks, ", ");
            push_str(out, ")");
        }
        push_str(out, "\\l");
        assert(out@ =~= s0 + gv_field(cv[i as int]));
        i = i + 1;
    }
    assert(cv.take(cv.len() as int) =~= cv);
    push_str(out, "}");
    push_str(out, "\"];\n");
    assert(out@ =~= start + gv_node(*model));
}

fn table_owner_exec<'a>(known: &[&'a Model], t: &str) -> (r: Option<&'a String>)
    ensures
        match r {
            Some(n) => table_owner(known@.map_values(|m: &Model| *m), t@) == Some(n@),
            None => table_owner(known@.map_values(|m: &Model| *m), t@) is None,
        },
{
    let ghost ms = known@.map_values(|m: &Model| *m);
    assert(ms.take(ms.len() as int) =~= ms);
    let mut i: usize = known.len();
    while i > 0
        invariant
            i <= known@.len(),
            ms == known@.map_values(|m: &Model| *m),
            table_owner(ms, t@) == table_owner(ms.take(i as int), t@),
        decreases i,
    {
        let m = known[i - 1];
        proof {
            assert(ms.take(i as int).drop_last() =~= ms.take(i - 1));
        }
        match &m.table_name {
            Some(tn) => {
                if str_eq(tn.as_str(), t) {
                    return Some(&m.name);
                }
            },
            None => {},
        }
        i = i - 1;
    }
    None
}

fn push_gv_edges(out: &mut String, model: &Model, known: &[&Model])
    ensures
        final(out)@ == old(out)@ + gv_fk_edges(
            *model,
            sorted_cols(*model),
            known@.map_values(|m: &Model| *m),
        ) + gv_m2m_edges(*model, sorted_rels_of(*model, known@.map_values(|m: &Model| *m))),
{
    let ghost kn = known@.map_values(|m: &Model| *m);
    let ghost start = out@;
    let cols = sorted_columns(model);
    let ghost cv = cols@.map_values(|c: &Column| *c);
    let mut i: usize = 0;
    while i < cols.len()
        invariant
            i <= cols@.len(),
            cv == cols@.map_values(|c: &Column| *c),
            kn == known@.map_values(|m: &Model| *m),
            out@ == start + gv_fk_edges(*model, cv.take(i as int), kn),
        decreases cols@.len() - i,
    {
        proof {
            assert(cv.take(i + 1).drop_last() =~= cv.take(i as int));
        }
        let c = cols[i];
        if let Some(fk) = &c.foreign_key {
            if let Some(target) = table_owner_exec(known, fk.table.as_str()) {
                let ghost s0 = out@;
                push_str(out, "  ");
                push_str(out, model.name.as_str());
                push_str(out, " -> ");
                push_str(out, target.as_str());
                push_str(out, " [label=\"");
                push_str(out, c.name.as_str());
                push_str(out, " \u{2192} ");
                push_str(out, fk.table.as_str());
                push_str(out, ".");
                push_str(out, fk.column.as_str());
                push_str(out, "\"];\n");
                assert(out@ =~= s0 + ("  "@ + model.name@ + " -> "@ + target@ + " [label=\""@
                    + c.name@ + " \u{2192} "@ + fk.table@ + "."@ + fk.column@ + "\"];\n"@));
            }
        }
        i = i + 1;
    }
    assert(cv.take(cv.len() as int) =~= cv);
    let ghost s1 = out@;
    let rels = sorted_rels(model, known);
    let ghost rv = rels@.map_values(|x: &Relationship| *x);
    let mut j: usize = 0;
    while j < rels.len()
        invariant
            j <= rels@.len(),
            rv == rels@.map_values(|x: &Relationship| *x),
            out@ == s1 + gv_m2m_edges(*model, rv.take(j as int)),
        decreases rels@.len() - j,
    {
        proof {
            assert(rv.take(j + 1).drop_last() =~= rv.take(j as int));
        }
        let r = rels[j];
        if r.is_list && r.secondary.is_some() {
            let ghost s0 = out@;
            push_str(out, "  ");
            push_str(out, model.name.as_str());
            push_str(out, " -> ");
            push_str(out, r.target_model.as_str());
            push_str(out, " [label=\"");
            push_str(out, r.name.as_str());
            push_str(out, " (m2m)\", dir=both];\n");
            assert(out@ =~= s0 + ("  "@ + model.name@ + " -> "@ + r.target_model@ + " [label=\""@
                + r.name@ + " (m2m)\", dir=both];\n"@));
        }
        j = j + 1;
    }
    assert(rv.take(rv.len() as int) =~= rv);
}

/// The Graphviz DOT digraph of the given models, in order.
pub fn render_graphviz(models: &[&Model]) -> (s: String)
    ensures
        s@ == graphviz_text(models@.map_values(|m: &Model| *m)),
{
    let ghost ms = models@.map_values(|m: &Model| *m);
    let mut out = to_owned(
        "digraph schema {\n  rankdir=LR;\n  node [shape=record, fontname=\"monospace\"];\n\n",
    );
    if models.len() == 0 {
        push_str(&mut out, "  // No SQLAlchemy models found in workspace.\n}\n");
        return out;
    }
    let mut nodes = String::new();
    let mut edges = String::new();
    let mut i: usize = 0;
    while i < models.len()
        invariant
            i <= models@.len(),
            ms == models@.map_values(|m: &Model| *m),
            nodes@ == gv_parts(ms.take(i as int), ms).0,
            edges@ == gv_parts(ms.take(i as int), ms).1,
        decreases models@.len() - i,
    {
        proof {
            assert(ms.take(i + 1).drop_last() =~= ms.take(i as int));
        }
        push_gv_node(&mut nodes, models[i]);
        push_gv_edges(&mut edges, models[i], models);
        i = i + 1;
    }
    assert(ms.take(ms.len() as int) =~= ms);
    push_str(&mut out, nodes.as_str());
    push_str(&mut out, "\n");
    push_str(&mut out, edges.as_str());
    push_str(&mut out, "}\n");
    out
}

// ── Entry point ──────────────────────────────────────────────────────────────

/// The models of `ms` that declare a table, in order.
pub open spec fn tabled(ms: Seq<Model>) -> Seq<Model>
    decreases ms.len(),
{
    if ms.len() == 0 {
        Seq::empty()
    } else if ms.last().table_name is Some {
        tabled(ms.drop_last()).push(ms.last())
    } else {
        tabled(ms.drop_last())
    }
}

pub open spec fn all_tabled(files: Seq<(String, Vec<Model>)>) -> Seq<Model>
    decreases files.len(),
{
    if files.len() == 0 {
        Seq::empty()
    } else {
        all_tabled(files.drop_last()) + tabled(files.last().1@)
    }
}

/// Every indexed model with a table, sorted by name (stable).
pub open spec fn schema_models(st: WorkspaceState) -> Seq<Model> {
    let a = all_tabled(st.file_models.seq());
    sorted_order(a.map_values(|m: Model| skey(m.name@))).map_values(|i: int| a[i])
}

/// Every indexed model that declares a table, sorted by name.
pub fn collect_sorted_models(state: &WorkspaceState) -> (r: Vec<&Model>)
    ensures
        r@.map_values(|m: &Model| *m) == schema_models(*state),
{
    let files = state.file_models.entries();
    let mut all: Vec<&Model> = Vec::new();
    let mut i: usize = 0;
    while i < files.len()
        invariant
            i <= files@.len(),
            files@ == state.file_models.seq(),
            all@.map_values(|m: &Model| *m) == all_tabled(files@.take(i as int)),
        decreases files@.len() - i,
    {
        proof {
            assert(files@.take(i + 1).drop_last() =~= files@.take(i as int));
        }
        let ms = &files[i].1;
        let ghost base = all@.map_values(|m: &Model| *m);
        let mut j: usize = 0;
        while j < ms.len()
            invariant
                j <= ms@.len(),
                all@.map_values(|m: &Model| *m) == base + tabled(ms@.take(j as int)),
            decreases ms@.len() - j,
        {
            proof {
                assert(ms@.take(j + 1).drop_last() =~= ms@.take(j as int));
            }
            let ghost before = all@;
            if ms[j].table_name.is_some() {
                all.push(&ms[j]);
                proof {
                    assert(all@.map_values(|m: &Model| *m) =~= before.map_values(|m: &Model| *m).push(
                        ms@[j as int],
                    ));
                }
            }
            j = j + 1;
        }
        assert(ms@.take(ms@.len() as int) =~= ms@);
        i = i + 1;
    }
    assert(files@.take(files@.len() as int) =~= files@);
    let ghost a = all@.map_values(|m: &Model| *m);
    let ghost ks = a.map_values(|m: Model| skey(m.name@));
    let mut keys: Vec<Vec<u32>> = Vec::new();
    let mut k: usize = 0;
    while k < all.len()
        invariant
            k <= all@.len(),
            a == all@.map_values(|m: &Model| *m),
            ks == a.map_values(|m: Model| skey(m.name@)),
            keys@.len() == k,
            forall|q: int| 0 <= q < k ==> #[trigger] keys@[q]@ == ks[q],
        decreases all@.len() - k,
    {
        keys.push(str_key(all[k].name.as_str()));
        k = k + 1;
    }
    assert(kviews(keys@) =~= ks);
    let order = sort_order(&keys);
    let ghost so = sorted_order(ks);
    let mut out: Vec<&Model> = Vec::new();
    let mut q: usize = 0;
    while q < order.len()
        invariant
            q <= order@.len(),
            order@.len() == all@.len(),
            a == all@.map_values(|m: &Model| *m),
            forall|x: int| 0 <= x < order@.len() ==> (#[trigger] order@[x]) < all@.len(),
            out@.len() == q,
            forall|x: int| 0 <= x < q ==> *(#[trigger] out@[x]) == a[order@[x] as int],
        decreases order@.len() - q,
    {
        out.push(all[order[q]]);
        q = q + 1;
    }
    proof {
        assert(order@.map_values(|i: usize| i as int) == so);
        assert forall|x: int| 0 <= x < out@.len() implies out@.map_values(|m: &Model| *m)[x]
            == schema_models(*state)[x] by {
            assert(so[x] == order@[x] as int);
        }
        assert(out@.map_values(|m: &Model| *m) =~= schema_models(*state));
    }
    out
}

/// The schema of the workspace in the named format: `graphviz`, `ascii`,
/// anything else Mermaid.
pub open spec fn schema_text(st: WorkspaceState, format: Seq<char>) -> Seq<char> {
    if format == "graphviz"@ {
        graphviz_text(schema_models(st))
    } else if format == "ascii"@ {
        ascii_text(schema_models(st))
    } else {
        mermaid_text(schema_models(st))
    }
}

/// Render the workspace ER schema.
pub fn render_schema(state: &WorkspaceState, format: &str) -> (s: String)
    ensures
        s@ == schema_text(*state, format@),
{
    let models = collect_sorted_models(state);
    if str_eq(format, "graphviz") {
        render_graphviz(models.as_slice())
    } else if str_eq(format, "ascii") {
        render_ascii(models.as_slice())
    } else {
        render_mermaid(models.as_slice())
    }
}

/// The `schema` subcommand on an indexed workspace: the text to print (the
/// ER schema as ASCII boxes) and the exit code, which is 0.
pub fn run_schema(state: &WorkspaceState) -> (r: (i32, String))
    ensures
        r.0 == 0,
        r.1@ == schema_text(*state, "ascii"@),
{
    (0, render_schema(state, "ascii"))
}

proof fn lemma_tabled_has_table(ms: Seq<Model>)
    ensures
        forall|i: int| 0 <= i < tabled(ms).len() ==> (#[trigger] tabled(ms)[i]).table_name is Some,
    decreases ms.len(),
{
    if ms.len() > 0 {
        lemma_tabled_has_table(ms.drop_last());
    }
}

proof fn lemma_all_tabled_has_table(files: Seq<(String, Vec<Model>)>)
    ensures
        forall|i: int| 0 <= i < all_tabled(files).len() ==> (#[trigger] all_tabled(files)[i]).table_name is Some,
    decreases files.len(),
{
    if files.len() > 0 {
        lemma_all_tabled_has_table(files.drop_last());
        lemma_tabled_has_table(files.last().1@);
        let a = all_tabled(files.drop_last());
        let b = tabled(files.last().1@);
        assert forall|i: int| 0 <= i < all_tabled(files).len() implies (#[trigger] all_tabled(files)[i]).table_name is Some by {
            if i < a.len() {
                assert(all_tabled(files)[i] == a[i]);
            } else {
                assert(all_tabled(files)[i] == b[i - a.len()]);
            }
        }
    }
}

/// The schema lists the models that name a table, and only those, in
/// ascending order of name: no model after another has a smaller name.
pub proof fn law_schema_models_sorted(st: WorkspaceState)
    ensures
        forall|i: int| 0 <= i < schema_models(st).len() ==> (#[trigger] schema_models(st)[i]).table_name is Some,
        forall|i: int, j: int|
            0 <= i < j < schema_models(st).len() ==> crate::sort::lex_le(
                skey((#[trigger] schema_models(st)[i]).name@),
                skey((#[trigger] schema_models(st)[j]).name@),
            ),
        schema_models(st).len() == all_tabled(st.file_models.seq()).len(),
{
    let a = all_tabled(st.file_models.seq());
    let keys = a.map_values(|m: Model| skey(m.name@));
    crate::sort::law_sorted_order_sorted(keys);
    lemma_all_tabled_has_table(st.file_models.seq());
    let so = sorted_order(keys);
    assert forall|i: int| 0 <= i < schema_models(st).len() implies (#[trigger] schema_models(st)[i]).table_name is Some by {
        assert(0 <= so[i] < keys.len());
    }
    assert forall|i: int, j: int| 0 <= i < j < schema_models(st).len() implies crate::sort::lex_le(
        skey((#[trigger] schema_models(st)[i]).name@),
        skey((#[trigger] schema_models(st)[j]).name@),
    ) by {
        assert(0 <= so[i] < keys.len());
        assert(0 <= so[j] < keys.len());
        assert(keys[so[i]] == skey(a[so[i]].name@));
        assert(keys[so[j]] == skey(a[so[j]].name@));
    }
}

/// No two models of the list share a name (compared by character codes,
/// as the schema sorts them).
pub open spec fn names_distinct(ms: Seq<Model>) -> bool {
    forall|i: int, j: int| 0 <= i < j < ms.len() ==> skey(ms[i].name@) != skey(ms[j].name@)
}

/// Two lists holding the same models, each sorted by name with no name
/// twice, are the same list.
proof fn lemma_sorted_unique(x: Seq<Model>, y: Seq<Model>)
    requires
        forall|m: Model| x.contains(m) <==> y.contains(m),
        names_distinct(x),
        names_distinct(y),
        forall|i: int, j: int| 0 <= i < j < x.len() ==> crate::sort::lex_le(skey(#[trigger] x[i].name@), skey(#[trigger] x[j].name@)),
        forall|i: int, j: int| 0 <= i < j < y.len() ==> crate::sort::lex_le(skey(#[trigger] y[i].name@), skey(#[trigger] y[j].name@)),
    ensures
        x == y,
    decreases x.len() + y.len(),
{
    if x.len() == 0 {
        if y.len() > 0 {
            assert(y.contains(y[0]));
        }
        assert(x =~= y);
    } else if y.len() == 0 {
        assert(x.contains(x[0]));
    } else {
        let a = x.last();
        let b = y.last();
        assert(x.contains(a));
        assert(y.contains(b));
        let ia = choose|k: int| 0 <= k < y.len() && y[k] == a;
        let ib = choose|k: int| 0 <= k < x.len() && x[k] == b;
        if ia < y.len() - 1 {
            crate::sort::lemma_lex_refl(skey(b.name@));
        }
        if a != b {
            if ib < x.len() - 1 && ia < y.len() - 1 {
                assert(crate::sort::lex_le(skey(b.name@), skey(a.name@)));
                assert(crate::sort::lex_le(skey(a.name@), skey(b.name@)));
                crate::sort::lemma_lex_antisym(skey(a.name@), skey(b.name@));
                assert(skey(y[ia].name@) == skey(y[y.len() - 1].name@));
            } else if ib == x.len() - 1 {
                assert(x[ib] == a);
            } else {
                assert(y[ia] == b);
            }
        }
        assert(a == b);
        let xd = x.drop_last();
        let yd = y.drop_last();
        assert forall|m: Model| xd.contains(m) <==> yd.contains(m) by {
            if xd.contains(m) {
                let k = choose|k: int| 0 <= k < xd.len() && xd[k] == m;
                assert(x[k] == m);
                assert(y.contains(m));
                let k2 = choose|k2: int| 0 <= k2 < y.len() && y[k2] == m;
                if k2 == y.len() - 1 {
                    assert(skey(x[k].name@) == skey(x[x.len() - 1].name@));
                }
                assert(yd[k2] == m);
            }
            if yd.contains(m) {
                let k = choose|k: int| 0 <= k < yd.len() && yd[k] == m;
                assert(y[k] == m);
                assert(x.contains(m));
                let k2 = choose|k2: int| 0 <= k2 < x.len() && x[k2] == m;
                if k2 == x.len() - 1 {
                    assert(skey(y[k].name@) == skey(y[y.len() - 1].name@));
                }
                assert(xd[k2] == m);
            }
        }
        lemma_sorted_unique(xd, yd);
        assert(x =~= xd.push(a));
        assert(y =~= yd.push(b));
    }
}

proof fn lemma_schema_models_contents(st: WorkspaceState)
    ensures
        forall|m: Model| schema_models(st).contains(m) <==> all_tabled(st.file_models.seq()).contains(m),
{
    let a = all_tabled(st.file_models.seq());
    let keys = a.map_values(|m: Model| skey(m.name@));
    crate::sort::law_sorted_order_sorted(keys);
    let so = sorted_order(keys);
    let r = schema_models(st);
    assert forall|m: Model| r.contains(m) <==> a.contains(m) by {
        if r.contains(m) {
            let k = choose|k: int| 0 <= k < r.len() && r[k] == m;
            assert(0 <= so[k] < keys.len());
            assert(a[so[k]] == m);
        }
        if a.contains(m) {
            let i = choose|i: int| 0 <= i < a.len() && a[i] == m;
            crate::sort::lemma_sorted_order_onto(keys, i);
            let k = choose|k: int| 0 <= k < so.len() && so[k] == i;
            assert(r[k] == m);
        }
    }
}

/// The schema does not depend on the order in which models were indexed:
/// two workspaces holding the same models with tables, no name twice, list
/// the same models in the same order.
pub proof fn law_schema_order_independent(st1: WorkspaceState, st2: WorkspaceState)
    requires
        forall|m: Model| all_tabled(st1.file_models.seq()).contains(m) <==> all_tabled(st2.file_models.seq()).contains(m),
        names_distinct(all_tabled(st1.file_models.seq())),
        names_distinct(all_tabled(st2.file_models.seq())),
    ensures
        schema_models(st1) == schema_models(st2),
{
    law_schema_models_sorted(st1);
    law_schema_models_sorted(st2);
    lemma_schema_models_contents(st1);
    lemma_schema_models_contents(st2);
    let x = schema_models(st1);
    let y = schema_models(st2);
    lemma_schema_models_distinct(st1);
    lemma_schema_models_distinct(st2);
    lemma_sorted_unique(x, y);
}

proof fn lemma_schema_models_distinct(st: WorkspaceState)
    requires
        names_distinct(all_tabled(st.file_models.seq())),
    ensures
        names_distinct(schema_models(st)),
{
    let a = all_tabled(st.file_models.seq());
    let keys = a.map_values(|m: Model| skey(m.name@));
    crate::sort::law_sorted_order_sorted(keys);
    crate::sort::lemma_sorted_order_distinct(keys);
    let so = sorted_order(keys);
    let x = schema_models(st);
    assert forall|i: int, j: int| 0 <= i < j < x.len() implies skey(x[i].name@) != skey(x[j].name@) by {
        assert(0 <= so[i] < keys.len());
        assert(0 <= so[j] < keys.len());
        assert(so[i] != so[j]);
        assert(x[i] == a[so[i]]);
        assert(x[j] == a[so[j]]);
        if so[i] < so[j] {
            assert(skey(a[so[i]].name@) != skey(a[so[j]].name@));
        } else {
            assert(skey(a[so[j]].name@) != skey(a[so[i]].name@));
        }
    }
}

} // verus!
