//! Reading a parsed Alembic migration: its revision, its parent
//! revision(s), its message, and the `op.*` calls of `upgrade()` and
//! `downgrade()`.
use vstd::prelude::*;

use crate::alembic::{ColumnRef, DownRevision, MigrationFile, OpCall, TableRef};
use crate::extract::{field_text, opt_view, unwrap_stmt};
use crate::extractor::{string_quotes_ok, string_unquoted, strip_string_quotes};
use crate::syntax::{child_by_field, field_child, is_kind, kind_is, named_children, named_kids, SyntaxNode};
use crate::text::{lines, starts_with, str_eq, str_starts_with, to_owned, trim};
use crate::types::{views, Range};

verus! {

// ── Operation calls ──────────────────────────────────────────────────────────

/// Whether an expression is an `op.<name>(...)` call with arguments.
pub open spec fn op_applies(e: SyntaxNode) -> bool {
    is_kind(e, "call"@) && field_child(e, "function"@) is Some && starts_with(field_text(e, "function"@), "op."@)
        && field_child(e, "arguments"@) is Some
}

/// The `op.*` calls a statement makes, looking inside `with`, `if`, `try`
/// and blocks.
pub open spec fn stmt_ops(c: SyntaxNode) -> Seq<SyntaxNode>
    decreases c, 2nat, 0nat,
{
    if is_kind(c, "expression_statement"@) {
        if named_kids(c).len() > 0 && op_applies(named_kids(c)[0]) {
            seq![named_kids(c)[0]]
        } else {
            Seq::empty()
        }
    } else if is_kind(c, "with_statement"@) || is_kind(c, "if_statement"@) || is_kind(c, "block"@) || is_kind(
        c,
        "try_statement"@,
    ) {
        body_ops(c)
    } else {
        Seq::empty()
    }
}

/// The `op.*` calls in the statements of a body.
pub open spec fn body_ops(n: SyntaxNode) -> Seq<SyntaxNode>
    decreases n, 1nat, 0nat,
{
    kids_ops(n, 0)
}

pub open spec fn kids_ops(n: SyntaxNode, i: nat) -> Seq<SyntaxNode>
    decreases n, 0nat, n.children@.len() - i,
{
    if i >= n.children@.len() {
        Seq::empty()
    } else {
        let c = n.children@[i as int];
        proof {
            assert(decreases_to!(n => n.children));
            assert(decreases_to!(n.children => n.children@));
            assert(decreases_to!(n.children@ => c));
        }
        (if c.named { stmt_ops(c) } else { Seq::empty() }) + kids_ops(n, i + 1)
    }
}

/// The arguments that are not keywords.
pub open spec fn positional(args: SyntaxNode) -> Seq<SyntaxNode> {
    named_kids(args).filter(|n: SyntaxNode| !is_kind(n, "keyword_argument"@))
}

/// Operations whose first argument is a constraint name.
pub open spec fn constraint_op(op: Seq<char>) -> bool {
    op == "drop_constraint"@ || op == "create_foreign_key"@ || op == "create_unique_constraint"@ || op
        == "create_check_constraint"@
}

/// Operations whose argument after the table is a column.
pub open spec fn column_op(op: Seq<char>) -> bool {
    op == "add_column"@ || op == "drop_column"@ || op == "alter_column"@
}

/// The string at position `i` of the positional arguments, unquoted, with
/// its range.
pub open spec fn string_at(ps: Seq<SyntaxNode>, i: int) -> Option<(Seq<char>, Range)> {
    if 0 <= i < ps.len() && is_kind(ps[i], "string"@) {
        Some((string_unquoted(ps[i].text@), ps[i].range))
    } else {
        None
    }
}

/// The operation's name: the function text after `op.`.
pub open spec fn op_name(e: SyntaxNode) -> Seq<char> {
    field_text(e, "function"@).skip(3)
}

pub open spec fn table_idx(op: Seq<char>) -> int {
    if constraint_op(op) {
        1
    } else {
        0
    }
}

/// The table an operation names.
pub open spec fn op_table(e: SyntaxNode) -> Option<(Seq<char>, Range)> {
    string_at(positional(field_child(e, "arguments"@)->0), table_idx(op_name(e)))
}

/// The column an operation on a column names.
pub open spec fn op_column(e: SyntaxNode) -> Option<(Seq<char>, Range)> {
    if column_op(op_name(e)) {
        string_at(positional(field_child(e, "arguments"@)->0), table_idx(op_name(e)) + 1)
    } else {
        None
    }
}

/// Where a constraint operation's name is `None`, or the whole call when
/// the name is missing.
pub open spec fn op_null_name(e: SyntaxNode) -> Option<Range> {
    let ps = positional(field_child(e, "arguments"@)->0);
    if constraint_op(op_name(e)) {
        if ps.len() > 0 {
            if is_kind(ps[0], "none"@) {
                Some(ps[0].range)
            } else {
                None
            }
        } else {
            Some(e.range)
        }
    } else {
        None
    }
}

/// The strings an operation unquotes have well-formed quotes.
pub open spec fn op_pre(e: SyntaxNode) -> bool {
    op_applies(e) ==> {
        let ps = positional(field_child(e, "arguments"@)->0);
        let t = table_idx(op_name(e));
        &&& (0 <= t < ps.len() && is_kind(ps[t], "string"@)) ==> string_quotes_ok(ps[t].text@)
        &&& (column_op(op_name(e)) && 0 <= t + 1 < ps.len() && is_kind(ps[t + 1], "string"@)) ==> string_quotes_ok(
            ps[t + 1].text@,
        )
    }
}

pub open spec fn name_ref(o: Option<(Seq<char>, Range)>, name: Option<String>, range: Option<Range>) -> bool {
    match o {
        Some(p) => name is Some && name->0@ == p.0 && range == Some(p.1),
        None => name is None,
    }
}

/// An operation call as recorded.
pub open spec fn op_ok(op: OpCall, e: SyntaxNode) -> bool {
    &&& op.operation@ == op_name(e)
    &&& op.full_range == e.range
    &&& match (op.table_name, op_table(e)) {
        (Some(t), Some(p)) => t.name@ == p.0 && t.range == p.1,
        (None, None) => true,
        _ => false,
    }
    &&& match (op.column_name, op_column(e)) {
        (Some(c), Some(p)) => c.name@ == p.0 && c.range == p.1,
        (None, None) => true,
        _ => false,
    }
    &&& op.null_constraint_name_range == op_null_name(e)
}

pub(crate) fn positional_args(args: &SyntaxNode) -> (r: Vec<&SyntaxNode>)
    ensures
        r@.map_values(|c: &SyntaxNode| *c) == positional(*args),
{
    let kids = named_children(args);
    let ghost ks = kids@.map_values(|c: &SyntaxNode| *c);
    let ghost p = |n: SyntaxNode| !is_kind(n, "keyword_argument"@);
    let mut out: Vec<&SyntaxNode> = Vec::new();
    let mut i: usize = 0;
    while i < kids.len()
        invariant
            i <= kids@.len(),
            ks == kids@.map_values(|c: &SyntaxNode| *c),
            ks == named_kids(*args),
            p == (|n: SyntaxNode| !is_kind(n, "keyword_argument"@)),
            out@.map_values(|c: &SyntaxNode| *c) == ks.take(i as int).filter(p),
        decreases kids@.len() - i,
    {
        proof {
            assert(ks[i as int] == *kids@[i as int]);
            assert(ks.take(i + 1) =~= ks.take(i as int).push(ks[i as int]));
            ks.take(i as int).lemma_filter_push(ks[i as int], p);
        }
        let ghost o = out@;
        if !kind_is(kids[i], "keyword_argument") {
            out.push(kids[i]);
            assert(out@.map_values(|c: &SyntaxNode| *c) =~= o.map_values(|c: &SyntaxNode| *c).push(ks[i as int]));
        }
        i = i + 1;
    }
    assert(ks.take(ks.len() as int) =~= ks);
    out
}

fn string_at_exec(ps: &Vec<&SyntaxNode>, i: usize) -> (r: Option<(String, Range)>)
    requires
        (i < ps@.len() && is_kind(*ps@[i as int], "string"@)) ==> string_quotes_ok(ps@[i as int].text@),
    ensures
        match (r, string_at(ps@.map_values(|c: &SyntaxNode| *c), i as int)) {
            (Some(x), Some(p)) => x.0@ == p.0 && x.1 == p.1,
            (None, None) => true,
            _ => false,
        },
{
    let ghost v = ps@.map_values(|c: &SyntaxNode| *c);
    if i < ps.len() {
        assert(v[i as int] == *ps@[i as int]);
        if kind_is(ps[i], "string") {
            return Some((strip_string_quotes(ps[i].text.as_str()), ps[i].range));
        }
    }
    None
}

fn try_parse_op_call(e: &SyntaxNode) -> (r: Option<OpCall>)
    requires
        op_pre(*e),
    ensures
        match r {
            Some(op) => op_applies(*e) && op_ok(op, *e),
            None => !op_applies(*e),
        },
{
    if !kind_is(e, "call") {
        return None;
    }
    let func = child_by_field(e, "function")?;
    let ft = func.text.as_str();
    if !str_starts_with(ft, "op.") {
        return None;
    }
    let cs = crate::text::to_chars(ft);
    proof {
        reveal_strlit("op.");
    }
    let n = cs.len();
    let operation = crate::text::from_chars(crate::text::slice_vec(cs.as_slice(), 3, n).as_slice());
    assert(operation@ =~= op_name(*e));
    let args = child_by_field(e, "arguments")?;
    let ps = positional_args(args);
    let op = operation.as_str();
    let is_constraint = str_eq(op, "drop_constraint") || str_eq(op, "create_foreign_key") || str_eq(
        op,
        "create_unique_constraint",
    ) || str_eq(op, "create_check_constraint");
    let tidx: usize = if is_constraint {
        1
    } else {
        0
    };
    let table = match string_at_exec(&ps, tidx) {
        Some((name, range)) => Some(TableRef { name, range }),
        None => None,
    };
    let column = if str_eq(op, "add_column") || str_eq(op, "drop_column") || str_eq(op, "alter_column") {
        match string_at_exec(&ps, tidx + 1) {
            Some((name, range)) => Some(ColumnRef { name, range }),
            None => None,
        }
    } else {
        None
    };
    let null_name = if is_constraint {
        if ps.len() > 0 {
            assert(ps@.map_values(|c: &SyntaxNode| *c)[0] == *ps@[0]);
            if kind_is(ps[0], "none") {
                Some(ps[0].range)
            } else {
                None
            }
        } else {
            Some(e.range)
        }
    } else {
        None
    };
    Some(OpCall { operation, full_range: e.range, table_name: table, column_name: column, null_constraint_name_range: null_name })
}

/// The operation calls a statement parses have well-formed quotes.
pub open spec fn stmt_ops_pre(c: SyntaxNode) -> bool
    decreases c, 2nat, 0nat,
{
    if is_kind(c, "expression_statement"@) {
        named_kids(c).len() > 0 ==> op_pre(named_kids(c)[0])
    } else if is_kind(c, "with_statement"@) || is_kind(c, "if_statement"@) || is_kind(c, "block"@) || is_kind(
        c,
        "try_statement"@,
    ) {
        body_ops_pre(c)
    } else {
        true
    }
}

pub open spec fn body_ops_pre(n: SyntaxNode) -> bool
    decreases n, 1nat, 0nat,
{
    kids_ops_pre(n, 0)
}

pub open spec fn kids_ops_pre(n: SyntaxNode, i: nat) -> bool
    decreases n, 0nat, n.children@.len() - i,
{
    if i >= n.children@.len() {
        true
    } else {
        let c = n.children@[i as int];
        proof {
            assert(decreases_to!(n => n.children));
            assert(decreases_to!(n.children => n.children@));
            assert(decreases_to!(n.children@ => c));
        }
        (c.named ==> stmt_ops_pre(c)) && kids_ops_pre(n, i + 1)
    }
}

/// Recorded operation calls match the call expressions one for one.
pub open spec fn ops_ok(v: Seq<OpCall>, es: Seq<SyntaxNode>) -> bool {
    v.len() == es.len() && forall|k: int| 0 <= k < v.len() ==> op_ok(#[trigger] v[k], es[k])
}

proof fn lemma_ops_ok_append(a: Seq<OpCall>, ea: Seq<SyntaxNode>, b: Seq<OpCall>, eb: Seq<SyntaxNode>)
    requires
        ops_ok(a, ea),
        ops_ok(b, eb),
    ensures
        ops_ok(a + b, ea + eb),
{
    assert forall|k: int| 0 <= k < (a + b).len() implies op_ok(#[trigger] (a + b)[k], (ea + eb)[k]) by {
        if k < a.len() {
            assert((a + b)[k] == a[k]);
            assert((ea + eb)[k] == ea[k]);
        } else {
            assert((a + b)[k] == b[k - a.len()]);
            assert((ea + eb)[k] == eb[k - a.len()]);
        }
    }
}

fn stmt_op_calls(c: &SyntaxNode) -> (r: Vec<OpCall>)
    requires
        stmt_ops_pre(*c),
    ensures
        ops_ok(r@, stmt_ops(*c)),
    decreases c, 2nat,
{
    let mut out: Vec<OpCall> = Vec::new();
    if kind_is(c, "expression_statement") {
        let kids = named_children(c);
        if kids.len() > 0 {
            assert(kids@.map_values(|x: &SyntaxNode| *x)[0] == *kids@[0]);
            if let Some(op) = try_parse_op_call(kids[0]) {
                out.push(op);
            }
        }
        out
    } else if kind_is(c, "with_statement") || kind_is(c, "if_statement") || kind_is(c, "block") || kind_is(
        c,
        "try_statement",
    ) {
        collect_op_calls(c)
    } else {
        out
    }
}

/// The `op.*` calls in a function body, in order, inner blocks included.
fn collect_op_calls(body: &SyntaxNode) -> (r: Vec<OpCall>)
    requires
        body_ops_pre(*body),
    ensures
        ops_ok(r@, body_ops(*body)),
    decreases body, 1nat,
{
    let mut out: Vec<OpCall> = Vec::new();
    let mut i: usize = 0;
    assert(body_ops(*body) == kids_ops(*body, 0));
    while i < body.children.len()
        invariant
            i <= body.children@.len(),
            kids_ops_pre(*body, i as nat),
            body_ops(*body) == body_ops(*body).take(out@.len() as int) + kids_ops(*body, i as nat),
            ops_ok(out@, body_ops(*body).take(out@.len() as int)),
            out@.len() <= body_ops(*body).len(),
        decreases body.children@.len() - i,
    {
        let c = &body.children[i];
        proof {
            assert(decreases_to!(body => body.children));
            assert(decreases_to!(body.children => body.children@));
            assert(decreases_to!(body.children@ => *c));
        }
        let ghost before = out@;
        let ghost bo = body_ops(*body);
        if c.named {
            let mut more = stmt_op_calls(c);
            let ghost m = more@;
            out.append(&mut more);
            proof {
                let k = before.len() as int;
                assert(bo == bo.take(k) + (stmt_ops(*c) + kids_ops(*body, (i + 1) as nat)));
                assert(bo.take(k + m.len()) =~= bo.take(k) + stmt_ops(*c));
                lemma_ops_ok_append(before, bo.take(k), m, stmt_ops(*c));
                assert(bo =~= bo.take(out@.len() as int) + kids_ops(*body, (i + 1) as nat));
            }
        } else {
            proof {
                assert(kids_ops(*body, i as nat) =~= kids_ops(*body, (i + 1) as nat));
            }
        }
        i = i + 1;
    }
    assert(body_ops(*body).take(out@.len() as int) =~= body_ops(*body));
    out
}

// ── The migration file ───────────────────────────────────────────────────────

/// A parent-revision pointer as values.
pub enum DownV {
    Root,
    Single(Seq<char>),
    Multiple(Seq<Seq<char>>),
}

pub open spec fn string_kids_f() -> spec_fn(SyntaxNode) -> bool {
    |n: SyntaxNode| is_kind(n, "string"@)
}

/// The revisions a tuple lists, unquoted.
pub open spec fn tuple_ids(r: SyntaxNode) -> Seq<Seq<char>> {
    named_kids(r).filter(string_kids_f()).map_values(|n: SyntaxNode| string_unquoted(n.text@))
}

/// `down_revision = None | "id" | ("id1", "id2")`.
pub open spec fn down_of(r: SyntaxNode) -> DownV {
    if is_kind(r, "string"@) {
        DownV::Single(string_unquoted(r.text@))
    } else if is_kind(r, "tuple"@) && tuple_ids(r).len() > 0 {
        DownV::Multiple(tuple_ids(r))
    } else {
        DownV::Root
    }
}

pub open spec fn down_ok(d: DownRevision, v: DownV) -> bool {
    match (d, v) {
        (DownRevision::Root, DownV::Root) => true,
        (DownRevision::Single(x), DownV::Single(y)) => x@ == y,
        (DownRevision::Multiple(xs), DownV::Multiple(ys)) => views(xs@) == ys,
        _ => false,
    }
}

/// What the module-level statements of a migration say.
pub struct MigV {
    pub revision: Option<Seq<char>>,
    pub revision_range: Option<Range>,
    pub down: DownV,
    pub down_range: Option<Range>,
    pub message: Option<Seq<char>>,
    pub ops: Seq<SyntaxNode>,
}

pub open spec fn mig_init() -> MigV {
    MigV { revision: None, revision_range: None, down: DownV::Root, down_range: None, message: None, ops: Seq::empty() }
}

/// The first line of a docstring, trimmed.
pub open spec fn first_line(s: Seq<char>) -> Seq<char> {
    let ls = lines(s);
    trim(if ls.len() > 0 { ls[0] } else { Seq::empty() })
}

/// What one module-level statement adds: the first docstring line as the
/// message, `revision`, `down_revision`, and the operations of `upgrade()`
/// and `downgrade()`.
pub open spec fn mig_step(m: MigV, outer: SyntaxNode) -> MigV {
    let node = unwrap_stmt(outer);
    if is_kind(node, "string"@) && m.message is None {
        let fl = first_line(string_unquoted(node.text@));
        if fl.len() > 0 {
            MigV { message: Some(fl), ..m }
        } else {
            m
        }
    } else if is_kind(node, "assignment"@) {
        let name = field_text(node, "left"@);
        match field_child(node, "right"@) {
            Some(r) => if name == "revision"@ {
                MigV {
                    revision: if is_kind(r, "string"@) { Some(string_unquoted(r.text@)) } else { None },
                    revision_range: Some(r.range),
                    ..m
                }
            } else if name == "down_revision"@ {
                MigV { down_range: Some(r.range), down: down_of(r), ..m }
            } else {
                m
            },
            None => m,
        }
    } else if is_kind(node, "function_definition"@) {
        let f = field_text(node, "name"@);
        if (f == "upgrade"@ || f == "downgrade"@) && field_child(node, "body"@) is Some {
            MigV { ops: m.ops + body_ops(field_child(node, "body"@)->0), ..m }
        } else {
            m
        }
    } else {
        m
    }
}

pub open spec fn mig_fold(kids: Seq<SyntaxNode>) -> MigV
    decreases kids.len(),
{
    if kids.len() == 0 {
        mig_init()
    } else {
        mig_step(mig_fold(kids.drop_last()), kids.last())
    }
}

/// The texts one statement's reading unquotes have well-formed quotes.
pub open spec fn mig_step_pre(m: MigV, outer: SyntaxNode) -> bool {
    let node = unwrap_stmt(outer);
    &&& (is_kind(node, "string"@) && m.message is None) ==> string_quotes_ok(node.text@)
    &&& (is_kind(node, "assignment"@) && field_child(node, "right"@) is Some) ==> {
        let name = field_text(node, "left"@);
        let r = field_child(node, "right"@)->0;
        &&& (name == "revision"@ && is_kind(r, "string"@)) ==> string_quotes_ok(r.text@)
        &&& (name == "down_revision"@ && is_kind(r, "string"@)) ==> string_quotes_ok(r.text@)
        &&& (name == "down_revision"@ && is_kind(r, "tuple"@)) ==> forall|i: int|
            0 <= i < named_kids(r).len() && is_kind(named_kids(r)[i], "string"@) ==> string_quotes_ok(
                #[trigger] named_kids(r)[i].text@,
            )
    }
    &&& (is_kind(node, "function_definition"@) && field_child(node, "body"@) is Some) ==> ({
        let f = field_text(node, "name"@);
        (f == "upgrade"@ || f == "downgrade"@) ==> body_ops_pre(field_child(node, "body"@)->0)
    })
}

pub open spec fn migration_pre(root: SyntaxNode) -> bool {
    let kids = named_kids(root);
    forall|i: int| 0 <= i < kids.len() ==> mig_step_pre(mig_fold(kids.take(i)), #[trigger] kids[i])
}

/// A migration file as recorded.
pub open spec fn migration_ok(mf: MigrationFile, v: MigV) -> bool {
    &&& opt_view(mf.revision) == v.revision
    &&& mf.revision_range == v.revision_range
    &&& down_ok(mf.down_revision, v.down)
    &&& mf.down_revision_range == v.down_range
    &&& opt_view(mf.message) == v.message
    &&& ops_ok(mf.op_calls@, v.ops)
}

proof fn lemma_mig_kinds()
    ensures
        "string"@.len() == 6,
        "tuple"@.len() == 5,
        "assignment"@.len() == 10,
        "function_definition"@.len() == 19,
{
    reveal_strlit("string");
    reveal_strlit("tuple");
    reveal_strlit("assignment");
    reveal_strlit("function_definition");
}

fn extract_down_revision(r: &SyntaxNode) -> (d: DownRevision)
    requires
        is_kind(*r, "string"@) ==> string_quotes_ok(r.text@),
        is_kind(*r, "tuple"@) ==> forall|i: int|
            0 <= i < named_kids(*r).len() && is_kind(named_kids(*r)[i], "string"@) ==> string_quotes_ok(
                #[trigger] named_kids(*r)[i].text@,
            ),
    ensures
        down_ok(d, down_of(*r)),
{
    proof {
        lemma_mig_kinds();
    }
    if kind_is(r, "string") {
        return DownRevision::Single(strip_string_quotes(r.text.as_str()));
    }
    if !kind_is(r, "tuple") {
        return DownRevision::Root;
    }
    let kids = named_children(r);
    let ghost ks = kids@.map_values(|c: &SyntaxNode| *c);
    let ghost p = string_kids_f();
    let mut ids: Vec<String> = Vec::new();
    let mut i: usize = 0;
    while i < kids.len()
        invariant
            i <= kids@.len(),
            ks == kids@.map_values(|c: &SyntaxNode| *c),
            ks == named_kids(*r),
            p == string_kids_f(),
            is_kind(*r, "tuple"@),
            forall|j: int|
                0 <= j < named_kids(*r).len() && is_kind(named_kids(*r)[j], "string"@) ==> string_quotes_ok(
                    #[trigger] named_kids(*r)[j].text@,
                ),
            views(ids@) == ks.take(i as int).filter(p).map_values(|n: SyntaxNode| string_unquoted(n.text@)),
        decreases kids@.len() - i,
    {
        proof {
            assert(ks[i as int] == *kids@[i as int]);
            assert(ks.take(i + 1) =~= ks.take(i as int).push(ks[i as int]));
            ks.take(i as int).lemma_filter_push(ks[i as int], p);
        }
        let ghost o = views(ids@);
        let ghost f = ks.take(i as int).filter(p);
        if kind_is(kids[i], "string") {
            ids.push(strip_string_quotes(kids[i].text.as_str()));
            proof {
                assert(views(ids@) =~= o.push(string_unquoted(ks[i as int].text@)));
                assert(f.push(ks[i as int]).map_values(|n: SyntaxNode| string_unquoted(n.text@)) =~= f.map_values(
                    |n: SyntaxNode| string_unquoted(n.text@),
                ).push(string_unquoted(ks[i as int].text@)));
            }
        }
        i = i + 1;
    }
    assert(ks.take(ks.len() as int) =~= ks);
    if ids.len() == 0 {
        DownRevision::Root
    } else {
        DownRevision::Multiple(ids)
    }
}

fn first_line_exec(s: &str) -> (r: String)
    ensures
        r@ == first_line(s@),
{
    let ls = crate::text::lines_exec(s);
    let first: Vec<char> = if ls.len() > 0 {
        crate::text::slice_vec(ls[0].as_slice(), 0, ls[0].len())
    } else {
        Vec::new()
    };
    proof {
        if ls@.len() > 0 {
            assert(ls@[0]@.subrange(0, ls@[0]@.len() as int) =~= ls@[0]@);
        }
    }
    crate::text::from_chars(crate::text::trim_exec(first.as_slice()).as_slice())
}

/// Exec migration fields agree with the statement facts.
pub open spec fn mig_match(
    revision: Option<String>,
    revision_range: Option<Range>,
    down: DownRevision,
    down_range: Option<Range>,
    message: Option<String>,
    ops: Seq<OpCall>,
    v: MigV,
) -> bool {
    &&& opt_view(revision) == v.revision
    &&& revision_range == v.revision_range
    &&& down_ok(down, v.down)
    &&& down_range == v.down_range
    &&& opt_view(message) == v.message
    &&& ops_ok(ops, v.ops)
}

fn mig_stmt(
    outer: &SyntaxNode,
    revision: &mut Option<String>,
    revision_range: &mut Option<Range>,
    down: &mut DownRevision,
    down_range: &mut Option<Range>,
    message: &mut Option<String>,
    ops: &mut Vec<OpCall>,
    Ghost(v): Ghost<MigV>,
)
    requires
        mig_step_pre(v, *outer),
        mig_match(*old(revision), *old(revision_range), *old(down), *old(down_range), *old(message), old(ops)@, v),
    ensures
        mig_match(*final(revision), *final(revision_range), *final(down), *final(down_range), *final(message), final(ops)@, mig_step(v, *outer)),
{
    proof {
        lemma_mig_kinds();
    }
    let node = crate::extract::unwrap_expr_stmt(outer);
    if kind_is(node, "string") && message.is_none() {
        let s = strip_string_quotes(node.text.as_str());
        let fl = first_line_exec(s.as_str());
        if !fl.as_str().is_empty() {
            *message = Some(fl);
        }
    } else if kind_is(node, "assignment") {
        let name = crate::extract::field_text_exec(node, "left");
        if let Some(r) = child_by_field(node, "right") {
            if str_eq(name, "revision") {
                *revision = if kind_is(r, "string") {
                    Some(strip_string_quotes(r.text.as_str()))
                } else {
                    None
                };
                *revision_range = Some(r.range);
            } else if str_eq(name, "down_revision") {
                *down_range = Some(r.range);
                *down = extract_down_revision(r);
            }
        }
    } else if kind_is(node, "function_definition") {
        let f = crate::extract::field_text_exec(node, "name");
        if str_eq(f, "upgrade") || str_eq(f, "downgrade") {
            if let Some(body) = child_by_field(node, "body") {
                let ghost before = ops@;
                let mut more = collect_op_calls(body);
                let ghost m = more@;
                ops.append(&mut more);
                proof {
                    lemma_ops_ok_append(before, v.ops, m, body_ops(*body));
                }
            }
        }
    }
}

/// The facts of a migration module, if it declares a revision or makes an
/// operation call.
pub fn extract_migration(root: &SyntaxNode) -> (r: Option<MigrationFile>)
    requires
        migration_pre(*root),
    ensures
        ({
            let v = mig_fold(named_kids(*root));
            match r {
                Some(mf) => !(v.revision is None && v.ops.len() == 0) && migration_ok(mf, v),
                None => v.revision is None && v.ops.len() == 0,
            }
        }),
{
    let kids = named_children(root);
    let ghost ks = kids@.map_values(|c: &SyntaxNode| *c);
    let mut revision: Option<String> = None;
    let mut revision_range: Option<Range> = None;
    let mut down = DownRevision::Root;
    let mut down_range: Option<Range> = None;
    let mut message: Option<String> = None;
    let mut ops: Vec<OpCall> = Vec::new();
    let mut i: usize = 0;
    while i < kids.len()
        invariant
            i <= kids@.len(),
            ks == kids@.map_values(|c: &SyntaxNode| *c),
            ks == named_kids(*root),
            migration_pre(*root),
            mig_match(revision, revision_range, down, down_range, message, ops@, mig_fold(ks.take(i as int))),
        decreases kids@.len() - i,
    {
        proof {
            assert(ks[i as int] == *kids@[i as int]);
            assert(ks.take(i + 1).drop_last() =~= ks.take(i as int));
        }
        mig_stmt(
            kids[i],
            &mut revision,
            &mut revision_range,
            &mut down,
            &mut down_range,
            &mut message,
            &mut ops,
            Ghost(mig_fold(ks.take(i as int))),
        );
        i = i + 1;
    }
    assert(ks.take(ks.len() as int) =~= ks);
    if revision.is_none() && ops.len() == 0 {
        return None;
    }
    Some(MigrationFile {
        revision,
        down_revision: down,
        message,
        revision_range,
        down_revision_range: down_range,
        op_calls: ops,
    })
}

} // verus!
