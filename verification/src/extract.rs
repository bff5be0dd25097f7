//! Reading a parsed model file: its imports into a symbol table, its
//! declarative bases, and each ORM model class with its columns,
//! relationships and table arguments.
use vstd::prelude::*;

use crate::extractor::{Binding, SymV, SymbolTable};
use crate::strmap::StrMap;
use crate::syntax::{
    child_by_field, children_by_field, field_child, field_kids, has_field, is_kind, kind_is,
    named_children, named_kids, SyntaxNode,
};
use crate::extractor::{
    extract_model_from_mapped_type, infer_nullable, inner_type, mapped_body, mapped_type_ok,
    model_of_type, nullable_of, parse_mapped_type, resolve_spec, string_quotes_ok,
    string_unquoted, strip_string_quotes,
};
use crate::text::{find, find_exec, lemma_find_props, slice_vec, str_eq, to_chars, to_owned};
use crate::text::trim;
use crate::text::{rfind, rfind_exec, starts_with, str_starts_with};
use crate::extractor::BaseRegistry;
use crate::types::{
    views, Column, ColumnArgs, ForeignKeyRef, MappedType, Model, Range, Relationship, TableArg,
    TypeV,
};

verus! {

// ── Imports ──────────────────────────────────────────────────────────────────

/// A symbol table with one more module alias.
pub open spec fn with_alias(sv: SymV, local: Seq<char>, module: Seq<char>) -> SymV {
    SymV { aliases: sv.aliases.insert(local, module), ..sv }
}

/// A symbol table with one more imported name.
pub open spec fn with_binding(sv: SymV, local: Seq<char>, module: Seq<char>, name: Seq<char>) -> SymV {
    SymV { bindings: sv.bindings.insert(local, (module, name)), ..sv }
}

/// What one name of `import a.b` or `import a.b as x` adds.
pub open spec fn import_name(sv: SymV, c: SyntaxNode) -> SymV {
    if is_kind(c, "dotted_name"@) {
        let name = c.text@;
        let sv1 = with_alias(sv, name, name);
        let dot = find(name, "."@);
        if dot >= 0 && !sv1.aliases.contains_key(name.take(dot)) {
            with_alias(sv1, name.take(dot), name.take(dot))
        } else {
            sv1
        }
    } else if is_kind(c, "aliased_import"@) {
        match (field_child(c, "name"@), field_child(c, "alias"@)) {
            (Some(n), Some(a)) => with_alias(sv, a.text@, n.text@),
            _ => sv,
        }
    } else {
        sv
    }
}

/// The names of `import ...`, each in turn.
pub open spec fn import_names(sv: SymV, kids: Seq<SyntaxNode>) -> SymV
    decreases kids.len(),
{
    if kids.len() == 0 {
        sv
    } else {
        import_name(import_names(sv, kids.drop_last()), kids.last())
    }
}

/// What one name of `from m import a` or `from m import a as b` adds.
pub open spec fn from_name(sv: SymV, module: Seq<char>, c: SyntaxNode) -> SymV {
    if is_kind(c, "aliased_import"@) {
        match (field_child(c, "name"@), field_child(c, "alias"@)) {
            (Some(n), Some(a)) => with_binding(sv, a.text@, module, n.text@),
            _ => sv,
        }
    } else if is_kind(c, "dotted_name"@) {
        with_binding(sv, c.text@, module, c.text@)
    } else {
        sv
    }
}

pub open spec fn from_names(sv: SymV, module: Seq<char>, kids: Seq<SyntaxNode>) -> SymV
    decreases kids.len(),
{
    if kids.len() == 0 {
        sv
    } else {
        from_name(from_names(sv, module, kids.drop_last()), module, kids.last())
    }
}

/// Whether some named child is a `*`.
pub open spec fn has_wildcard(n: SyntaxNode) -> bool {
    exists|i: int| 0 <= i < named_kids(n).len() && is_kind(#[trigger] named_kids(n)[i], "wildcard_import"@)
}

/// What a `from m import ...` statement adds: a star import, or its names.
pub open spec fn from_import(sv: SymV, n: SyntaxNode) -> SymV {
    match field_child(n, "module_name"@) {
        None => sv,
        Some(mn) => if has_wildcard(n) {
            SymV { stars: sv.stars.push(mn.text@), ..sv }
        } else {
            from_names(sv, mn.text@, field_kids(n, "name"@))
        },
    }
}

/// The imports of a statement, looking inside modules, blocks and `if`s
/// (so `if TYPE_CHECKING:` imports count).
pub open spec fn walk_imports(sv: SymV, n: SyntaxNode) -> SymV
    decreases n, 1nat, 0nat,
{
    if is_kind(n, "import_statement"@) {
        import_names(sv, field_kids(n, "name"@))
    } else if is_kind(n, "import_from_statement"@) {
        from_import(sv, n)
    } else if is_kind(n, "if_statement"@) || is_kind(n, "block"@) || is_kind(n, "module"@) {
        walk_kids(sv, n, 0)
    } else {
        sv
    }
}

/// The imports of the named children of `n` from index `i` on.
pub open spec fn walk_kids(sv: SymV, n: SyntaxNode, i: nat) -> SymV
    decreases n, 0nat, n.children@.len() - i,
{
    if i >= n.children@.len() {
        sv
    } else {
        let c = n.children@[i as int];
        proof {
            assert(decreases_to!(n => n.children));
            assert(decreases_to!(n.children => n.children@));
            assert(decreases_to!(n.children@ => c));
        }
        walk_kids(if c.named { walk_imports(sv, c) } else { sv }, n, i + 1)
    }
}

fn add_alias(st: &mut SymbolTable, local: &str, module: &str)
    ensures
        final(st)@ == with_alias(old(st)@, local@, module@),
{
    st.module_aliases.insert(to_owned(local), to_owned(module));
    assert(final(st)@.aliases =~= old(st)@.aliases.insert(local@, module@));
    assert(final(st)@.bindings =~= old(st)@.bindings);
}

fn add_binding(st: &mut SymbolTable, local: &str, module: &str, name: &str)
    ensures
        final(st)@ == with_binding(old(st)@, local@, module@, name@),
{
    st.bindings.insert(to_owned(local), Binding { module: to_owned(module), name: to_owned(name) });
    assert(final(st)@.bindings =~= old(st)@.bindings.insert(local@, (module@, name@)));
    assert(final(st)@.aliases =~= old(st)@.aliases);
}

fn handle_import_name(st: &mut SymbolTable, c: &SyntaxNode)
    ensures
        final(st)@ == import_name(old(st)@, *c),
{
    if kind_is(c, "dotted_name") {
        let name = c.text.as_str();
        add_alias(st, name, name);
        let cs = to_chars(name);
        let dot_s = to_chars(".");
        proof {
            reveal_strlit(".");
        }
        if let Some(dot) = find_exec(cs.as_slice(), dot_s.as_slice()) {
            proof {
                lemma_find_props(cs@, dot_s@);
            }
            let prefix = crate::text::from_chars(slice_vec(cs.as_slice(), 0, dot).as_slice());
            assert(prefix@ =~= name@.take(dot as int));
            if !st.module_aliases.contains_key(prefix.as_str()) {
                add_alias(st, prefix.as_str(), prefix.as_str());
            }
        }
    } else if kind_is(c, "aliased_import") {
        match (child_by_field(c, "name"), child_by_field(c, "alias")) {
            (Some(n), Some(a)) => add_alias(st, a.text.as_str(), n.text.as_str()),
            _ => {},
        }
    }
}

fn handle_from_name(st: &mut SymbolTable, module: &str, c: &SyntaxNode)
    ensures
        final(st)@ == from_name(old(st)@, module@, *c),
{
    if kind_is(c, "aliased_import") {
        match (child_by_field(c, "name"), child_by_field(c, "alias")) {
            (Some(n), Some(a)) => add_binding(st, a.text.as_str(), module, n.text.as_str()),
            _ => {},
        }
    } else if kind_is(c, "dotted_name") {
        add_binding(st, c.text.as_str(), module, c.text.as_str());
    }
}

fn handle_import(node: &SyntaxNode, st: &mut SymbolTable)
    ensures
        final(st)@ == import_names(old(st)@, field_kids(*node, "name"@)),
{
    let kids = children_by_field(node, "name");
    let ghost ks = kids@.map_values(|c: &SyntaxNode| *c);
    let mut i: usize = 0;
    while i < kids.len()
        invariant
            i <= kids@.len(),
            ks == kids@.map_values(|c: &SyntaxNode| *c),
            ks == field_kids(*node, "name"@),
            st@ == import_names(old(st)@, ks.take(i as int)),
        decreases kids@.len() - i,
    {
        proof {
            assert(ks.take(i + 1).drop_last() =~= ks.take(i as int));
            assert(ks[i as int] == *kids@[i as int]);
        }
        handle_import_name(st, kids[i]);
        i = i + 1;
    }
    assert(ks.take(ks.len() as int) =~= ks);
}

fn has_wildcard_exec(node: &SyntaxNode) -> (r: bool)
    ensures
        r == has_wildcard(*node),
{
    let kids = named_children(node);
    let ghost ks = kids@.map_values(|c: &SyntaxNode| *c);
    let mut i: usize = 0;
    while i < kids.len()
        invariant
            i <= kids@.len(),
            ks == kids@.map_values(|c: &SyntaxNode| *c),
            ks == named_kids(*node),
            forall|j: int| 0 <= j < i ==> !is_kind(#[trigger] ks[j], "wildcard_import"@),
        decreases kids@.len() - i,
    {
        assert(ks[i as int] == *kids@[i as int]);
        if kind_is(kids[i], "wildcard_import") {
            return true;
        }
        i = i + 1;
    }
    false
}

fn handle_from_import(node: &SyntaxNode, st: &mut SymbolTable)
    ensures
        final(st)@ == from_import(old(st)@, *node),
{
    let module = match child_by_field(node, "module_name") {
        Some(mn) => mn.text.as_str(),
        None => {
            return;
        },
    };
    if has_wildcard_exec(node) {
        st.star_imports.push(to_owned(module));
        assert(final(st)@.stars =~= old(st)@.stars.push(module@));
        assert(final(st)@.bindings =~= old(st)@.bindings);
        assert(final(st)@.aliases =~= old(st)@.aliases);
        return;
    }
    let kids = children_by_field(node, "name");
    let ghost ks = kids@.map_values(|c: &SyntaxNode| *c);
    let mut i: usize = 0;
    while i < kids.len()
        invariant
            i <= kids@.len(),
            ks == kids@.map_values(|c: &SyntaxNode| *c),
            ks == field_kids(*node, "name"@),
            st@ == from_names(old(st)@, module@, ks.take(i as int)),
        decreases kids@.len() - i,
    {
        proof {
            assert(ks.take(i + 1).drop_last() =~= ks.take(i as int));
            assert(ks[i as int] == *kids@[i as int]);
        }
        handle_from_name(st, module, kids[i]);
        i = i + 1;
    }
    assert(ks.take(ks.len() as int) =~= ks);
}

fn walk_for_imports(node: &SyntaxNode, st: &mut SymbolTable)
    ensures
        final(st)@ == walk_imports(old(st)@, *node),
    decreases node, 1nat,
{
    if kind_is(node, "import_statement") {
        handle_import(node, st);
    } else if kind_is(node, "import_from_statement") {
        handle_from_import(node, st);
    } else if kind_is(node, "if_statement") || kind_is(node, "block") || kind_is(node, "module") {
        walk_children(node, st);
    }
}

fn walk_children(node: &SyntaxNode, st: &mut SymbolTable)
    ensures
        final(st)@ == walk_kids(old(st)@, *node, 0),
    decreases node, 0nat,
{
    let mut i: usize = 0;
    while i < node.children.len()
        invariant
            i <= node.children@.len(),
            walk_kids(old(st)@, *node, 0) == walk_kids(st@, *node, i as nat),
        decreases node.children@.len() - i,
    {
        let c = &node.children[i];
        proof {
            assert(decreases_to!(node => node.children));
            assert(decreases_to!(node.children => node.children@));
            assert(decreases_to!(node.children@ => *c));
        }
        if c.named {
            walk_for_imports(c, st);
        }
        i = i + 1;
    }
}

/// The symbol table of a module: every import it makes, in order.
pub fn build_symbol_table(root: &SyntaxNode) -> (st: SymbolTable)
    ensures
        st@ == walk_imports(SymbolTable::empty_view(), *root),
{
    let mut st = SymbolTable::new();
    assert(st@.bindings =~= Map::empty());
    assert(st@.aliases =~= Map::empty());
    assert(st@.stars =~= Seq::empty());
    walk_for_imports(root, &mut st);
    st
}

// ── What names resolve to ────────────────────────────────────────────────────

pub open spec fn sv_relationship(sv: SymV, t: Seq<char>) -> bool {
    resolve_spec(sv, t) == Some("sqlalchemy.orm.relationship"@) || resolve_spec(sv, t) == Some(
        "sqlalchemy.orm.relation"@,
    ) || resolve_spec(sv, t) == Some("sqlalchemy.relationship"@)
}

pub open spec fn sv_mapped_column(sv: SymV, t: Seq<char>) -> bool {
    resolve_spec(sv, t) == Some("sqlalchemy.orm.mapped_column"@) || resolve_spec(sv, t) == Some(
        "sqlalchemy.mapped_column"@,
    )
}

pub open spec fn sv_foreign_key(sv: SymV, t: Seq<char>) -> bool {
    resolve_spec(sv, t) == Some("sqlalchemy.ForeignKey"@) || resolve_spec(sv, t) == Some(
        "sqlalchemy.orm.ForeignKey"@,
    ) || resolve_spec(sv, t) == Some("sqlalchemy.sql.schema.ForeignKey"@)
}

pub open spec fn sv_abstract_base(sv: SymV, t: Seq<char>) -> bool {
    resolve_spec(sv, t) == Some("sqlalchemy.orm.DeclarativeBase"@) || resolve_spec(sv, t) == Some(
        "sqlalchemy.orm.DeclarativeBaseNoMeta"@,
    ) || resolve_spec(sv, t) == Some("sqlalchemy.orm.MappedAsDataclass"@) || resolve_spec(sv, t)
        == Some("sqlalchemy.ext.declarative.DeclarativeBase"@)
}

// ── Classes ──────────────────────────────────────────────────────────────────

/// An `expression_statement` stands for its first named child.
pub open spec fn unwrap_stmt(n: SyntaxNode) -> SyntaxNode {
    if is_kind(n, "expression_statement"@) && named_kids(n).len() > 0 {
        named_kids(n)[0]
    } else {
        n
    }
}

pub(crate) fn unwrap_expr_stmt(n: &SyntaxNode) -> (r: &SyntaxNode)
    ensures
        *r == unwrap_stmt(*n),
{
    if kind_is(n, "expression_statement") {
        let kids = named_children(n);
        if kids.len() > 0 {
            assert(kids@.map_values(|c: &SyntaxNode| *c)[0] == *kids@[0]);
            return kids[0];
        }
    }
    n
}

/// The base-class expressions of a class, in order.
pub open spec fn super_kids(class: SyntaxNode) -> Seq<SyntaxNode> {
    match field_child(class, "superclasses"@) {
        Some(a) => named_kids(a),
        None => Seq::empty(),
    }
}

/// The texts of a class's bases.
pub open spec fn base_texts(class: SyntaxNode) -> Seq<Seq<char>> {
    super_kids(class).map_values(|n: SyntaxNode| n.text@)
}

fn super_children(class: &SyntaxNode) -> (r: Vec<&SyntaxNode>)
    ensures
        r@.map_values(|c: &SyntaxNode| *c) == super_kids(*class),
{
    match child_by_field(class, "superclasses") {
        Some(a) => named_children(a),
        None => {
            let v: Vec<&SyntaxNode> = Vec::new();
            assert(v@.map_values(|c: &SyntaxNode| *c) =~= Seq::<SyntaxNode>::empty());
            v
        },
    }
}

/// The base names of a class, as written.
pub fn extract_base_names(class: &SyntaxNode) -> (r: Vec<String>)
    ensures
        views(r@) == base_texts(*class),
{
    let kids = super_children(class);
    let ghost ks = kids@.map_values(|c: &SyntaxNode| *c);
    let mut out: Vec<String> = Vec::new();
    let mut i: usize = 0;
    while i < kids.len()
        invariant
            i <= kids@.len(),
            ks == kids@.map_values(|c: &SyntaxNode| *c),
            ks == super_kids(*class),
            views(out@) == ks.take(i as int).map_values(|n: SyntaxNode| n.text@),
        decreases kids@.len() - i,
    {
        let ghost o = views(out@);
        out.push(kids[i].text.clone());
        proof {
            assert(ks[i as int] == *kids@[i as int]);
            assert(views(out@) =~= o.push(ks[i as int].text@));
            assert(ks.take(i + 1).map_values(|n: SyntaxNode| n.text@) =~= ks.take(i as int).map_values(
                |n: SyntaxNode| n.text@,
            ).push(ks[i as int].text@));
        }
        i = i + 1;
    }
    assert(ks.take(ks.len() as int) =~= ks);
    out
}

/// A class is a declarative base if it directly extends one of SQLAlchemy's
/// abstract bases.
pub open spec fn is_decl_base(class: SyntaxNode, sv: SymV) -> bool {
    exists|i: int| 0 <= i < base_texts(class).len() && sv_abstract_base(sv, #[trigger] base_texts(class)[i])
}

fn class_is_declarative_base(class: &SyntaxNode, sym: &SymbolTable) -> (r: bool)
    ensures
        r == is_decl_base(*class, sym@),
{
    let names = extract_base_names(class);
    let mut i: usize = 0;
    while i < names.len()
        invariant
            i <= names@.len(),
            views(names@) == base_texts(*class),
            forall|j: int| 0 <= j < i ==> !sv_abstract_base(sym@, #[trigger] base_texts(*class)[j]),
        decreases names@.len() - i,
    {
        assert(views(names@)[i as int] == names@[i as int]@);
        if sym.is_sa_abstract_base(names[i].as_str()) {
            return true;
        }
        i = i + 1;
    }
    false
}

/// Whether the class body assigns `__tablename__`.
pub open spec fn body_has_tablename(class: SyntaxNode) -> bool {
    match field_child(class, "body"@) {
        None => false,
        Some(b) => exists|i: int|
            0 <= i < named_kids(b).len() && {
                let s = unwrap_stmt(#[trigger] named_kids(b)[i]);
                is_kind(s, "assignment"@) && field_child(s, "left"@) is Some && field_child(
                    s,
                    "left"@,
                )->0.text@ == "__tablename__"@
            },
    }
}

fn class_body_has_tablename(class: &SyntaxNode) -> (r: bool)
    ensures
        r == body_has_tablename(*class),
{
    let body = match child_by_field(class, "body") {
        Some(b) => b,
        None => {
            return false;
        },
    };
    let kids = named_children(body);
    let ghost ks = kids@.map_values(|c: &SyntaxNode| *c);
    let mut i: usize = 0;
    while i < kids.len()
        invariant
            i <= kids@.len(),
            ks == kids@.map_values(|c: &SyntaxNode| *c),
            ks == named_kids(*body),
            field_child(*class, "body"@) == Some(*body),
            forall|j: int|
                0 <= j < i ==> !({
                    let s = unwrap_stmt(#[trigger] ks[j]);
                    is_kind(s, "assignment"@) && field_child(s, "left"@) is Some && field_child(
                        s,
                        "left"@,
                    )->0.text@ == "__tablename__"@
                }),
        decreases kids@.len() - i,
    {
        assert(ks[i as int] == *kids@[i as int]);
        let stmt = unwrap_expr_stmt(kids[i]);
        if kind_is(stmt, "assignment") {
            if let Some(left) = child_by_field(stmt, "left") {
                if str_eq(left.text.as_str(), "__tablename__") {
                    return true;
                }
            }
        }
        i = i + 1;
    }
    false
}

/// A class is a model if it assigns `__tablename__` or extends a registered
/// base.
pub open spec fn is_model_class(class: SyntaxNode, bases: Seq<Seq<char>>) -> bool {
    body_has_tablename(class) || exists|i: int|
        0 <= i < base_texts(class).len() && bases.contains(#[trigger] base_texts(class)[i])
}

fn class_is_model(class: &SyntaxNode, bases: &crate::extractor::BaseRegistry) -> (r: bool)
    ensures
        r == is_model_class(*class, views(bases.base_names@)),
{
    if class_body_has_tablename(class) {
        return true;
    }
    let names = extract_base_names(class);
    let mut i: usize = 0;
    while i < names.len()
        invariant
            i <= names@.len(),
            views(names@) == base_texts(*class),
            forall|j: int| 0 <= j < i ==> !views(bases.base_names@).contains(#[trigger] base_texts(*class)[j]),
        decreases names@.len() - i,
    {
        assert(views(names@)[i as int] == names@[i as int]@);
        if bases.is_base(names[i].as_str()) {
            return true;
        }
        i = i + 1;
    }
    false
}

// ── __tablename__ and __table_args__ ─────────────────────────────────────────

/// The text of the child filling field `f`, or nothing.
pub open spec fn field_text(n: SyntaxNode, f: Seq<char>) -> Seq<char> {
    match field_child(n, f) {
        Some(c) => c.text@,
        None => Seq::empty(),
    }
}

pub(crate) fn field_text_exec<'a>(n: &'a SyntaxNode, f: &str) -> (r: &'a str)
    ensures
        r@ == field_text(*n, f@),
{
    match child_by_field(n, f) {
        Some(c) => c.text.as_str(),
        None => {
            proof {
                reveal_strlit("");
            }
            ""
        },
    }
}

/// Whether a call builds a table constraint or index the extractor records.
pub open spec fn constraint_applies(call: SyntaxNode) -> bool {
    let k = field_text(call, "function"@);
    field_child(call, "function"@) is Some && (k == "UniqueConstraint"@ || k == "Index"@ || k
        == "PrimaryKeyConstraint"@ || k == "CheckConstraint"@) && field_child(call, "arguments"@) is Some
}

pub open spec fn is_string_f() -> spec_fn(SyntaxNode) -> bool {
    |n: SyntaxNode| is_kind(n, "string"@)
}

/// The string arguments of a constraint call: its columns.
pub open spec fn constraint_strings(call: SyntaxNode) -> Seq<SyntaxNode> {
    named_kids(field_child(call, "arguments"@)->0).filter(is_string_f())
}

/// The `name=` a list of arguments gives (the last one wins).
pub open spec fn name_kwarg(kids: Seq<SyntaxNode>) -> Option<Seq<char>>
    decreases kids.len(),
{
    if kids.len() == 0 {
        None
    } else {
        let k = kids.last();
        if is_kind(k, "keyword_argument"@) && field_text(k, "name"@) == "name"@ {
            Some(string_unquoted(field_text(k, "value"@)))
        } else {
            name_kwarg(kids.drop_last())
        }
    }
}

/// The texts the constraint parser strips of quotes have well-formed quotes.
pub open spec fn constraint_pre(call: SyntaxNode) -> bool {
    constraint_applies(call) ==> {
        let kids = named_kids(field_child(call, "arguments"@)->0);
        &&& forall|i: int| 0 <= i < kids.len() && is_kind(kids[i], "string"@) ==> string_quotes_ok(#[trigger] kids[i].text@)
        &&& forall|i: int|
            0 <= i < kids.len() && is_kind(kids[i], "keyword_argument"@) && field_text(kids[i], "name"@)
                == "name"@ ==> string_quotes_ok(field_text(#[trigger] kids[i], "value"@))
    }
}

pub open spec fn opt_view(o: Option<String>) -> Option<Seq<char>> {
    match o {
        Some(s) => Some(s@),
        None => None,
    }
}

/// A table argument as recorded from a constraint call.
pub open spec fn table_arg_ok(ta: TableArg, call: SyntaxNode) -> bool {
    let strs = constraint_strings(call);
    &&& ta.kind@ == field_text(call, "function"@)
    &&& views(ta.columns@) == strs.map_values(|n: SyntaxNode| string_unquoted(n.text@))
    &&& ta.column_ranges@ == strs.map_values(|n: SyntaxNode| n.range)
    &&& ta.full_range == call.range
    &&& opt_view(ta.name) == name_kwarg(named_kids(field_child(call, "arguments"@)->0))
}

fn parse_constraint_call(call: &SyntaxNode) -> (r: Option<TableArg>)
    requires
        constraint_pre(*call),
    ensures
        match r {
            Some(ta) => constraint_applies(*call) && table_arg_ok(ta, *call),
            None => !constraint_applies(*call),
        },
{
    let func = child_by_field(call, "function")?;
    let kind = func.text.as_str();
    if !(str_eq(kind, "UniqueConstraint") || str_eq(kind, "Index") || str_eq(kind, "PrimaryKeyConstraint")
        || str_eq(kind, "CheckConstraint")) {
        return None;
    }
    let args = child_by_field(call, "arguments")?;
    let kids = named_children(args);
    let ghost ks = kids@.map_values(|c: &SyntaxNode| *c);
    let ghost p = is_string_f();
    let mut cols: Vec<String> = Vec::new();
    let mut ranges: Vec<Range> = Vec::new();
    let mut name: Option<String> = None;
    let mut i: usize = 0;
    while i < kids.len()
        invariant
            i <= kids@.len(),
            ks == kids@.map_values(|c: &SyntaxNode| *c),
            ks == named_kids(*args),
            field_child(*call, "arguments"@) == Some(*args),
            constraint_applies(*call),
            constraint_pre(*call),
            p == is_string_f(),
            views(cols@) == ks.take(i as int).filter(p).map_values(|n: SyntaxNode| string_unquoted(n.text@)),
            ranges@ == ks.take(i as int).filter(p).map_values(|n: SyntaxNode| n.range),
            opt_view(name) == name_kwarg(ks.take(i as int)),
        decreases kids@.len() - i,
    {
        let arg = kids[i];
        proof {
            assert(ks[i as int] == *arg);
            assert(ks.take(i + 1) =~= ks.take(i as int).push(*arg));
            ks.take(i as int).lemma_filter_push(*arg, p);
            assert(ks.take(i + 1).drop_last() =~= ks.take(i as int));
        }
        let ghost oc = views(cols@);
        let ghost orr = ranges@;
        let ghost f = ks.take(i as int).filter(p);
        if kind_is(arg, "string") {
            let col = strip_string_quotes(arg.text.as_str());
            cols.push(col);
            ranges.push(arg.range);
            proof {
                reveal_strlit("string");
                reveal_strlit("keyword_argument");
                assert("string"@.len() == 6);
                assert("keyword_argument"@.len() == 16);
                assert(!is_kind(*arg, "keyword_argument"@));
                assert(views(cols@) =~= oc.push(string_unquoted(arg.text@)));
                assert(f.push(*arg).map_values(|n: SyntaxNode| string_unquoted(n.text@)) =~= f.map_values(
                    |n: SyntaxNode| string_unquoted(n.text@),
                ).push(string_unquoted(arg.text@)));
                assert(f.push(*arg).map_values(|n: SyntaxNode| n.range) =~= f.map_values(
                    |n: SyntaxNode| n.range,
                ).push(arg.range));
            }
        } else if kind_is(arg, "keyword_argument") {
            let key = field_text_exec(arg, "name");
            if str_eq(key, "name") {
                let val = field_text_exec(arg, "value");
                name = Some(strip_string_quotes(val));
            }
        }
        i = i + 1;
    }
    assert(ks.take(ks.len() as int) =~= ks);
    Some(TableArg { kind: to_owned(kind), columns: cols, column_ranges: ranges, full_range: call.range, name })
}

/// The constraint calls a `__table_args__` value records: each in a tuple,
/// or a lone call.
pub open spec fn table_arg_calls(n: SyntaxNode) -> Seq<SyntaxNode> {
    if is_kind(n, "tuple"@) {
        named_kids(n).filter(|k: SyntaxNode| is_kind(k, "call"@) && constraint_applies(k))
    } else if is_kind(n, "call"@) && constraint_applies(n) {
        seq![n]
    } else {
        Seq::empty()
    }
}

/// Every constraint call that could be parsed has well-formed quotes.
pub open spec fn table_args_pre(n: SyntaxNode) -> bool {
    &&& is_kind(n, "tuple"@) ==> forall|i: int|
        0 <= i < named_kids(n).len() && is_kind(named_kids(n)[i], "call"@) ==> constraint_pre(
            #[trigger] named_kids(n)[i],
        )
    &&& is_kind(n, "call"@) ==> constraint_pre(n)
}

/// The recorded table arguments match the constraint calls one for one.
pub open spec fn table_args_ok(v: Seq<TableArg>, calls: Seq<SyntaxNode>) -> bool {
    v.len() == calls.len() && forall|i: int| 0 <= i < v.len() ==> table_arg_ok(#[trigger] v[i], calls[i])
}

fn parse_table_args(node: &SyntaxNode) -> (r: Vec<TableArg>)
    requires
        table_args_pre(*node),
    ensures
        table_args_ok(r@, table_arg_calls(*node)),
{
    let mut out: Vec<TableArg> = Vec::new();
    if kind_is(node, "tuple") {
        let kids = named_children(node);
        let ghost ks = kids@.map_values(|c: &SyntaxNode| *c);
        let ghost p = |k: SyntaxNode| is_kind(k, "call"@) && constraint_applies(k);
        let mut i: usize = 0;
        while i < kids.len()
            invariant
                i <= kids@.len(),
                ks == kids@.map_values(|c: &SyntaxNode| *c),
                ks == named_kids(*node),
                is_kind(*node, "tuple"@),
                table_args_pre(*node),
                p == (|k: SyntaxNode| is_kind(k, "call"@) && constraint_applies(k)),
                table_args_ok(out@, ks.take(i as int).filter(p)),
            decreases kids@.len() - i,
        {
            let item = kids[i];
            proof {
                assert(ks[i as int] == *item);
                assert(ks.take(i + 1) =~= ks.take(i as int).push(*item));
                ks.take(i as int).lemma_filter_push(*item, p);
            }
            if kind_is(item, "call") {
                if let Some(ta) = parse_constraint_call(item) {
                    out.push(ta);
                }
            }
            i = i + 1;
        }
        assert(ks.take(ks.len() as int) =~= ks);
    } else if kind_is(node, "call") {
        if let Some(ta) = parse_constraint_call(node) {
            out.push(ta);
        }
    }
    out
}

/// `__tablename__ = "..."`: the table name.
pub open spec fn tablename_of(assign: SyntaxNode) -> Option<Seq<char>> {
    if field_child(assign, "left"@) is Some && field_text(assign, "left"@) == "__tablename__"@
        && field_child(assign, "right"@) is Some {
        Some(string_unquoted(field_text(assign, "right"@)))
    } else {
        None
    }
}

fn try_extract_tablename(assign: &SyntaxNode) -> (r: Option<String>)
    requires
        field_text(*assign, "left"@) == "__tablename__"@ ==> string_quotes_ok(field_text(*assign, "right"@)),
    ensures
        opt_view(r) == tablename_of(*assign),
{
    let lhs = child_by_field(assign, "left")?;
    if !str_eq(lhs.text.as_str(), "__tablename__") {
        return None;
    }
    let rhs = child_by_field(assign, "right")?;
    Some(strip_string_quotes(rhs.text.as_str()))
}

/// `__table_args__ = ...`: its value.
pub open spec fn table_args_value(assign: SyntaxNode) -> Option<SyntaxNode> {
    if field_child(assign, "left"@) is Some && field_text(assign, "left"@) == "__table_args__"@ {
        field_child(assign, "right"@)
    } else {
        None
    }
}

fn try_extract_table_args(assign: &SyntaxNode) -> (r: Option<Vec<TableArg>>)
    requires
        table_args_value(*assign) matches Some(v) ==> table_args_pre(v),
    ensures
        match r {
            Some(v) => table_args_value(*assign) is Some && table_args_ok(v@, table_arg_calls(table_args_value(*assign)->0)),
            None => table_args_value(*assign) is None,
        },
{
    let lhs = child_by_field(assign, "left")?;
    if !str_eq(lhs.text.as_str(), "__table_args__") {
        return None;
    }
    let rhs = child_by_field(assign, "right")?;
    Some(parse_table_args(rhs))
}

// ── Relationships ────────────────────────────────────────────────────────────

/// What the arguments of a `relationship(...)` call say.
pub struct RelArgsV {
    pub target: Option<Seq<char>>,
    pub target_range: Option<Range>,
    pub back_populates: Option<Seq<char>>,
    pub back_populates_range: Option<Range>,
    pub lazy: Option<Seq<char>>,
    pub uselist: Option<bool>,
    pub secondary: Option<Seq<char>>,
    pub cascade: Option<Seq<char>>,
    pub cascade_range: Option<Range>,
    pub backref: Option<Seq<char>>,
    pub remote_side: bool,
    pub has_foreign_keys: bool,
    pub viewonly: Option<bool>,
    pub positional: nat,
}

pub open spec fn rel_args_init() -> RelArgsV {
    RelArgsV {
        target: None,
        target_range: None,
        back_populates: None,
        back_populates_range: None,
        lazy: None,
        uselist: None,
        secondary: None,
        cascade: None,
        cascade_range: None,
        backref: None,
        remote_side: false,
        has_foreign_keys: false,
        viewonly: None,
        positional: 0,
    }
}

pub open spec fn range_of_child(n: SyntaxNode, f: Seq<char>) -> Option<Range> {
    match field_child(n, f) {
        Some(c) => Some(c.range),
        None => None,
    }
}

/// What one argument adds: a keyword sets its field; the first positional
/// string or name is the target; every positional counts.
pub open spec fn rel_arg_step(a: RelArgsV, arg: SyntaxNode) -> RelArgsV {
    if is_kind(arg, "keyword_argument"@) {
        let key = field_text(arg, "name"@);
        let val = field_text(arg, "value"@);
        if key == "back_populates"@ {
            RelArgsV {
                back_populates: Some(string_unquoted(val)),
                back_populates_range: range_of_child(arg, "value"@),
                ..a
            }
        } else if key == "lazy"@ {
            RelArgsV { lazy: Some(string_unquoted(val)), ..a }
        } else if key == "uselist"@ {
            RelArgsV { uselist: Some(val == "True"@), ..a }
        } else if key == "secondary"@ {
            RelArgsV { secondary: Some(string_unquoted(val)), ..a }
        } else if key == "cascade"@ {
            RelArgsV {
                cascade: Some(string_unquoted(val)),
                cascade_range: range_of_child(arg, "value"@),
                ..a
            }
        } else if key == "backref"@ {
            RelArgsV { backref: Some(string_unquoted(val)), ..a }
        } else if key == "remote_side"@ {
            RelArgsV { remote_side: true, ..a }
        } else if key == "foreign_keys"@ {
            RelArgsV { has_foreign_keys: true, ..a }
        } else if key == "viewonly"@ {
            RelArgsV { viewonly: Some(val == "True"@), ..a }
        } else {
            a
        }
    } else if is_kind(arg, "string"@) && a.positional == 0 {
        RelArgsV {
            target: Some(string_unquoted(arg.text@)),
            target_range: Some(arg.range),
            positional: a.positional + 1,
            ..a
        }
    } else if is_kind(arg, "identifier"@) && a.positional == 0 {
        RelArgsV { target: Some(arg.text@), target_range: Some(arg.range), positional: a.positional + 1, ..a }
    } else {
        RelArgsV { positional: a.positional + 1, ..a }
    }
}

/// The arguments, each in turn.
pub open spec fn rel_args(kids: Seq<SyntaxNode>) -> RelArgsV
    decreases kids.len(),
{
    if kids.len() == 0 {
        rel_args_init()
    } else {
        rel_arg_step(rel_args(kids.drop_last()), kids.last())
    }
}

/// Whether the argument's quoted texts are well-formed where they get stripped.
pub open spec fn rel_arg_pre(a: RelArgsV, arg: SyntaxNode) -> bool {
    &&& is_kind(arg, "keyword_argument"@) ==> {
        let key = field_text(arg, "name"@);
        (key == "back_populates"@ || key == "lazy"@ || key == "secondary"@ || key == "cascade"@ || key
            == "backref"@) ==> string_quotes_ok(field_text(arg, "value"@))
    }
    &&& (is_kind(arg, "string"@) && a.positional == 0) ==> string_quotes_ok(arg.text@)
}

pub open spec fn rel_args_pre(kids: Seq<SyntaxNode>) -> bool {
    forall|i: int| 0 <= i < kids.len() ==> rel_arg_pre(rel_args(kids.take(i)), #[trigger] kids[i])
}

struct RelArgs {
    target: Option<String>,
    target_range: Option<Range>,
    back_populates: Option<String>,
    back_populates_range: Option<Range>,
    lazy: Option<String>,
    uselist: Option<bool>,
    secondary: Option<String>,
    cascade: Option<String>,
    cascade_range: Option<Range>,
    backref: Option<String>,
    remote_side: bool,
    has_foreign_keys: bool,
    viewonly: Option<bool>,
    positional: usize,
}

impl View for RelArgs {
    type V = RelArgsV;

    closed spec fn view(&self) -> RelArgsV {
        RelArgsV {
            target: opt_view(self.target),
            target_range: self.target_range,
            back_populates: opt_view(self.back_populates),
            back_populates_range: self.back_populates_range,
            lazy: opt_view(self.lazy),
            uselist: self.uselist,
            secondary: opt_view(self.secondary),
            cascade: opt_view(self.cascade),
            cascade_range: self.cascade_range,
            backref: opt_view(self.backref),
            remote_side: self.remote_side,
            has_foreign_keys: self.has_foreign_keys,
            viewonly: self.viewonly,
            positional: self.positional as nat,
        }
    }
}

fn range_of_child_exec(n: &SyntaxNode, f: &str) -> (r: Option<Range>)
    ensures
        r == range_of_child(*n, f@),
{
    match child_by_field(n, f) {
        Some(c) => Some(c.range),
        None => None,
    }
}

fn rel_arg_keyword(a: &mut RelArgs, arg: &SyntaxNode)
    requires
        is_kind(*arg, "keyword_argument"@),
        rel_arg_pre(old(a)@, *arg),
    ensures
        final(a)@ == rel_arg_step(old(a)@, *arg),
{
    let key = field_text_exec(arg, "name");
    let val = field_text_exec(arg, "value");
    if str_eq(key, "back_populates") {
        a.back_populates = Some(strip_string_quotes(val));
        a.back_populates_range = range_of_child_exec(arg, "value");
    } else if str_eq(key, "lazy") {
        a.lazy = Some(strip_string_quotes(val));
    } else if str_eq(key, "uselist") {
        a.uselist = Some(str_eq(val, "True"));
    } else if str_eq(key, "secondary") {
        a.secondary = Some(strip_string_quotes(val));
    } else if str_eq(key, "cascade") {
        a.cascade = Some(strip_string_quotes(val));
        a.cascade_range = range_of_child_exec(arg, "value");
    } else if str_eq(key, "backref") {
        a.backref = Some(strip_string_quotes(val));
    } else if str_eq(key, "remote_side") {
        a.remote_side = true;
    } else if str_eq(key, "foreign_keys") {
        a.has_foreign_keys = true;
    } else if str_eq(key, "viewonly") {
        a.viewonly = Some(str_eq(val, "True"));
    }
}

fn rel_arg_apply(a: &mut RelArgs, arg: &SyntaxNode)
    requires
        rel_arg_pre(old(a)@, *arg),
        old(a).positional < usize::MAX,
    ensures
        final(a)@ == rel_arg_step(old(a)@, *arg),
        final(a).positional <= old(a).positional + 1,
{
    proof {
        lemma_kind_names();
    }
    if kind_is(arg, "keyword_argument") {
        rel_arg_keyword(a, arg);
    } else if kind_is(arg, "string") && a.positional == 0 {
        a.target = Some(strip_string_quotes(arg.text.as_str()));
        a.target_range = Some(arg.range);
        a.positional = a.positional + 1;
    } else if kind_is(arg, "identifier") && a.positional == 0 {
        a.target = Some(arg.text.clone());
        a.target_range = Some(arg.range);
        a.positional = a.positional + 1;
    } else {
        a.positional = a.positional + 1;
    }
}

proof fn lemma_kind_names()
    ensures
        "keyword_argument"@.len() == 16,
        "string"@.len() == 6,
        "identifier"@.len() == 10,
        "call"@.len() == 4,
        "assignment"@.len() == 10,
        "expression_statement"@.len() == 20,
        "class_definition"@.len() == 16,
{
    reveal_strlit("keyword_argument");
    reveal_strlit("string");
    reveal_strlit("identifier");
    reveal_strlit("call");
    reveal_strlit("assignment");
    reveal_strlit("expression_statement");
    reveal_strlit("class_definition");
}

fn parse_relationship_args(args: &SyntaxNode) -> (r: RelArgs)
    requires
        rel_args_pre(named_kids(*args)),
    ensures
        r@ == rel_args(named_kids(*args)),
{
    let kids = named_children(args);
    let ghost ks = kids@.map_values(|c: &SyntaxNode| *c);
    let mut a = RelArgs {
        target: None,
        target_range: None,
        back_populates: None,
        back_populates_range: None,
        lazy: None,
        uselist: None,
        secondary: None,
        cascade: None,
        cascade_range: None,
        backref: None,
        remote_side: false,
        has_foreign_keys: false,
        viewonly: None,
        positional: 0,
    };
    let mut i: usize = 0;
    while i < kids.len()
        invariant
            i <= kids@.len(),
            ks == kids@.map_values(|c: &SyntaxNode| *c),
            ks == named_kids(*args),
            rel_args_pre(ks),
            a@ == rel_args(ks.take(i as int)),
            a.positional <= i,
        decreases kids@.len() - i,
    {
        let arg = kids[i];
        proof {
            assert(ks[i as int] == *arg);
            assert(ks.take(i + 1).drop_last() =~= ks.take(i as int));
            assert(rel_arg_pre(rel_args(ks.take(i as int)), ks[i as int]));
        }
        rel_arg_apply(&mut a, arg);
        i = i + 1;
    }
    assert(ks.take(ks.len() as int) =~= ks);
    a
}

/// Whether an annotated assignment is a relationship: its value is a call of
/// `relationship` (or a name resolving to it) with arguments.
pub open spec fn rel_head(assign: SyntaxNode, sv: SymV) -> bool {
    &&& field_child(assign, "left"@) is Some
    &&& field_child(assign, "right"@) is Some
    &&& is_kind(field_child(assign, "right"@)->0, "call"@)
    &&& field_child(field_child(assign, "right"@)->0, "function"@) is Some
    &&& ({
        let f = field_text(field_child(assign, "right"@)->0, "function"@);
        sv_relationship(sv, f) || f == "relationship"@
    })
    &&& field_child(assign, "type"@) is Some
}

pub open spec fn rel_applies(assign: SyntaxNode, sv: SymV) -> bool {
    rel_head(assign, sv) && field_child(field_child(assign, "right"@)->0, "arguments"@) is Some
}

/// The texts relationship extraction parses are well-formed.
pub open spec fn rel_pre(assign: SyntaxNode, sv: SymV) -> bool {
    rel_head(assign, sv) ==> (mapped_type_ok(field_text(assign, "type"@)) && (rel_applies(assign, sv)
        ==> rel_args_pre(named_kids(field_child(field_child(assign, "right"@)->0, "arguments"@)->0))))
}

/// The type a relationship's annotation denotes.
pub open spec fn ann_type(assign: SyntaxNode, sv: SymV) -> TypeV {
    inner_type(trim(mapped_body(field_text(assign, "type"@))), sv)
}

/// A relationship as recorded from its assignment.
pub open spec fn rel_ok(r: Relationship, assign: SyntaxNode, sv: SymV) -> bool {
    let mt = ann_type(assign, sv);
    let ra = rel_args(named_kids(field_child(field_child(assign, "right"@)->0, "arguments"@)->0));
    &&& r.name@ == field_text(assign, "left"@)
    &&& r.target_model@ == match ra.target {
        Some(t) => t,
        None => match model_of_type(mt) {
            Some(m) => m,
            None => Seq::empty(),
        },
    }
    &&& opt_view(r.explicit_target) == ra.target
    &&& opt_view(r.back_populates) == ra.back_populates
    &&& opt_view(r.lazy) == ra.lazy
    &&& r.uselist == ra.uselist
    &&& opt_view(r.secondary) == ra.secondary
    &&& opt_view(r.cascade) == ra.cascade
    &&& r.is_list == (mt is List)
    &&& opt_view(r.backref) == ra.backref
    &&& r.remote_side == ra.remote_side
    &&& r.has_foreign_keys == ra.has_foreign_keys
    &&& r.viewonly == ra.viewonly
    &&& r.name_range == field_child(assign, "left"@)->0.range
    &&& r.full_range == assign.range
    &&& r.target_range == ra.target_range
    &&& r.back_populates_range == ra.back_populates_range
    &&& r.cascade_range == ra.cascade_range
}

fn try_extract_relationship(assign: &SyntaxNode, sym: &SymbolTable) -> (r: Option<Relationship>)
    requires
        rel_pre(*assign, sym@),
    ensures
        match r {
            Some(rel) => rel_applies(*assign, sym@) && rel_ok(rel, *assign, sym@),
            None => !rel_applies(*assign, sym@),
        },
{
    let name_node = child_by_field(assign, "left")?;
    let rhs = child_by_field(assign, "right")?;
    if !kind_is(rhs, "call") {
        return None;
    }
    let func = child_by_field(rhs, "function")?;
    let func_name = func.text.as_str();
    if !sym.is_relationship(func_name) && !str_eq(func_name, "relationship") {
        return None;
    }
    let annotation = child_by_field(assign, "type")?;
    let mapped_type = parse_mapped_type(annotation.text.as_str(), sym);
    let is_list = match &mapped_type {
        MappedType::List(_) => true,
        _ => false,
    };
    let args_node = child_by_field(rhs, "arguments")?;
    let ra = parse_relationship_args(args_node);
    let target_model = match &ra.target {
        Some(t) => t.clone(),
        None => match extract_model_from_mapped_type(&mapped_type) {
            Some(m) => m,
            None => String::new(),
        },
    };
    Some(Relationship {
        name: name_node.text.clone(),
        target_model,
        explicit_target: match &ra.target {
            Some(t) => Some(t.clone()),
            None => None,
        },
        back_populates: ra.back_populates,
        lazy: ra.lazy,
        uselist: ra.uselist,
        secondary: ra.secondary,
        cascade: ra.cascade,
        is_list,
        backref: ra.backref,
        remote_side: ra.remote_side,
        has_foreign_keys: ra.has_foreign_keys,
        viewonly: ra.viewonly,
        name_range: name_node.range,
        full_range: assign.range,
        target_range: ra.target_range,
        back_populates_range: ra.back_populates_range,
        cascade_range: ra.cascade_range,
    })
}

// ── Columns ──────────────────────────────────────────────────────────────────

/// A foreign key as (table, column, quoted text without quotes, range).
pub type FkV = (Seq<char>, Seq<char>, Seq<char>, Range);

/// What the arguments of `mapped_column(...)` say.
pub struct ColArgsV {
    pub primary_key: bool,
    pub nullable: bool,
    pub unique: bool,
    pub index: bool,
    pub default: Option<Seq<char>>,
    pub server_default: Option<Seq<char>>,
    pub fk: Option<FkV>,
}

pub open spec fn col_args_init() -> ColArgsV {
    ColArgsV {
        primary_key: false,
        nullable: true,
        unique: false,
        index: false,
        default: None,
        server_default: None,
        fk: None,
    }
}

/// `ForeignKey("table.column")`: its first argument split at the last dot.
pub open spec fn fk_of(call: SyntaxNode) -> Option<FkV> {
    match field_child(call, "arguments"@) {
        None => None,
        Some(args) => if named_kids(args).len() == 0 {
            None
        } else {
            let first = named_kids(args)[0];
            let raw = string_unquoted(first.text@);
            let dot = rfind(raw, "."@);
            if dot < 0 {
                None
            } else {
                Some((raw.take(dot), raw.skip(dot + 1), raw, first.range))
            }
        },
    }
}

/// Whether a call is `ForeignKey(...)` (or a name resolving to it).
pub open spec fn is_fk_call(call: SyntaxNode, sv: SymV) -> bool {
    let f = field_text(call, "function"@);
    sv_foreign_key(sv, f) || f == "ForeignKey"@
}

/// What one argument of `mapped_column(...)` adds.
pub open spec fn col_arg_step(a: ColArgsV, arg: SyntaxNode, sv: SymV) -> ColArgsV {
    if is_kind(arg, "keyword_argument"@) {
        let key = field_text(arg, "name"@);
        let val = field_text(arg, "value"@);
        if key == "primary_key"@ {
            ColArgsV { primary_key: val == "True"@, ..a }
        } else if key == "nullable"@ {
            ColArgsV { nullable: val == "True"@, ..a }
        } else if key == "unique"@ {
            ColArgsV { unique: val == "True"@, ..a }
        } else if key == "index"@ {
            ColArgsV { index: val == "True"@, ..a }
        } else if key == "default"@ {
            ColArgsV { default: Some(val), ..a }
        } else if key == "server_default"@ {
            ColArgsV { server_default: Some(val), ..a }
        } else {
            a
        }
    } else if is_kind(arg, "call"@) && is_fk_call(arg, sv) && fk_of(arg) is Some {
        ColArgsV { fk: fk_of(arg), ..a }
    } else {
        a
    }
}

pub open spec fn col_args_fold(kids: Seq<SyntaxNode>, sv: SymV) -> ColArgsV
    decreases kids.len(),
{
    if kids.len() == 0 {
        col_args_init()
    } else {
        col_arg_step(col_args_fold(kids.drop_last(), sv), kids.last(), sv)
    }
}

/// The foreign-key argument's first argument has well-formed quotes.
pub open spec fn fk_pre(call: SyntaxNode) -> bool {
    match field_child(call, "arguments"@) {
        Some(args) => named_kids(args).len() > 0 ==> string_quotes_ok(named_kids(args)[0].text@),
        None => true,
    }
}

pub open spec fn col_args_pre(kids: Seq<SyntaxNode>, sv: SymV) -> bool {
    forall|i: int|
        0 <= i < kids.len() && is_kind(kids[i], "call"@) && is_fk_call(kids[i], sv) ==> fk_pre(#[trigger] kids[i])
}

/// The `mapped_column(...)` call a column's value is, with its arguments.
pub open spec fn mapped_column_args(assign: SyntaxNode, sv: SymV) -> Option<SyntaxNode> {
    match field_child(assign, "right"@) {
        Some(rhs) => if is_kind(rhs, "call"@) && ({
            let f = field_text(rhs, "function"@);
            sv_mapped_column(sv, f) || f == "mapped_column"@
        }) {
            field_child(rhs, "arguments"@)
        } else {
            None
        },
        None => None,
    }
}

/// The argument facts of a column assignment.
pub open spec fn col_args(assign: SyntaxNode, sv: SymV) -> ColArgsV {
    match mapped_column_args(assign, sv) {
        Some(a) => col_args_fold(named_kids(a), sv),
        None => col_args_init(),
    }
}

/// Whether an annotated assignment is a column: a name not starting with `__`.
pub open spec fn col_applies(assign: SyntaxNode) -> bool {
    field_child(assign, "left"@) is Some && !starts_with(field_text(assign, "left"@), "__"@)
        && field_child(assign, "type"@) is Some
}

pub open spec fn col_pre(assign: SyntaxNode, sv: SymV) -> bool {
    col_applies(assign) ==> (mapped_type_ok(field_text(assign, "type"@)) && (mapped_column_args(
        assign,
        sv,
    ) matches Some(a) ==> col_args_pre(named_kids(a), sv)))
}

/// A column as recorded from its assignment.
pub open spec fn col_ok(c: Column, assign: SyntaxNode, sv: SymV) -> bool {
    let mt = ann_type(assign, sv);
    let ca = col_args(assign, sv);
    &&& c.name@ == field_text(assign, "left"@)
    &&& c.key is None
    &&& c.mapped_type@ == mt
    &&& c.args.primary_key == ca.primary_key
    &&& c.args.nullable == nullable_of(mt, ca.nullable)
    &&& !c.args.explicit_nullable_false
    &&& !c.args.explicit_nullable_true
    &&& c.args.unique == ca.unique
    &&& c.args.index == ca.index
    &&& opt_view(c.args.default) == ca.default
    &&& opt_view(c.args.server_default) == ca.server_default
    &&& match (c.foreign_key, ca.fk) {
        (Some(f), Some(v)) => f.table@ == v.0 && f.column@ == v.1 && f.raw_text@ == v.2 && f.range == v.3,
        (None, None) => true,
        _ => false,
    }
    &&& c.doc is None
    &&& c.name_range == field_child(assign, "left"@)->0.range
    &&& c.full_range == assign.range
}

fn parse_foreign_key(call: &SyntaxNode) -> (r: Option<ForeignKeyRef>)
    requires
        fk_pre(*call),
    ensures
        match (r, fk_of(*call)) {
            (Some(f), Some(v)) => f.table@ == v.0 && f.column@ == v.1 && f.raw_text@ == v.2 && f.range == v.3,
            (None, None) => true,
            _ => false,
        },
{
    let args = child_by_field(call, "arguments")?;
    let kids = named_children(args);
    if kids.len() == 0 {
        return None;
    }
    let first = kids[0];
    assert(kids@.map_values(|c: &SyntaxNode| *c)[0] == *first);
    let raw = strip_string_quotes(first.text.as_str());
    let cs = to_chars(raw.as_str());
    let dot_s = to_chars(".");
    proof {
        reveal_strlit(".");
    }
    let dot = rfind_exec(cs.as_slice(), dot_s.as_slice())?;
    proof {
        crate::text::lemma_last_upto_props(cs@, dot_s@, cs@.len() - 1);
    }
    let n = cs.len();
    let table = crate::text::from_chars(slice_vec(cs.as_slice(), 0, dot).as_slice());
    let column = crate::text::from_chars(slice_vec(cs.as_slice(), dot + 1, n).as_slice());
    assert(table@ =~= raw@.take(dot as int));
    assert(column@ =~= raw@.skip(dot + 1));
    Some(ForeignKeyRef { table, column, raw_text: raw, range: first.range })
}

/// Exec column arguments and foreign key agree with the argument facts.
pub open spec fn cargs_match(ca: ColumnArgs, fk: Option<ForeignKeyRef>, v: ColArgsV) -> bool {
    &&& ca.primary_key == v.primary_key
    &&& ca.nullable == v.nullable
    &&& ca.unique == v.unique
    &&& ca.index == v.index
    &&& opt_view(ca.default) == v.default
    &&& opt_view(ca.server_default) == v.server_default
    &&& !ca.explicit_nullable_false
    &&& !ca.explicit_nullable_true
    &&& match (fk, v.fk) {
        (Some(f), Some(w)) => f.table@ == w.0 && f.column@ == w.1 && f.raw_text@ == w.2 && f.range == w.3,
        (None, None) => true,
        _ => false,
    }
}

fn col_arg_apply(ca: &mut ColumnArgs, fk: &mut Option<ForeignKeyRef>, arg: &SyntaxNode, sym: &SymbolTable, Ghost(v): Ghost<ColArgsV>)
    requires
        cargs_match(*old(ca), *old(fk), v),
        is_kind(*arg, "call"@) && is_fk_call(*arg, sym@) ==> fk_pre(*arg),
    ensures
        cargs_match(*final(ca), *final(fk), col_arg_step(v, *arg, sym@)),
{
    proof {
        lemma_kind_names();
    }
    if kind_is(arg, "keyword_argument") {
        let key = field_text_exec(arg, "name");
        let val = field_text_exec(arg, "value");
        if str_eq(key, "primary_key") {
            ca.primary_key = str_eq(val, "True");
        } else if str_eq(key, "nullable") {
            ca.nullable = str_eq(val, "True");
        } else if str_eq(key, "unique") {
            ca.unique = str_eq(val, "True");
        } else if str_eq(key, "index") {
            ca.index = str_eq(val, "True");
        } else if str_eq(key, "default") {
            ca.default = Some(to_owned(val));
        } else if str_eq(key, "server_default") {
            ca.server_default = Some(to_owned(val));
        }
    } else if kind_is(arg, "call") {
        let fname = field_text_exec(arg, "function");
        if sym.is_foreign_key(fname) || str_eq(fname, "ForeignKey") {
            if let Some(f) = parse_foreign_key(arg) {
                *fk = Some(f);
            }
        }
    }
}

fn parse_mapped_column_args(args: &SyntaxNode, sym: &SymbolTable) -> (r: (ColumnArgs, Option<ForeignKeyRef>))
    requires
        col_args_pre(named_kids(*args), sym@),
    ensures
        cargs_match(r.0, r.1, col_args_fold(named_kids(*args), sym@)),
{
    let kids = named_children(args);
    let ghost ks = kids@.map_values(|c: &SyntaxNode| *c);
    let mut ca = ColumnArgs::default();
    let mut fk: Option<ForeignKeyRef> = None;
    let mut i: usize = 0;
    while i < kids.len()
        invariant
            i <= kids@.len(),
            ks == kids@.map_values(|c: &SyntaxNode| *c),
            ks == named_kids(*args),
            col_args_pre(ks, sym@),
            cargs_match(ca, fk, col_args_fold(ks.take(i as int), sym@)),
        decreases kids@.len() - i,
    {
        let arg = kids[i];
        proof {
            assert(ks[i as int] == *arg);
            assert(ks.take(i + 1).drop_last() =~= ks.take(i as int));
        }
        col_arg_apply(&mut ca, &mut fk, arg, sym, Ghost(col_args_fold(ks.take(i as int), sym@)));
        i = i + 1;
    }
    assert(ks.take(ks.len() as int) =~= ks);
    (ca, fk)
}

fn try_extract_column(assign: &SyntaxNode, sym: &SymbolTable) -> (r: Option<Column>)
    requires
        col_pre(*assign, sym@),
    ensures
        match r {
            Some(c) => col_applies(*assign) && col_ok(c, *assign, sym@),
            None => !col_applies(*assign),
        },
{
    let name_node = child_by_field(assign, "left")?;
    let name = name_node.text.as_str();
    if str_starts_with(name, "__") {
        return None;
    }
    let annotation = child_by_field(assign, "type")?;
    let mapped_type = parse_mapped_type(annotation.text.as_str(), sym);
    let mut args = ColumnArgs::default();
    let mut fk: Option<ForeignKeyRef> = None;
    if let Some(rhs) = child_by_field(assign, "right") {
        if kind_is(rhs, "call") {
            let fname = field_text_exec(rhs, "function");
            if sym.is_mapped_column(fname) || str_eq(fname, "mapped_column") {
                if let Some(a) = child_by_field(rhs, "arguments") {
                    let (ca, f) = parse_mapped_column_args(a, sym);
                    args = ca;
                    fk = f;
                }
            }
        }
    }
    args.nullable = infer_nullable(&mapped_type, args.nullable);
    Some(Column {
        name: to_owned(name),
        key: None,
        mapped_type,
        args,
        foreign_key: fk,
        doc: None,
        name_range: name_node.range,
        full_range: assign.range,
    })
}

// ── Models ───────────────────────────────────────────────────────────────────

/// What a class body holds: table name, the value of `__table_args__`, the
/// assignment of each column and relationship name (the last wins), the
/// columns that were assigned again, and the docstring.
pub struct BodyV {
    pub table_name: Option<Seq<char>>,
    pub table_args: Option<SyntaxNode>,
    pub cols: Map<Seq<char>, SyntaxNode>,
    pub rels: Map<Seq<char>, SyntaxNode>,
    pub dups: Seq<(Seq<char>, Range)>,
    pub doc: Option<Seq<char>>,
}

pub open spec fn body_init() -> BodyV {
    BodyV { table_name: None, table_args: None, cols: Map::empty(), rels: Map::empty(), dups: Seq::empty(), doc: None }
}

/// What one statement of a class body adds.
pub open spec fn body_step(b: BodyV, outer: SyntaxNode, first: bool, sv: SymV) -> BodyV {
    let s = unwrap_stmt(outer);
    if first && is_kind(s, "string"@) {
        let t = string_unquoted(s.text@);
        BodyV { doc: if t.len() > 0 { Some(t) } else { b.doc }, ..b }
    } else if !is_kind(s, "assignment"@) {
        b
    } else if field_child(s, "type"@) is Some {
        let k = field_text(s, "left"@);
        if rel_applies(s, sv) {
            BodyV { rels: b.rels.insert(k, s), ..b }
        } else if col_applies(s) {
            BodyV {
                dups: if b.cols.contains_key(k) {
                    b.dups.push((k, field_child(b.cols[k], "left"@)->0.range))
                } else {
                    b.dups
                },
                cols: b.cols.insert(k, s),
                ..b
            }
        } else {
            b
        }
    } else if tablename_of(s) is Some {
        BodyV { table_name: tablename_of(s), ..b }
    } else if table_args_value(s) is Some {
        BodyV { table_args: table_args_value(s), ..b }
    } else {
        b
    }
}

/// The statements of a class body, each in turn.
pub open spec fn body_fold(kids: Seq<SyntaxNode>, sv: SymV) -> BodyV
    decreases kids.len(),
{
    if kids.len() == 0 {
        body_init()
    } else {
        body_step(body_fold(kids.drop_last(), sv), kids.last(), kids.len() == 1, sv)
    }
}

/// The texts one statement's extraction parses are well-formed.
pub open spec fn stmt_pre(outer: SyntaxNode, first: bool, sv: SymV) -> bool {
    let s = unwrap_stmt(outer);
    &&& (first && is_kind(s, "string"@)) ==> string_quotes_ok(s.text@)
    &&& (is_kind(s, "assignment"@) && field_child(s, "type"@) is Some) ==> (rel_pre(s, sv) && (!rel_applies(s, sv)
        ==> col_pre(s, sv)))
    &&& (is_kind(s, "assignment"@) && field_child(s, "type"@) is None) ==> ((field_text(s, "left"@) == "__tablename__"@
        ==> string_quotes_ok(field_text(s, "right"@))) && (table_args_value(s) matches Some(v) ==> table_args_pre(v)))
}

pub open spec fn body_pre(kids: Seq<SyntaxNode>, sv: SymV) -> bool {
    forall|i: int| 0 <= i < kids.len() ==> stmt_pre(#[trigger] kids[i], i == 0, sv)
}

pub open spec fn dup_views(v: Seq<(String, Range)>) -> Seq<(Seq<char>, Range)> {
    v.map_values(|p: (String, Range)| (p.0@, p.1))
}

/// Exec model fields agree with what a class body holds.
pub open spec fn body_match(
    table_name: Option<String>,
    table_args: Seq<TableArg>,
    cols: Map<Seq<char>, Column>,
    rels: Map<Seq<char>, Relationship>,
    dups: Seq<(String, Range)>,
    doc: Option<String>,
    b: BodyV,
    sv: SymV,
) -> bool {
    &&& opt_view(table_name) == b.table_name
    &&& table_args_ok(
        table_args,
        match b.table_args {
            Some(n) => table_arg_calls(n),
            None => Seq::empty(),
        },
    )
    &&& cols.dom() == b.cols.dom()
    &&& forall|k: Seq<char>| #[trigger] cols.contains_key(k) ==> col_ok(cols[k], b.cols[k], sv) && cols[k].name@ == k
    &&& rels.dom() == b.rels.dom()
    &&& forall|k: Seq<char>| #[trigger] rels.contains_key(k) ==> rel_ok(rels[k], b.rels[k], sv)
    &&& dup_views(dups) == b.dups
    &&& opt_view(doc) == b.doc
}

/// Whether a class is extracted as a model: it has a name, is not itself a
/// declarative base, and is a model (table name or registered base).
pub open spec fn model_applies(class: SyntaxNode, sv: SymV, bases: Seq<Seq<char>>) -> bool {
    field_child(class, "name"@) is Some && !is_decl_base(class, sv) && is_model_class(class, bases)
}

pub open spec fn model_pre(class: SyntaxNode, sv: SymV) -> bool {
    field_child(class, "body"@) matches Some(b) ==> body_pre(named_kids(b), sv)
}

/// A model as recorded from its class.
pub open spec fn model_ok(m: Model, class: SyntaxNode, sv: SymV) -> bool {
    &&& m.name@ == field_text(class, "name"@)
    &&& m.name_range == field_child(class, "name"@)->0.range
    &&& m.full_range == class.range
    &&& views(m.bases@) == base_texts(class)
    &&& body_match(
        m.table_name,
        m.table_args@,
        m.columns@,
        m.relationships@,
        m.duplicate_columns@,
        m.docstring,
        match field_child(class, "body"@) {
            Some(b) => body_fold(named_kids(b), sv),
            None => body_init(),
        },
        sv,
    )
}

fn body_stmt(
    outer: &SyntaxNode,
    first: bool,
    sym: &SymbolTable,
    table_name: &mut Option<String>,
    table_args: &mut Vec<TableArg>,
    cols: &mut StrMap<Column>,
    rels: &mut StrMap<Relationship>,
    dups: &mut Vec<(String, Range)>,
    doc: &mut Option<String>,
    Ghost(b): Ghost<BodyV>,
)
    requires
        stmt_pre(*outer, first, sym@),
        body_match(*old(table_name), old(table_args)@, old(cols)@, old(rels)@, old(dups)@, *old(doc), b, sym@),
        first ==> b.doc is None,
    ensures
        body_match(*final(table_name), final(table_args)@, final(cols)@, final(rels)@, final(dups)@, *final(doc), body_step(b, *outer, first, sym@), sym@),
{
    proof {
        lemma_kind_names();
    }
    let stmt = unwrap_expr_stmt(outer);
    if first && kind_is(stmt, "string") {
        let text = strip_string_quotes(stmt.text.as_str());
        if !text.as_str().is_empty() {
            *doc = Some(text);
        }
        return;
    }
    if !kind_is(stmt, "assignment") {
        return;
    }
    if child_by_field(stmt, "type").is_some() {
        let ghost k = field_text(*stmt, "left"@);
        match try_extract_relationship(stmt, sym) {
            Some(rel) => {
                let key = rel.name.clone();
                rels.insert(key, rel);
                assert(rels@.dom() =~= body_step(b, *outer, first, sym@).rels.dom());
                return;
            },
            None => {},
        }
        match try_extract_column(stmt, sym) {
            Some(col) => {
                let key = col.name.clone();
                let ghost oc = cols@;
                match cols.insert(key, col) {
                    Some(old) => {
                        let ghost od = dups@;
                        dups.push((old.name, old.name_range));
                        assert(dup_views(dups@) =~= dup_views(od).push((k, field_child(b.cols[k], "left"@)->0.range)));
                    },
                    None => {},
                }
                assert(cols@.dom() =~= body_step(b, *outer, first, sym@).cols.dom());
            },
            None => {},
        }
    } else {
        match try_extract_tablename(stmt) {
            Some(tn) => {
                *table_name = Some(tn);
                return;
            },
            None => {},
        }
        match try_extract_table_args(stmt) {
            Some(v) => {
                *table_args = v;
            },
            None => {},
        }
    }
}

/// The model a class defines, if it is one.
pub fn try_extract_model(class: &SyntaxNode, sym: &SymbolTable, bases: &BaseRegistry) -> (r: Option<Model>)
    requires
        model_pre(*class, sym@),
    ensures
        match r {
            Some(m) => model_applies(*class, sym@, views(bases.base_names@)) && model_ok(m, *class, sym@),
            None => !model_applies(*class, sym@, views(bases.base_names@)),
        },
{
    let name_node = child_by_field(class, "name")?;
    if class_is_declarative_base(class, sym) {
        return None;
    }
    if !class_is_model(class, bases) {
        return None;
    }
    let bases_list = extract_base_names(class);
    let mut table_name: Option<String> = None;
    let mut table_args: Vec<TableArg> = Vec::new();
    let mut cols: StrMap<Column> = StrMap::new();
    let mut rels: StrMap<Relationship> = StrMap::new();
    let mut dups: Vec<(String, Range)> = Vec::new();
    let mut doc: Option<String> = None;
    assert(dup_views(dups@) =~= Seq::empty());
    assert(cols@.dom() =~= Map::<Seq<char>, SyntaxNode>::empty().dom());
    assert(rels@.dom() =~= Map::<Seq<char>, SyntaxNode>::empty().dom());
    if let Some(body) = child_by_field(class, "body") {
        let kids = named_children(body);
        let ghost ks = kids@.map_values(|c: &SyntaxNode| *c);
        let mut i: usize = 0;
        while i < kids.len()
            invariant
                i <= kids@.len(),
                ks == kids@.map_values(|c: &SyntaxNode| *c),
                ks == named_kids(*body),
                body_pre(ks, sym@),
                i == 0 ==> doc is None,
                body_match(table_name, table_args@, cols@, rels@, dups@, doc, body_fold(ks.take(i as int), sym@), sym@),
                i == 0 ==> body_fold(ks.take(i as int), sym@).doc is None,
            decreases kids@.len() - i,
        {
            proof {
                assert(ks[i as int] == *kids@[i as int]);
                assert(ks.take(i + 1).drop_last() =~= ks.take(i as int));
                assert(ks.take(i + 1).len() == 1 <==> i == 0);
            }
            body_stmt(
                kids[i],
                i == 0,
                sym,
                &mut table_name,
                &mut table_args,
                &mut cols,
                &mut rels,
                &mut dups,
                &mut doc,
                Ghost(body_fold(ks.take(i as int), sym@)),
            );
            i = i + 1;
        }
        assert(ks.take(ks.len() as int) =~= ks);
    }
    Some(Model {
        name: name_node.text.clone(),
        table_name,
        bases: bases_list,
        columns: cols,
        relationships: rels,
        table_args,
        duplicate_columns: dups,
        docstring: doc,
        name_range: name_node.range,
        full_range: class.range,
    })
}

/// `n` added to a list of names unless already there.
pub open spec fn register_name(s: Seq<Seq<char>>, n: Seq<char>) -> Seq<Seq<char>> {
    if s.contains(n) {
        s
    } else {
        s.push(n)
    }
}

/// The declarative bases among the top-level classes, in order, once each.
pub open spec fn bases_fold(kids: Seq<SyntaxNode>, sv: SymV) -> Seq<Seq<char>>
    decreases kids.len(),
{
    if kids.len() == 0 {
        Seq::empty()
    } else {
        let b = bases_fold(kids.drop_last(), sv);
        let k = kids.last();
        if is_kind(k, "class_definition"@) && is_decl_base(k, sv) {
            register_name(b, field_text(k, "name"@))
        } else {
            b
        }
    }
}

/// The symbol table of a module.
pub open spec fn file_sym(root: SyntaxNode) -> SymV {
    walk_imports(SymbolTable::empty_view(), root)
}

/// The declarative bases a module defines.
pub open spec fn file_bases(root: SyntaxNode) -> Seq<Seq<char>> {
    bases_fold(named_kids(root), file_sym(root))
}

/// The top-level classes of a module that are models.
pub open spec fn model_classes(root: SyntaxNode) -> Seq<SyntaxNode> {
    named_kids(root).filter(
        |k: SyntaxNode| is_kind(k, "class_definition"@) && model_applies(k, file_sym(root), file_bases(root)),
    )
}

/// The texts model extraction parses are well-formed.
pub open spec fn models_pre(root: SyntaxNode) -> bool {
    forall|i: int|
        0 <= i < named_kids(root).len() && is_kind(named_kids(root)[i], "class_definition"@) ==> model_pre(
            #[trigger] named_kids(root)[i],
            file_sym(root),
        )
}

/// The ORM models a module defines, one per model class, in order.
pub fn extract_models(root: &SyntaxNode) -> (r: Vec<Model>)
    requires
        models_pre(*root),
    ensures
        r@.len() == model_classes(*root).len(),
        forall|i: int| 0 <= i < r@.len() ==> model_ok(#[trigger] r@[i], model_classes(*root)[i], file_sym(*root)),
{
    let sym = build_symbol_table(root);
    let ghost sv = sym@;
    assert(sv == file_sym(*root));
    let kids = named_children(root);
    let ghost ks = kids@.map_values(|c: &SyntaxNode| *c);
    let mut bases = BaseRegistry::new();
    let mut i: usize = 0;
    assert(views(bases.base_names@) =~= bases_fold(ks.take(0), sv));
    while i < kids.len()
        invariant
            i <= kids@.len(),
            ks == kids@.map_values(|c: &SyntaxNode| *c),
            ks == named_kids(*root),
            sv == sym@,
            views(bases.base_names@) == bases_fold(ks.take(i as int), sv),
        decreases kids@.len() - i,
    {
        let node = kids[i];
        proof {
            assert(ks[i as int] == *node);
            assert(ks.take(i + 1).drop_last() =~= ks.take(i as int));
        }
        if kind_is(node, "class_definition") {
            let name = field_text_exec(node, "name");
            if class_is_declarative_base(node, &sym) {
                bases.register(name);
            }
        }
        i = i + 1;
    }
    assert(ks.take(ks.len() as int) =~= ks);
    let ghost bs = views(bases.base_names@);
    let ghost p = |k: SyntaxNode| is_kind(k, "class_definition"@) && model_applies(k, file_sym(*root), file_bases(*root));
    let mut models: Vec<Model> = Vec::new();
    let mut j: usize = 0;
    while j < kids.len()
        invariant
            j <= kids@.len(),
            ks == kids@.map_values(|c: &SyntaxNode| *c),
            ks == named_kids(*root),
            sv == sym@,
            sv == file_sym(*root),
            bs == views(bases.base_names@),
            bs == file_bases(*root),
            models_pre(*root),
            p == (|k: SyntaxNode| is_kind(k, "class_definition"@) && model_applies(k, file_sym(*root), file_bases(*root))),
            models@.len() == ks.take(j as int).filter(p).len(),
            forall|m: int| 0 <= m < models@.len() ==> model_ok(#[trigger] models@[m], ks.take(j as int).filter(p)[m], sv),
        decreases kids@.len() - j,
    {
        let node = kids[j];
        proof {
            assert(ks[j as int] == *node);
            assert(ks.take(j + 1) =~= ks.take(j as int).push(*node));
            ks.take(j as int).lemma_filter_push(*node, p);
        }
        if kind_is(node, "class_definition") {
            if let Some(m) = try_extract_model(node, &sym, &bases) {
                models.push(m);
            }
        }
        j = j + 1;
    }
    assert(ks.take(ks.len() as int) =~= ks);
    models
}

} // verus!
