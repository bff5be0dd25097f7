//! Name resolution for a file's imports, the registry of declarative bases,
//! and the parser of `Mapped[...]` annotation text into a `MappedType`.
use vstd::prelude::*;

use crate::strmap::StrMap;
use crate::text::{
    chars_eq, contains, ends_with, ends_with_exec, find, find_exec, from_chars, is_ws, last_upto, occurs_at,
    lemma_find_props, lemma_last_upto_props, push_chars, push_str, rfind, rfind_exec,
    slice_vec, split, split_exec, starts_with, starts_with_exec, str_eq, to_chars, to_owned,
    trim, trim_char, trim_char_exec, trim_end, trim_end_char, trim_exec, trim_start, trim_start_char,
};
use crate::types::{MappedType, TypeV, views};

verus! {

// ── Symbol table ─────────────────────────────────────────────────────────────

/// Where a local name was imported from.
#[derive(Clone, Debug)]
pub struct Binding {
    pub module: String,
    pub name: String,
}

/// Per-file import/alias table built before the class walk.
#[derive(Debug)]
pub struct SymbolTable {
    /// local_name → canonical binding (from `from M import X as Y`)
    pub bindings: StrMap<Binding>,
    /// local_name → module path (from `import M as X` or `import M.sub as X`)
    pub module_aliases: StrMap<String>,
    /// modules from `from M import *`
    pub star_imports: Vec<String>,
}

/// Whether `name` is one of the names `module` exports that the resolver knows of.
pub open spec fn known_sa_export(module: Seq<char>, name: Seq<char>) -> bool {
    if module == "sqlalchemy"@ || module == "sqlalchemy.sql"@ {
        name == "String"@ || name == "Integer"@ || name == "Float"@ || name == "Boolean"@ || name
            == "DateTime"@ || name == "Text"@ || name == "BigInteger"@ || name == "SmallInteger"@
            || name == "Numeric"@ || name == "Date"@ || name == "Time"@ || name == "LargeBinary"@
            || name == "JSON"@ || name == "ARRAY"@ || name == "UUID"@ || name == "ForeignKey"@
            || name == "Column"@ || name == "Table"@ || name == "MetaData"@
    } else if module == "sqlalchemy.orm"@ {
        name == "relationship"@ || name == "mapped_column"@ || name == "Mapped"@ || name
            == "DeclarativeBase"@ || name == "DeclarativeBaseNoMeta"@ || name
            == "MappedAsDataclass"@ || name == "registry"@ || name == "Session"@
    } else if module == "typing"@ {
        name == "Optional"@ || name == "List"@ || name == "Union"@ || name == "Annotated"@ || name
            == "Any"@
    } else {
        false
    }
}

/// The first star-imported module (from index `i`) that exports `name`, as `module.name`.
pub open spec fn star_resolve(stars: Seq<Seq<char>>, name: Seq<char>, i: int) -> Option<Seq<char>>
    decreases stars.len() - i,
{
    if i < 0 || i >= stars.len() {
        None
    } else if known_sa_export(stars[i], name) {
        Some(stars[i] + "."@ + name)
    } else {
        star_resolve(stars, name, i + 1)
    }
}

/// What a symbol table holds: each imported name's module and original
/// name, each module alias's module, the star-imported modules.
pub struct SymV {
    pub bindings: Map<Seq<char>, (Seq<char>, Seq<char>)>,
    pub aliases: Map<Seq<char>, Seq<char>>,
    pub stars: Seq<Seq<char>>,
}

/// What a local name or dotted path resolves to, as `module.name`.
pub open spec fn resolve_spec(sv: SymV, name: Seq<char>) -> Option<Seq<char>> {
    let dot = find(name, "."@);
    if sv.bindings.contains_key(name) {
        Some(sv.bindings[name].0 + "."@ + sv.bindings[name].1)
    } else if dot >= 0 && sv.aliases.contains_key(name.take(dot)) {
        Some(sv.aliases[name.take(dot)] + "."@ + name.skip(dot + 1))
    } else {
        star_resolve(sv.stars, name, 0)
    }
}

/// Whether `module.name` is a name the resolver knows `module` exports.
pub fn is_known_sa_export(module: &str, name: &str) -> (r: bool)
    ensures
        r == known_sa_export(module@, name@),
{
    if str_eq(module, "sqlalchemy") || str_eq(module, "sqlalchemy.sql") {
        str_eq(name, "String") || str_eq(name, "Integer") || str_eq(name, "Float") || str_eq(
            name,
            "Boolean",
        ) || str_eq(name, "DateTime") || str_eq(name, "Text") || str_eq(name, "BigInteger")
            || str_eq(name, "SmallInteger") || str_eq(name, "Numeric") || str_eq(name, "Date")
            || str_eq(name, "Time") || str_eq(name, "LargeBinary") || str_eq(name, "JSON")
            || str_eq(name, "ARRAY") || str_eq(name, "UUID") || str_eq(name, "ForeignKey")
            || str_eq(name, "Column") || str_eq(name, "Table") || str_eq(name, "MetaData")
    } else if str_eq(module, "sqlalchemy.orm") {
        str_eq(name, "relationship") || str_eq(name, "mapped_column") || str_eq(name, "Mapped")
            || str_eq(name, "DeclarativeBase") || str_eq(name, "DeclarativeBaseNoMeta") || str_eq(
            name,
            "MappedAsDataclass",
        ) || str_eq(name, "registry") || str_eq(name, "Session")
    } else if str_eq(module, "typing") {
        str_eq(name, "Optional") || str_eq(name, "List") || str_eq(name, "Union") || str_eq(
            name,
            "Annotated",
        ) || str_eq(name, "Any")
    } else {
        false
    }
}

/// `a.b` as a new string.
fn dotted(a: &str, b: &[char]) -> (r: String)
    ensures
        r@ == a@ + "."@ + b@,
{
    let mut s = to_owned(a);
    push_str(&mut s, ".");
    push_chars(&mut s, b);
    s
}

impl View for SymbolTable {
    type V = SymV;

    open spec fn view(&self) -> SymV {
        SymV {
            bindings: self.bindings@.map_values(|b: Binding| (b.module@, b.name@)),
            aliases: self.module_aliases@.map_values(|s: String| s@),
            stars: views(self.star_imports@),
        }
    }
}

impl Default for SymbolTable {
    fn default() -> (st: Self)
        ensures
            st.bindings@ == Map::<Seq<char>, Binding>::empty(),
            st.module_aliases@ == Map::<Seq<char>, String>::empty(),
            st.star_imports@.len() == 0,
    {
        SymbolTable::new()
    }
}

impl SymbolTable {
    /// What an empty table holds.
    pub open spec fn empty_view() -> SymV {
        SymV { bindings: Map::empty(), aliases: Map::empty(), stars: Seq::empty() }
    }

    /// A table with no imports.
    pub fn new() -> (st: Self)
        ensures
            st.bindings@ == Map::<Seq<char>, Binding>::empty(),
            st.module_aliases@ == Map::<Seq<char>, String>::empty(),
            st.star_imports@.len() == 0,
    {
        SymbolTable { bindings: StrMap::new(), module_aliases: StrMap::new(), star_imports: Vec::new() }
    }

    /// What `name` resolves to under this table.
    pub open spec fn resolve_view(&self, name: Seq<char>) -> Option<Seq<char>> {
        resolve_spec(self@, name)
    }

    /// Resolve a local name or dotted path to `"module.name"`, or `None` if unknown.
    pub fn resolve(&self, name: &str) -> (r: Option<String>)
        ensures
            match r {
                Some(s) => self.resolve_view(name@) == Some(s@),
                None => self.resolve_view(name@).is_none(),
            },
    {
        if let Some(b) = self.bindings.get(name) {
            return Some(dotted(b.module.as_str(), to_chars(b.name.as_str()).as_slice()));
        }
        let cs = to_chars(name);
        let dot_s = to_chars(".");
        if let Some(dot) = find_exec(cs.as_slice(), dot_s.as_slice()) {
            proof {
                lemma_find_props(cs@, dot_s@);
                reveal_strlit(".");
            }
            let prefix = from_chars(slice_vec(cs.as_slice(), 0, dot).as_slice());
            let n = cs.len();
            assert(dot + 1 <= n);
            let rest = slice_vec(cs.as_slice(), dot + 1, n);
            assert(prefix@ == name@.take(dot as int));
            assert(rest@ == name@.skip(dot + 1));
            if let Some(module_name) = self.module_aliases.get(prefix.as_str()) {
                return Some(dotted(module_name.as_str(), rest.as_slice()));
            }
        }
        assert(self.resolve_view(name@) == star_resolve(views(self.star_imports@), name@, 0));
        let mut i: usize = 0;
        while i < self.star_imports.len()
            invariant
                i <= self.star_imports@.len(),
                cs@ == name@,
                self.resolve_view(name@) == star_resolve(views(self.star_imports@), name@, 0),
                star_resolve(views(self.star_imports@), name@, 0) == star_resolve(
                    views(self.star_imports@),
                    name@,
                    i as int,
                ),
            decreases self.star_imports@.len() - i,
        {
            if is_known_sa_export(self.star_imports[i].as_str(), name) {
                return Some(dotted(self.star_imports[i].as_str(), cs.as_slice()));
            }
            i = i + 1;
        }
        None
    }

    /// Whether `name` resolves to exactly `target`.
    fn resolves_to(&self, name: &str, target: &str) -> (r: bool)
        ensures
            r == (self.resolve_view(name@) == Some(target@)),
    {
        match self.resolve(name) {
            Some(s) => str_eq(s.as_str(), target),
            None => false,
        }
    }

    pub fn is_relationship(&self, local: &str) -> (r: bool)
        ensures
            r == (self.resolve_view(local@) == Some("sqlalchemy.orm.relationship"@)
                || self.resolve_view(local@) == Some("sqlalchemy.orm.relation"@)
                || self.resolve_view(local@) == Some("sqlalchemy.relationship"@)),
    {
        self.resolves_to(local, "sqlalchemy.orm.relationship") || self.resolves_to(
            local,
            "sqlalchemy.orm.relation",
        ) || self.resolves_to(local, "sqlalchemy.relationship")
    }

    pub fn is_mapped_column(&self, local: &str) -> (r: bool)
        ensures
            r == (self.resolve_view(local@) == Some("sqlalchemy.orm.mapped_column"@)
                || self.resolve_view(local@) == Some("sqlalchemy.mapped_column"@)),
    {
        self.resolves_to(local, "sqlalchemy.orm.mapped_column") || self.resolves_to(
            local,
            "sqlalchemy.mapped_column",
        )
    }

    pub fn is_foreign_key(&self, local: &str) -> (r: bool)
        ensures
            r == (self.resolve_view(local@) == Some("sqlalchemy.ForeignKey"@)
                || self.resolve_view(local@) == Some("sqlalchemy.orm.ForeignKey"@)
                || self.resolve_view(local@) == Some("sqlalchemy.sql.schema.ForeignKey"@)),
    {
        self.resolves_to(local, "sqlalchemy.ForeignKey") || self.resolves_to(
            local,
            "sqlalchemy.orm.ForeignKey",
        ) || self.resolves_to(local, "sqlalchemy.sql.schema.ForeignKey")
    }

    pub fn is_sa_abstract_base(&self, local: &str) -> (r: bool)
        ensures
            r == (self.resolve_view(local@) == Some("sqlalchemy.orm.DeclarativeBase"@)
                || self.resolve_view(local@) == Some("sqlalchemy.orm.DeclarativeBaseNoMeta"@)
                || self.resolve_view(local@) == Some("sqlalchemy.orm.MappedAsDataclass"@)
                || self.resolve_view(local@) == Some(
                "sqlalchemy.ext.declarative.DeclarativeBase"@,
            )),
    {
        self.resolves_to(local, "sqlalchemy.orm.DeclarativeBase") || self.resolves_to(
            local,
            "sqlalchemy.orm.DeclarativeBaseNoMeta",
        ) || self.resolves_to(local, "sqlalchemy.orm.MappedAsDataclass") || self.resolves_to(
            local,
            "sqlalchemy.ext.declarative.DeclarativeBase",
        )
    }

    pub fn is_mapped(&self, local: &str) -> (r: bool)
        ensures
            r == (self.resolve_view(local@) == Some("sqlalchemy.orm.Mapped"@)
                || self.resolve_view(local@) == Some("sqlalchemy.Mapped"@)),
    {
        self.resolves_to(local, "sqlalchemy.orm.Mapped") || self.resolves_to(
            local,
            "sqlalchemy.Mapped",
        )
    }

    /// The module an alias stands for.
    pub fn alias_module(&self, alias: &str) -> (r: Option<&str>)
        ensures
            match r {
                Some(m) => self.module_aliases@.contains_key(alias@) && m@
                    == self.module_aliases@[alias@]@,
                None => !self.module_aliases@.contains_key(alias@),
            },
    {
        match self.module_aliases.get(alias) {
            Some(m) => Some(m.as_str()),
            None => None,
        }
    }
}

// ── Base class registry ──────────────────────────────────────────────────────

/// Declarative base classes defined in a file.
#[derive(Debug)]
pub struct BaseRegistry {
    pub base_names: Vec<String>,
}

impl BaseRegistry {
    /// An empty registry.
    pub fn new() -> (r: Self)
        ensures
            r.base_names@.len() == 0,
    {
        BaseRegistry { base_names: Vec::new() }
    }

    /// Records `name` unless it is already recorded.
    pub fn register(&mut self, name: &str)
        ensures
            views(old(self).base_names@).contains(name@) ==> final(self).base_names@ == old(
                self,
            ).base_names@,
            !views(old(self).base_names@).contains(name@) ==> views(final(self).base_names@)
                == views(old(self).base_names@).push(name@),
    {
        if !self.is_base(name) {
            let ghost old_names = self.base_names@;
            self.base_names.push(to_owned(name));
            proof {
                assert(views(self.base_names@) =~= views(old_names).push(name@));
            }
        }
    }

    /// Whether `class_name` was recorded.
    pub fn is_base(&self, class_name: &str) -> (r: bool)
        ensures
            r == views(self.base_names@).contains(class_name@),
    {
        let mut i: usize = 0;
        while i < self.base_names.len()
            invariant
                i <= self.base_names@.len(),
                forall|j: int| 0 <= j < i ==> self.base_names@[j]@ != class_name@,
            decreases self.base_names@.len() - i,
        {
            if str_eq(self.base_names[i].as_str(), class_name) {
                assert(views(self.base_names@)[i as int] == class_name@);
                return true;
            }
            i = i + 1;
        }
        assert(!views(self.base_names@).contains(class_name@)) by {
            if views(self.base_names@).contains(class_name@) {
                let k = choose|k: int| 0 <= k < views(self.base_names@).len() && views(self.base_names@)[k] == class_name@;
                assert(self.base_names@[k]@ == class_name@);
            }
        }
        false
    }
}

// ── Annotation text ──────────────────────────────────────────────────────────

/// `s` without its surrounding quotes: every leading/trailing `"` then `'` removed.
pub open spec fn unquoted(s: Seq<char>) -> Seq<char> {
    trim_char(trim_char(s, '"'), '\'')
}

/// `s` without its surrounding quotes.
pub fn strip_quotes(s: &[char]) -> (r: Vec<char>)
    ensures
        r@ == unquoted(s@),
{
    let a = trim_char_exec(s, '"');
    trim_char_exec(a.as_slice(), '\'')
}

/// A string literal's text with its quotes removed (triple quotes trimmed inside).
pub open spec fn string_unquoted(s: Seq<char>) -> Seq<char> {
    if starts_with(s, "\"\"\""@) && ends_with(s, "\"\"\""@) && s.len() >= 6 {
        trim(s.subrange(3, s.len() - 3))
    } else if starts_with(s, "'''"@) && ends_with(s, "'''"@) && s.len() >= 6 {
        trim(s.subrange(3, s.len() - 3))
    } else {
        unquoted(s)
    }
}

/// Whether `strip_string_quotes` is defined on `s`: a triple-quoted delimiter
/// that both opens and closes a text shorter than two delimiters has no inside.
pub open spec fn string_quotes_ok(s: Seq<char>) -> bool {
    !(starts_with(s, "\"\"\""@) && ends_with(s, "\"\"\""@) && s.len() < 6) && !(starts_with(
        s,
        "'''"@,
    ) && ends_with(s, "'''"@) && s.len() < 6)
}

/// Strip the surrounding quotes of a string literal's source text.
pub fn strip_string_quotes(s: &str) -> (r: String)
    requires
        string_quotes_ok(s@),
    ensures
        r@ == string_unquoted(s@),
{
    let cs = to_chars(s);
    let tq = to_chars("\"\"\"");
    let sq = to_chars("'''");
    if (starts_with_exec(cs.as_slice(), tq.as_slice()) && ends_with_exec(cs.as_slice(), tq.as_slice())
        && cs.len() >= 6) || (starts_with_exec(cs.as_slice(), sq.as_slice()) && ends_with_exec(
        cs.as_slice(),
        sq.as_slice(),
    ) && cs.len() >= 6) {
        let inner = slice_vec(cs.as_slice(), 3, cs.len() - 3);
        let t = trim_exec(inner.as_slice());
        return from_chars(t.as_slice());
    }
    let a = trim_char_exec(cs.as_slice(), '"');
    let b = trim_char_exec(a.as_slice(), '\'');
    from_chars(b.as_slice())
}

/// The inside of `name[...]` when `s` is exactly such a generic application.
pub open spec fn generic_inner(s: Seq<char>, name: Seq<char>) -> Option<Seq<char>> {
    let prefix = name + "["@;
    if starts_with(s, prefix) && ends_with(s, "]"@) {
        Some(s.subrange(prefix.len() as int, s.len() - 1))
    } else {
        None
    }
}

/// The first of `generic_inner(s, a)` and `generic_inner(s, b)` that exists.
pub open spec fn generic_inner2(s: Seq<char>, a: Seq<char>, b: Seq<char>) -> Option<Seq<char>> {
    if generic_inner(s, a).is_some() {
        generic_inner(s, a)
    } else {
        generic_inner(s, b)
    }
}

fn strip_generic_wrapper(s: &[char], name: &str) -> (r: Option<Vec<char>>)
    ensures
        match r {
            Some(v) => generic_inner(s@, name@) == Some(v@),
            None => generic_inner(s@, name@).is_none(),
        },
{
    let mut prefix = to_chars(name);
    prefix.push('[');
    assert(prefix@ == name@ + "["@) by {
        reveal_strlit("[");
    }
    let close = to_chars("]");
    if starts_with_exec(s, prefix.as_slice()) && ends_with_exec(s, close.as_slice()) {
        proof {
            reveal_strlit("]");
            assert(s@.len() >= 1);
            if s@.len() < prefix@.len() + 1 {
                assert(s@.take(prefix@.len() as int)[prefix@.len() - 1] == '[');
                assert(s@.skip(s@.len() - 1)[0] == ']');
                assert(false);
            }
        }
        Some(slice_vec(s, prefix.len(), s.len() - 1))
    } else {
        None
    }
}

fn strip_generic2(s: &[char], a: &str, b: &str) -> (r: Option<Vec<char>>)
    ensures
        match r {
            Some(v) => generic_inner2(s@, a@, b@) == Some(v@),
            None => generic_inner2(s@, a@, b@).is_none(),
        },
{
    match strip_generic_wrapper(s, a) {
        Some(v) => Some(v),
        None => strip_generic_wrapper(s, b),
    }
}

/// `s` before a trailing `suf` (itself possibly followed by one `]`), trimmed.
pub open spec fn union_suffix(s: Seq<char>, suf: Seq<char>) -> Option<Seq<char>> {
    let idx = rfind(s, suf);
    if idx >= 0 && (s.skip(idx + suf.len()).len() == 0 || s.skip(idx + suf.len()) == "]"@) {
        Some(trim(s.take(idx)))
    } else {
        None
    }
}

/// The non-`None` half of a `X | None` / `None | X` union.
pub open spec fn union_none(s: Seq<char>) -> Option<Seq<char>> {
    if union_suffix(s, " | None]"@).is_some() {
        union_suffix(s, " | None]"@)
    } else if union_suffix(s, " | None"@).is_some() {
        union_suffix(s, " | None"@)
    } else if starts_with(s, "None | "@) {
        Some(trim(s.skip(7)))
    } else {
        None
    }
}

fn strip_union_suffix(s: &[char], suf: &str) -> (r: Option<Vec<char>>)
    ensures
        match r {
            Some(v) => union_suffix(s@, suf@) == Some(v@),
            None => union_suffix(s@, suf@).is_none(),
        },
{
    let p = to_chars(suf);
    match rfind_exec(s, p.as_slice()) {
        Some(idx) => {
            proof {
                lemma_last_upto_props(s@, p@, s@.len() - p@.len());
            }
            assert(idx + p@.len() <= s@.len());
            let n = s.len();
            let pl = p.len();
            assert(idx + pl <= n);
            let rem = slice_vec(s, idx + pl, n);
            assert(rem@ == s@.skip(idx + p@.len()));
            let close = to_chars("]");
            if rem.len() == 0 || chars_eq(rem.as_slice(), close.as_slice()) {
                let head = slice_vec(s, 0, idx);
                assert(head@ == s@.take(idx as int));
                Some(trim_exec(head.as_slice()))
            } else {
                None
            }
        },
        None => None,
    }
}

fn strip_union_none(s: &[char]) -> (r: Option<Vec<char>>)
    ensures
        match r {
            Some(v) => union_none(s@) == Some(v@),
            None => union_none(s@).is_none(),
        },
{
    if let Some(v) = strip_union_suffix(s, " | None]") {
        return Some(v);
    }
    if let Some(v) = strip_union_suffix(s, " | None") {
        return Some(v);
    }
    let pre = to_chars("None | ");
    if starts_with_exec(s, pre.as_slice()) {
        proof {
            reveal_strlit("None | ");
        }
        let rest = slice_vec(s, 7, s.len());
        assert(rest@ == s@.skip(7));
        return Some(trim_exec(rest.as_slice()));
    }
    None
}

/// Index of the first `,` not nested in brackets or parentheses, scanning
/// from `i` at nesting `depth`; -1 when there is none.
pub open spec fn top_level_comma_from(s: Seq<char>, i: int, depth: nat) -> int
    decreases s.len() - i,
{
    if i < 0 || i >= s.len() {
        -1
    } else if s[i] == '[' || s[i] == '(' {
        top_level_comma_from(s, i + 1, depth + 1)
    } else if s[i] == ']' || s[i] == ')' {
        top_level_comma_from(s, i + 1, if depth == 0 { 0 } else { (depth - 1) as nat })
    } else if s[i] == ',' && depth == 0 {
        i
    } else {
        top_level_comma_from(s, i + 1, depth)
    }
}

/// First top-level comma of `s`.
fn find_top_level_comma(s: &[char]) -> (r: Option<usize>)
    ensures
        match r {
            Some(i) => i == top_level_comma_from(s@, 0, 0) && i < s@.len(),
            None => top_level_comma_from(s@, 0, 0) == -1,
        },
{
    let mut depth: usize = 0;
    let mut i: usize = 0;
    while i < s.len()
        invariant
            i <= s@.len(),
            depth <= i,
            top_level_comma_from(s@, 0, 0) == top_level_comma_from(s@, i as int, depth as nat),
        decreases s@.len() - i,
    {
        let c = s[i];
        if c == '[' || c == '(' {
            depth = depth + 1;
        } else if c == ']' || c == ')' {
            if depth > 0 {
                depth = depth - 1;
            }
        } else if c == ',' && depth == 0 {
            return Some(i);
        }
        i = i + 1;
    }
    None
}

/// The first argument of `Annotated[...]` / `Ann[...]`, trimmed.
pub open spec fn annotated_inner(s: Seq<char>) -> Option<Seq<char>> {
    let g = generic_inner2(s, "Annotated"@, "Ann"@);
    match g {
        Some(inner) => {
            let c = top_level_comma_from(inner, 0, 0);
            if c >= 0 {
                Some(trim(inner.take(c)))
            } else {
                Some(trim(inner))
            }
        },
        None => None,
    }
}

fn strip_annotated(s: &[char]) -> (r: Option<Vec<char>>)
    ensures
        match r {
            Some(v) => annotated_inner(s@) == Some(v@),
            None => annotated_inner(s@).is_none(),
        },
{
    match strip_generic2(s, "Annotated", "Ann") {
        Some(inner) => match find_top_level_comma(inner.as_slice()) {
            Some(c) => {
                let head = slice_vec(inner.as_slice(), 0, c);
                assert(head@ == inner@.take(c as int));
                Some(trim_exec(head.as_slice()))
            },
            None => Some(trim_exec(inner.as_slice())),
        },
        None => None,
    }
}

/// The SQLAlchemy column type names recognised without an import.
pub open spec fn sa_type_name(s: Seq<char>) -> bool {
    s == "String"@ || s == "Integer"@ || s == "Float"@ || s == "Boolean"@ || s == "DateTime"@ || s
        == "Text"@ || s == "BigInteger"@ || s == "SmallInteger"@ || s == "Numeric"@ || s
        == "Date"@ || s == "Time"@ || s == "LargeBinary"@ || s == "JSON"@ || s == "ARRAY"@ || s
        == "UUID"@ || s == "Interval"@
}

fn is_sa_type_name(s: &str) -> (r: bool)
    ensures
        r == sa_type_name(s@),
{
    str_eq(s, "String") || str_eq(s, "Integer") || str_eq(s, "Float") || str_eq(s, "Boolean")
        || str_eq(s, "DateTime") || str_eq(s, "Text") || str_eq(s, "BigInteger") || str_eq(
        s,
        "SmallInteger",
    ) || str_eq(s, "Numeric") || str_eq(s, "Date") || str_eq(s, "Time") || str_eq(
        s,
        "LargeBinary",
    ) || str_eq(s, "JSON") || str_eq(s, "ARRAY") || str_eq(s, "UUID") || str_eq(s, "Interval")
}

/// The last `.`-separated segment of `s` (`rsplit('.').next()`).
pub open spec fn last_segment(s: Seq<char>) -> Seq<char> {
    let d = rfind(s, "."@);
    if d >= 0 {
        s.skip(d + 1)
    } else {
        s
    }
}

/// Whether `parse_inner_type` is defined on `s`: the type's own `(` must
/// not follow its last `)` (slicing such text panics).
pub open spec fn inner_type_ok(s0: Seq<char>) -> bool
    decreases s0.len(),
{
    let s = trim(s0);
    proof {
        lemma_trim_len(s0);
        lemma_generic_inner_shorter(s, "Optional"@);
        lemma_generic_inner_shorter(s, "Opt"@);
        lemma_annotated_shorter(s);
        if union_none(s).is_some() {
            lemma_union_none_shorter(s);
        }
    }
    if generic_inner2(s, "Optional"@, "Opt"@).is_some() {
        inner_type_ok(generic_inner2(s, "Optional"@, "Opt"@).unwrap())
    } else if union_none(s).is_some() {
        inner_type_ok(union_none(s).unwrap())
    } else if generic_inner2(s, "List"@, "list"@).is_some() {
        true
    } else if annotated_inner(s).is_some() {
        inner_type_ok(annotated_inner(s).unwrap())
    } else if (starts_with(s, "\""@) && ends_with(s, "\""@)) || (starts_with(s, "'"@) && ends_with(
        s,
        "'"@,
    )) {
        true
    } else if s == "int"@ || s == "str"@ || s == "float"@ || s == "bool"@ || s == "datetime"@ || s
        == "datetime.datetime"@ {
        true
    } else {
        let p = find(s, "("@);
        p < 0 || rfind(s, ")"@) < 0 || rfind(s, ")"@) >= p + 1
    }
}

/// The type a (trimmed) annotation body denotes; see `parse_inner_type`.
pub open spec fn inner_type(s0: Seq<char>, st: SymV) -> TypeV
    decreases s0.len(),
{
    let s = trim(s0);
    proof {
        lemma_trim_len(s0);
        lemma_generic_inner_shorter(s, "Optional"@);
        lemma_generic_inner_shorter(s, "Opt"@);
        lemma_annotated_shorter(s);
        if union_none(s).is_some() {
            lemma_union_none_shorter(s);
        }
    }
    if generic_inner2(s, "Optional"@, "Opt"@).is_some() {
        TypeV::Optional(Box::new(inner_type(generic_inner2(s, "Optional"@, "Opt"@).unwrap(), st)))
    } else if union_none(s).is_some() {
        TypeV::Optional(Box::new(inner_type(union_none(s).unwrap(), st)))
    } else if generic_inner2(s, "List"@, "list"@).is_some() {
        TypeV::List(unquoted(trim(generic_inner2(s, "List"@, "list"@).unwrap())))
    } else if annotated_inner(s).is_some() {
        inner_type(annotated_inner(s).unwrap(), st)
    } else if (starts_with(s, "\""@) && ends_with(s, "\""@)) || (starts_with(s, "'"@) && ends_with(
        s,
        "'"@,
    )) {
        TypeV::ForwardRef(unquoted(s))
    } else if s == "int"@ {
        TypeV::Int
    } else if s == "str"@ {
        TypeV::Str
    } else if s == "float"@ {
        TypeV::Float
    } else if s == "bool"@ {
        TypeV::Bool
    } else if s == "datetime"@ || s == "datetime.datetime"@ {
        TypeV::DateTime
    } else if find(s, "("@) >= 0 {
        let p = find(s, "("@);
        let close = if rfind(s, ")"@) >= 0 { rfind(s, ")"@) } else { s.len() as int };
        let args_text = s.subrange(p + 1, close);
        TypeV::SqlType(
            s.take(p),
            if trim(args_text).len() == 0 {
                Seq::empty()
            } else {
                split(args_text, ',').map_values(|a: Seq<char>| trim(a))
            },
        )
    } else if sa_type_name(s) {
        TypeV::SqlType(s, Seq::empty())
    } else if resolve_spec(st, s).is_some() && sa_type_name(last_segment(resolve_spec(st, s).unwrap())) {
        TypeV::SqlType(last_segment(resolve_spec(st, s).unwrap()), Seq::empty())
    } else {
        TypeV::Unknown(s)
    }
}

pub proof fn lemma_trim_len(s: Seq<char>)
    ensures
        trim(s).len() <= s.len(),
        trim_start(s).len() <= s.len(),
        trim_end(s).len() <= s.len(),
    decreases s.len(),
{
    lemma_trim_start_len(s);
    lemma_trim_end_len(trim_start(s));
    lemma_trim_end_len(s);
}

pub proof fn lemma_trim_start_len(s: Seq<char>)
    ensures
        trim_start(s).len() <= s.len(),
    decreases s.len(),
{
    if s.len() > 0 && is_ws(s[0]) {
        lemma_trim_start_len(s.drop_first());
    }
}

pub proof fn lemma_trim_end_len(s: Seq<char>)
    ensures
        trim_end(s).len() <= s.len(),
    decreases s.len(),
{
    if s.len() > 0 && is_ws(s.last()) {
        lemma_trim_end_len(s.drop_last());
    }
}

/// The pieces of `t` split at commas, each trimmed, as strings.
fn split_args(t: &[char]) -> (r: Vec<String>)
    ensures
        views(r@) == split(t@, ',').map_values(|a: Seq<char>| trim(a)),
{
    let parts = split_exec(t, ',');
    let ghost sp = split(t@, ',');
    let mut out: Vec<String> = Vec::new();
    let mut i: usize = 0;
    while i < parts.len()
        invariant
            i <= parts@.len(),
            parts@.len() == sp.len(),
            sp == split(t@, ','),
            forall|k: int| 0 <= k < parts@.len() ==> #[trigger] parts@[k]@ == sp[k],
            views(out@) == sp.take(i as int).map_values(|a: Seq<char>| trim(a)),
        decreases parts@.len() - i,
    {
        let piece = trim_exec(parts[i].as_slice());
        let ghost old_out = out@;
        out.push(from_chars(piece.as_slice()));
        proof {
            assert(views(out@) =~= views(old_out).push(piece@));
            assert(sp.take(i + 1) =~= sp.take(i as int).push(sp[i as int]));
            assert(sp.take(i + 1).map_values(|a: Seq<char>| trim(a)) =~= sp.take(i as int).map_values(|a: Seq<char>| trim(a)).push(trim(sp[i as int])));
        }
        i = i + 1;
    }
    assert(sp.take(i as int) =~= sp);
    out
}

/// Parse the text inside `Mapped[...]` into a `MappedType`.
pub fn parse_inner_type(type_str: &str, sym: &SymbolTable) -> (t: MappedType)
    requires
        inner_type_ok(type_str@),
    ensures
        t@ == inner_type(type_str@, sym@),
{
    let cs = to_chars(type_str);
    parse_inner_chars(cs.as_slice(), sym)
}

fn parse_inner_chars(s0: &[char], sym: &SymbolTable) -> (t: MappedType)
    requires
        inner_type_ok(s0@),
    ensures
        t@ == inner_type(s0@, sym@),
    decreases s0@.len(),
{
    let sv = trim_exec(s0);
    let s = sv.as_slice();
    proof {
        lemma_trim_len(s0@);
    }
    if let Some(inner) = strip_generic2(s, "Optional", "Opt") {
        proof {
            lemma_generic_inner_shorter(s@, "Optional"@);
            lemma_generic_inner_shorter(s@, "Opt"@);
        }
        let t = parse_inner_chars(inner.as_slice(), sym);
        return MappedType::Optional(Box::new(t));
    }
    if let Some(inner) = strip_union_none(s) {
        proof {
            lemma_union_none_shorter(s@);
        }
        let t = parse_inner_chars(inner.as_slice(), sym);
        return MappedType::Optional(Box::new(t));
    }
    if let Some(inner) = strip_generic2(s, "List", "list") {
        let a = trim_exec(inner.as_slice());
        let c = strip_quotes(a.as_slice());
        return MappedType::List(from_chars(c.as_slice()));
    }
    if let Some(inner) = strip_annotated(s) {
        proof {
            lemma_annotated_shorter(s@);
        }
        return parse_inner_chars(inner.as_slice(), sym);
    }
    let dq = to_chars("\"");
    let q = to_chars("'");
    if (starts_with_exec(s, dq.as_slice()) && ends_with_exec(s, dq.as_slice())) || (
    starts_with_exec(s, q.as_slice()) && ends_with_exec(s, q.as_slice())) {
        let c = strip_quotes(s);
        return MappedType::ForwardRef(from_chars(c.as_slice()));
    }
    let text = from_chars(s);
    if str_eq(text.as_str(), "int") {
        return MappedType::Int;
    }
    if str_eq(text.as_str(), "str") {
        return MappedType::Str;
    }
    if str_eq(text.as_str(), "float") {
        return MappedType::Float;
    }
    if str_eq(text.as_str(), "bool") {
        return MappedType::Bool;
    }
    if str_eq(text.as_str(), "datetime") || str_eq(text.as_str(), "datetime.datetime") {
        return MappedType::DateTime;
    }
    let open = to_chars("(");
    let close = to_chars(")");
    if let Some(p) = find_exec(s, open.as_slice()) {
        proof {
            lemma_find_props(s@, open@);
            reveal_strlit("(");
        }
        let c = match rfind_exec(s, close.as_slice()) {
            Some(c) => c,
            None => s.len(),
        };
        proof {
            lemma_last_upto_props(s@, close@, s@.len() - close@.len());
        }
        let name = from_chars(slice_vec(s, 0, p).as_slice());
        let args_text = slice_vec(s, p + 1, c);
        let trimmed = trim_exec(args_text.as_slice());
        let args = if trimmed.len() == 0 {
            Vec::new()
        } else {
            split_args(args_text.as_slice())
        };
        proof {
            if trimmed@.len() == 0 {
                assert(views(args@) =~= Seq::<Seq<char>>::empty());
            }
        }
        return MappedType::SqlType { name, args };
    }
    if is_sa_type_name(text.as_str()) {
        let args: Vec<String> = Vec::new();
        assert(views(args@) =~= Seq::<Seq<char>>::empty());
        return MappedType::SqlType { name: text, args };
    }
    if let Some(canonical) = sym.resolve(text.as_str()) {
        let cc = to_chars(canonical.as_str());
        let dot = to_chars(".");
        let base = match rfind_exec(cc.as_slice(), dot.as_slice()) {
            Some(d) => {
                proof {
                    lemma_last_upto_props(cc@, dot@, cc@.len() - dot@.len());
                    reveal_strlit(".");
                }
                let n = cc.len();
                assert(d + 1 <= n);
                slice_vec(cc.as_slice(), d + 1, n)
            },
            None => cc,
        };
        let base_s = from_chars(base.as_slice());
        if is_sa_type_name(base_s.as_str()) {
            let args: Vec<String> = Vec::new();
            assert(views(args@) =~= Seq::<Seq<char>>::empty());
            return MappedType::SqlType { name: base_s, args };
        }
    }
    MappedType::Unknown(text)
}

pub proof fn lemma_union_none_shorter(s: Seq<char>)
    requires
        union_none(s).is_some(),
    ensures
        union_none(s).unwrap().len() < s.len(),
{
    reveal_strlit(" | None]");
    reveal_strlit(" | None");
    reveal_strlit("None | ");
    if union_suffix(s, " | None]"@).is_some() {
        let idx = rfind(s, " | None]"@);
        lemma_last_upto_props(s, " | None]"@, s.len() - 8);
        lemma_trim_len(s.take(idx));
    } else if union_suffix(s, " | None"@).is_some() {
        let idx = rfind(s, " | None"@);
        lemma_last_upto_props(s, " | None"@, s.len() - 7);
        lemma_trim_len(s.take(idx));
    } else {
        lemma_trim_len(s.skip(7));
    }
}

pub proof fn lemma_generic_inner_shorter(s: Seq<char>, name: Seq<char>)
    ensures
        generic_inner(s, name) is Some ==> generic_inner(s, name).unwrap().len() < s.len(),
{
    reveal_strlit("[");
    reveal_strlit("]");
    let prefix = name + "["@;
    if generic_inner(s, name) is Some {
        assert(s.len() >= prefix.len());
        if s.len() == prefix.len() {
            assert(s.take(prefix.len() as int)[prefix.len() - 1] == '[');
            assert(s.skip(s.len() - 1)[0] == ']');
            assert(false);
        }
    }
}

pub proof fn lemma_annotated_shorter(s: Seq<char>)
    ensures
        annotated_inner(s) is Some ==> annotated_inner(s).unwrap().len() < s.len(),
{
    lemma_generic_inner_shorter(s, "Annotated"@);
    lemma_generic_inner_shorter(s, "Ann"@);
    if annotated_inner(s) is Some {
        let inner = generic_inner2(s, "Annotated"@, "Ann"@).unwrap();
        assert(inner.len() < s.len());
        let c = top_level_comma_from(inner, 0, 0);
        lemma_trim_len(inner);
        if c >= 0 {
            lemma_tlc_bound(inner, 0, 0);
            lemma_trim_len(inner.take(c));
        }
    }
}

pub proof fn lemma_tlc_bound(s: Seq<char>, i: int, d: nat)
    ensures
        top_level_comma_from(s, i, d) == -1 || (i <= top_level_comma_from(s, i, d) < s.len()),
    decreases s.len() - i,
{
    if i >= 0 && i < s.len() {
        if s[i] == '[' || s[i] == '(' {
            lemma_tlc_bound(s, i + 1, d + 1);
        } else if s[i] == ']' || s[i] == ')' {
            lemma_tlc_bound(s, i + 1, if d == 0 { 0 } else { (d - 1) as nat });
        } else if s[i] == ',' && d == 0 {
        } else {
            lemma_tlc_bound(s, i + 1, d);
        }
    }
}

/// The part of an annotation inside `Mapped[...]` (or the whole text).
pub open spec fn mapped_body(a: Seq<char>) -> Seq<char> {
    let open = find(a, "["@);
    if open >= 0 && (trim(a.take(open)) == "Mapped"@ || ends_with(trim(a.take(open)), ".Mapped"@)) {
        let close = if rfind(a, "]"@) >= 0 { rfind(a, "]"@) } else { a.len() as int };
        a.subrange(open + 1, close)
    } else {
        a
    }
}

/// Whether `mapped_body` is defined on `a`: its last `]` must not precede the `[`.
pub open spec fn mapped_body_ok(a: Seq<char>) -> bool {
    let open = find(a, "["@);
    !(open >= 0 && (trim(a.take(open)) == "Mapped"@ || ends_with(trim(a.take(open)), ".Mapped"@))
        && rfind(a, "]"@) >= 0 && rfind(a, "]"@) < open + 1)
}

/// Whether `parse_mapped_type` is defined on `a`.
pub open spec fn mapped_type_ok(a: Seq<char>) -> bool {
    mapped_body_ok(a) && inner_type_ok(trim(mapped_body(a)))
}

/// The text inside `Mapped[...]`, or the whole annotation when it is not so wrapped.
pub fn strip_mapped_wrapper(annotation: &str) -> (r: Vec<char>)
    requires
        mapped_body_ok(annotation@),
    ensures
        r@ == mapped_body(annotation@),
{
    let a = to_chars(annotation);
    let ob = to_chars("[");
    let cb = to_chars("]");
    if let Some(open) = find_exec(a.as_slice(), ob.as_slice()) {
        proof {
            lemma_find_props(a@, ob@);
            reveal_strlit("[");
        }
        let head = slice_vec(a.as_slice(), 0, open);
        let name = trim_exec(head.as_slice());
        let m = to_chars("Mapped");
        let dm = to_chars(".Mapped");
        if chars_eq(name.as_slice(), m.as_slice()) || ends_with_exec(name.as_slice(), dm.as_slice()) {
            let close = match rfind_exec(a.as_slice(), cb.as_slice()) {
                Some(c) => c,
                None => a.len(),
            };
            proof {
                lemma_last_upto_props(a@, cb@, a@.len() - cb@.len());
            }
            return slice_vec(a.as_slice(), open + 1, close);
        }
    }
    a
}

/// Parse a `Mapped[...]` annotation text into a `MappedType`.
pub fn parse_mapped_type(annotation: &str, sym: &SymbolTable) -> (t: MappedType)
    requires
        mapped_type_ok(annotation@),
    ensures
        t@ == inner_type(trim(mapped_body(annotation@)), sym@),
{
    let body = strip_mapped_wrapper(annotation);
    let t = trim_exec(body.as_slice());
    parse_inner_chars(t.as_slice(), sym)
}

/// The model a relationship annotation names, if any.
pub open spec fn model_of_type(t: TypeV) -> Option<Seq<char>>
    decreases t,
{
    match t {
        TypeV::List(n) => Some(n),
        TypeV::ForwardRef(n) => Some(n),
        TypeV::Optional(inner) => model_of_type(*inner),
        _ => None,
    }
}

/// The model a relationship annotation names, if any.
pub fn extract_model_from_mapped_type(mt: &MappedType) -> (r: Option<String>)
    ensures
        match r {
            Some(s) => model_of_type(mt@) == Some(s@),
            None => model_of_type(mt@).is_none(),
        },
    decreases mt,
{
    match mt {
        MappedType::List(name) => Some(name.clone()),
        MappedType::ForwardRef(name) => Some(name.clone()),
        MappedType::Optional(inner) => extract_model_from_mapped_type(inner),
        _ => None,
    }
}

/// Nullability a column gets from its annotation: Optional is nullable, a
/// known concrete type is not, anything else keeps the explicit argument.
pub open spec fn nullable_of(t: TypeV, explicit: bool) -> bool {
    match t {
        TypeV::Optional(_) => true,
        TypeV::Int | TypeV::Str | TypeV::Float | TypeV::Bool | TypeV::DateTime | TypeV::SqlType(
            _,
            _,
        ) => false,
        _ => explicit,
    }
}

pub fn infer_nullable(mt: &MappedType, explicit: bool) -> (r: bool)
    ensures
        r == nullable_of(mt@, explicit),
{
    match mt {
        MappedType::Optional(_) => true,
        MappedType::Int | MappedType::Str | MappedType::Float | MappedType::Bool
        | MappedType::DateTime | MappedType::SqlType { .. } => false,
        _ => explicit,
    }
}

/// Whether `strip_string_quotes` is defined on `s`.
pub fn quotes_ok(s: &str) -> (r: bool)
    ensures
        r == string_quotes_ok(s@),
{
    let cs = to_chars(s);
    let tq = to_chars("\"\"\"");
    let sq = to_chars("'''");
    !(starts_with_exec(cs.as_slice(), tq.as_slice()) && ends_with_exec(cs.as_slice(), tq.as_slice())
        && cs.len() < 6) && !(starts_with_exec(cs.as_slice(), sq.as_slice()) && ends_with_exec(
        cs.as_slice(),
        sq.as_slice(),
    ) && cs.len() < 6)
}

fn inner_type_ok_chars(s0: &[char]) -> (r: bool)
    ensures
        r == inner_type_ok(s0@),
    decreases s0@.len(),
{
    let sv = trim_exec(s0);
    let s = sv.as_slice();
    proof {
        lemma_trim_len(s0@);
    }
    if let Some(inner) = strip_generic2(s, "Optional", "Opt") {
        proof {
            lemma_generic_inner_shorter(s@, "Optional"@);
            lemma_generic_inner_shorter(s@, "Opt"@);
        }
        return inner_type_ok_chars(inner.as_slice());
    }
    if let Some(inner) = strip_union_none(s) {
        proof {
            lemma_union_none_shorter(s@);
        }
        return inner_type_ok_chars(inner.as_slice());
    }
    if let Some(_inner) = strip_generic2(s, "List", "list") {
        return true;
    }
    if let Some(inner) = strip_annotated(s) {
        proof {
            lemma_annotated_shorter(s@);
        }
        return inner_type_ok_chars(inner.as_slice());
    }
    let dq = to_chars("\"");
    let q = to_chars("'");
    if (starts_with_exec(s, dq.as_slice()) && ends_with_exec(s, dq.as_slice())) || (
    starts_with_exec(s, q.as_slice()) && ends_with_exec(s, q.as_slice())) {
        return true;
    }
    let text = from_chars(s);
    if str_eq(text.as_str(), "int") || str_eq(text.as_str(), "str") || str_eq(text.as_str(), "float")
        || str_eq(text.as_str(), "bool") || str_eq(text.as_str(), "datetime") || str_eq(
        text.as_str(),
        "datetime.datetime",
    ) {
        return true;
    }
    let open = to_chars("(");
    let close = to_chars(")");
    match find_exec(s, open.as_slice()) {
        None => true,
        Some(p) => match rfind_exec(s, close.as_slice()) {
            None => true,
            Some(c) => c > p,
        },
    }
}

/// Whether `parse_mapped_type` is defined on `a`.
pub fn mapped_type_ok_exec(a: &str) -> (r: bool)
    ensures
        r == mapped_type_ok(a@),
{
    let cs = to_chars(a);
    let ob = to_chars("[");
    let cb = to_chars("]");
    let body_ok = match find_exec(cs.as_slice(), ob.as_slice()) {
        None => true,
        Some(open) => {
            proof {
                lemma_find_props(cs@, ob@);
                reveal_strlit("[");
            }
            let head = slice_vec(cs.as_slice(), 0, open);
            assert(head@ == a@.take(open as int));
            let name = trim_exec(head.as_slice());
            let m = to_chars("Mapped");
            let dm = to_chars(".Mapped");
            if chars_eq(name.as_slice(), m.as_slice()) || ends_with_exec(name.as_slice(), dm.as_slice()) {
                match rfind_exec(cs.as_slice(), cb.as_slice()) {
                    None => true,
                    Some(c) => c > open,
                }
            } else {
                true
            }
        },
    };
    if !body_ok {
        return false;
    }
    let body = strip_mapped_wrapper(a);
    let t = trim_exec(body.as_slice());
    inner_type_ok_chars(t.as_slice())
}

/// Unwrapping `Mapped[...]` commutes with the inner-type parse: the type of
/// `Mapped[t]` is the type of `t`, and an annotation with no `[` is parsed
/// as it stands.
pub proof fn law_mapped_unwrap(t: Seq<char>, a: Seq<char>, sv: SymV)
    ensures
        inner_type(trim(mapped_body("Mapped["@ + t + "]"@)), sv) == inner_type(t, sv),
        inner_type(trim(mapped_body("sa.orm.Mapped["@ + t + "]"@)), sv) == inner_type(t, sv),
        !a.contains('[') ==> inner_type(trim(mapped_body(a)), sv) == inner_type(a, sv),
{
    lemma_qualified_mapped_unwrap(t, sv);
    reveal_strlit("Mapped[");
    reveal_strlit("]");
    reveal_strlit("[");
    reveal_strlit("Mapped");
    let w = "Mapped["@ + t + "]"@;
    let ob = "["@;
    assert(occurs_at(w, ob, 6)) by {
        assert(w.subrange(6, 7) =~= ob);
    }
    lemma_find_props(w, ob);
    if find(w, ob) != 6 {
        if 0 <= find(w, ob) < 6 {
            let j = find(w, ob);
            assert(w.subrange(j, j + 1)[0] == w[j]);
        } else {
            assert(contains(w, ob));
        }
    }
    assert(find(w, ob) == 6);
    let cb = "]"@;
    assert(occurs_at(w, cb, w.len() - 1)) by {
        assert(w.subrange(w.len() - 1, w.len() as int) =~= cb);
    }
    assert(rfind(w, cb) == w.len() - 1);
    assert(w.take(6) =~= "Mapped"@);
    assert(trim_start("Mapped"@) == "Mapped"@);
    assert(trim_end("Mapped"@) == "Mapped"@);
    assert(w.subrange(7, w.len() - 1) =~= t);
    crate::text::lemma_trim_idem(t);
    if !a.contains('[') {
        lemma_find_props(a, ob);
        if find(a, ob) >= 0 {
            let j = find(a, ob);
            assert(a.subrange(j, j + 1)[0] == a[j]);
            assert(a.contains(a[j]));
        }
        crate::text::lemma_trim_idem(a);
    }
}

/// `sa.orm.Mapped[t]` unwraps to `t` as `Mapped[t]` does.
proof fn lemma_qualified_mapped_unwrap(t: Seq<char>, sv: SymV)
    ensures
        inner_type(trim(mapped_body("sa.orm.Mapped["@ + t + "]"@)), sv) == inner_type(t, sv),
{
    reveal_strlit("sa.orm.Mapped[");
    reveal_strlit("sa.orm.Mapped");
    reveal_strlit(".Mapped");
    reveal_strlit("]");
    reveal_strlit("[");
    let w = "sa.orm.Mapped["@ + t + "]"@;
    let ob = "["@;
    assert(occurs_at(w, ob, 13)) by {
        assert(w.subrange(13, 14) =~= ob);
    }
    lemma_find_props(w, ob);
    if find(w, ob) != 13 {
        if 0 <= find(w, ob) < 13 {
            let j = find(w, ob);
            assert(w.subrange(j, j + 1)[0] == w[j]);
        } else {
            assert(contains(w, ob));
        }
    }
    assert(find(w, ob) == 13);
    let cb = "]"@;
    assert(occurs_at(w, cb, w.len() - 1)) by {
        assert(w.subrange(w.len() - 1, w.len() as int) =~= cb);
    }
    assert(rfind(w, cb) == w.len() - 1);
    let head = w.take(13);
    assert(head =~= "sa.orm.Mapped"@);
    assert(trim_start(head) == head);
    assert(trim_end(head) == head);
    assert(head.skip(head.len() - 7) =~= ".Mapped"@);
    assert(ends_with(trim(head), ".Mapped"@));
    assert(w.subrange(14, w.len() - 1) =~= t);
    crate::text::lemma_trim_idem(t);
}

/// A word with no whitespace, brackets or quotes.
pub open spec fn plain_word(w: Seq<char>) -> bool {
    w.len() > 0 && forall|j: int|
        0 <= j < w.len() ==> !is_ws(w[j]) && w[j] != ']' && w[j] != '[' && w[j] != '"' && w[j] != '\''
}

/// A name of ASCII letters, digits and underscores.
pub open spec fn ident(w: Seq<char>) -> bool {
    w.len() > 0 && forall|j: int|
        0 <= j < w.len() ==> ('a' <= w[j] <= 'z') || ('A' <= w[j] <= 'Z') || ('0' <= w[j] <= '9') || w[j]
            == '_'
}

/// The names of the plain Python types.
pub open spec fn type_word(w: Seq<char>) -> bool {
    w == "int"@ || w == "str"@ || w == "float"@ || w == "bool"@ || w == "datetime"@
}

/// The types whose shown text parses back to them: the plain types,
/// `Optional` of such a type, `List` and forward references naming a plain
/// word, SQL types named by an identifier with arguments that are plain list
/// items (and, without arguments, a known SQLAlchemy type name), and unknown
/// identifiers that are no SQLAlchemy type name and that the symbol table
/// does not resolve.
pub open spec fn round_trip_type(t: TypeV, sv: SymV) -> bool
    decreases t,
{
    match t {
        TypeV::Int | TypeV::Str | TypeV::Float | TypeV::Bool | TypeV::DateTime => true,
        TypeV::Optional(inner) => round_trip_type(*inner, sv),
        TypeV::List(n) => plain_word(n),
        TypeV::ForwardRef(n) => plain_word(n),
        TypeV::SqlType(n, args) => ident(n) && !type_word(n) && (args.len() == 0 ==> sa_type_name(n))
            && forall|i: int| 0 <= i < args.len() ==> crate::config::plain_code(#[trigger] args[i]),
        TypeV::Unknown(n) => ident(n) && !type_word(n) && !sa_type_name(n) && resolve_spec(sv, n) is None,
    }
}

proof fn lemma_no_pattern(s: Seq<char>, p: Seq<char>, k: int, c: char)
    requires
        0 <= k < p.len(),
        p[k] == c,
        forall|j: int| 0 <= j < s.len() ==> s[j] != c,
    ensures
        rfind(s, p) == -1,
        !starts_with(s, p),
{
    lemma_last_upto_props(s, p, s.len() - p.len());
    if rfind(s, p) != -1 {
        let i = rfind(s, p);
        assert(s.subrange(i, i + p.len())[k] == s[i + k]);
    }
    if starts_with(s, p) {
        assert(s.take(p.len() as int)[k] == s[k]);
    }
}

proof fn lemma_trim_same(s: Seq<char>)
    requires
        s.len() > 0,
        !is_ws(s[0]),
        !is_ws(s.last()),
    ensures
        trim(s) == s,
{
}

/// A text that is neither a generic, a union, an annotated type nor quoted
/// is compared with the plain type names.
proof fn lemma_not_wrapped(s: Seq<char>)
    requires
        s.len() > 0,
        s.last() != ']',
        s[0] != '"' && s[0] != '\'',
        forall|j: int| 0 <= j < s.len() ==> s[j] != ' ',
    ensures
        generic_inner2(s, "Optional"@, "Opt"@).is_none(),
        union_none(s).is_none(),
        generic_inner2(s, "List"@, "list"@).is_none(),
        annotated_inner(s).is_none(),
        !((starts_with(s, "\""@) && ends_with(s, "\""@)) || (starts_with(s, "'"@) && ends_with(s, "'"@))),
{
    reveal_strlit("]");
    reveal_strlit(" | None]");
    reveal_strlit(" | None");
    reveal_strlit("None | ");
    reveal_strlit("\"");
    reveal_strlit("'");
    if ends_with(s, "]"@) {
        assert(s.skip(s.len() - 1)[0] == s.last());
    }
    lemma_no_pattern(s, " | None]"@, 0, ' ');
    lemma_no_pattern(s, " | None"@, 0, ' ');
    lemma_no_pattern(s, "None | "@, 4, ' ');
    if starts_with(s, "\""@) {
        assert(s.take(1)[0] == s[0]);
    }
    if starts_with(s, "'"@) {
        assert(s.take(1)[0] == s[0]);
    }
}

/// Parsing undoes the display of a type: the shown text of every type that
/// `round_trip_type` admits parses back to the same type.
pub proof fn law_display_round_trip(t: TypeV, sv: SymV)
    requires
        round_trip_type(t, sv),
    ensures
        inner_type(crate::types::type_text(t), sv) == t,
    decreases t,
{
    let s = crate::types::type_text(t);
    reveal_strlit("int");
    reveal_strlit("str");
    reveal_strlit("float");
    reveal_strlit("bool");
    reveal_strlit("datetime");
    reveal_strlit("Optional[");
    reveal_strlit("Optional");
    reveal_strlit("List[");
    reveal_strlit("List");
    reveal_strlit("]");
    reveal_strlit("[");
    reveal_strlit("\"");
    match t {
        TypeV::Optional(inner) => {
            law_display_round_trip(*inner, sv);
            lemma_optional_round_trip(*inner, sv);
        },
        TypeV::List(n) => {
            assert(s =~= "List["@ + n + "]"@);
            lemma_trim_same(s);
            assert(("List"@ + "["@) =~= "List["@);
            assert(s.take(5) =~= "List["@);
            assert(s.skip(s.len() - 1) =~= "]"@);
            assert(s.subrange(5, s.len() - 1) =~= n);
            assert(generic_inner(s, "Optional"@).is_none()) by {
                if starts_with(s, "Optional["@) {
                    assert(s.take(9)[0] == 'L');
                }
            }
            assert(generic_inner(s, "Opt"@).is_none()) by {
                reveal_strlit("Opt");
                assert(("Opt"@ + "["@).len() == 4);
                if starts_with(s, "Opt"@ + "["@) {
                    assert(s.take(4)[0] == 'L');
                    assert((("Opt"@ + "["@))[0] == 'O');
                }
            }
            assert(union_none(s).is_none()) by {
                reveal_strlit(" | None]");
                reveal_strlit(" | None");
                reveal_strlit("None | ");
                assert forall|j: int| 0 <= j < s.len() implies s[j] != ' ' by {
                    if 5 <= j < s.len() - 1 {
                        assert(s[j] == n[j - 5]);
                    }
                }
                lemma_no_pattern(s, " | None]"@, 0, ' ');
                lemma_no_pattern(s, " | None"@, 0, ' ');
                lemma_no_pattern(s, "None | "@, 4, ' ');
            }
            lemma_trim_same(n);
            assert(trim_start_char(n, '"') == n);
            assert(trim_end_char(n, '"') == n);
            assert(trim_start_char(n, '\'') == n);
            assert(trim_end_char(n, '\'') == n);
        },
        TypeV::ForwardRef(n) => {
            assert(s =~= "\""@ + n + "\""@);
            lemma_trim_same(s);
            assert forall|j: int| 0 <= j < s.len() implies s[j] != ' ' by {
                if 1 <= j < s.len() - 1 {
                    assert(s[j] == n[j - 1]);
                }
            }
            assert(generic_inner(s, "Optional"@).is_none()) by {
                if ends_with(s, "]"@) {
                    assert(s.skip(s.len() - 1)[0] == s.last());
                }
            }
            assert(generic_inner(s, "Opt"@).is_none()) by {
                if ends_with(s, "]"@) {
                    assert(s.skip(s.len() - 1)[0] == s.last());
                }
            }
            assert(generic_inner(s, "List"@).is_none()) by {
                if ends_with(s, "]"@) {
                    assert(s.skip(s.len() - 1)[0] == s.last());
                }
            }
            assert(generic_inner(s, "list"@).is_none()) by {
                if ends_with(s, "]"@) {
                    assert(s.skip(s.len() - 1)[0] == s.last());
                }
            }
            assert(generic_inner(s, "Annotated"@).is_none()) by {
                if ends_with(s, "]"@) {
                    assert(s.skip(s.len() - 1)[0] == s.last());
                }
            }
            assert(generic_inner(s, "Ann"@).is_none()) by {
                if ends_with(s, "]"@) {
                    assert(s.skip(s.len() - 1)[0] == s.last());
                }
            }
            assert(union_none(s).is_none()) by {
                reveal_strlit(" | None]");
                reveal_strlit(" | None");
                reveal_strlit("None | ");
                lemma_no_pattern(s, " | None]"@, 0, ' ');
                lemma_no_pattern(s, " | None"@, 0, ' ');
                lemma_no_pattern(s, "None | "@, 4, ' ');
            }
            assert(s.take(1) =~= "\""@);
            assert(s.skip(s.len() - 1) =~= "\""@);
            assert(trim_start_char(s, '"') == trim_start_char(s.drop_first(), '"'));
            assert(s.drop_first() =~= n + "\""@);
            assert(trim_start_char(n + "\""@, '"') == n + "\""@);
            assert((n + "\""@).drop_last() =~= n);
            assert(trim_end_char(n + "\""@, '"') == trim_end_char(n, '"'));
            assert(trim_end_char(n, '"') == n);
            assert(trim_start_char(n, '\'') == n);
            assert(trim_end_char(n, '\'') == n);
        },
        TypeV::SqlType(n, args) => {
            if args.len() == 0 {
                lemma_ident_word(n);
                assert(s == n);
                assert(args =~= Seq::<Seq<char>>::empty());
                assert(inner_type(s, sv) == TypeV::SqlType(n, Seq::<Seq<char>>::empty()));
            } else {
                lemma_sql_with_args(n, args, sv);
            }
        },
        TypeV::Unknown(n) => {
            lemma_ident_word(n);
            assert(s == n);
            assert(inner_type(s, sv) == TypeV::Unknown(n));
        },
        _ => {
            lemma_trim_same(s);
            lemma_not_wrapped(s);
        },
    }
}

/// `Optional[d]` parses to `Optional` of what `d` parses to.
proof fn lemma_optional_round_trip(inner: TypeV, sv: SymV)
    requires
        inner_type(crate::types::type_text(inner), sv) == inner,
    ensures
        inner_type(crate::types::type_text(TypeV::Optional(Box::new(inner))), sv) == TypeV::Optional(
            Box::new(inner),
        ),
{
    reveal_strlit("Optional[");
    reveal_strlit("Optional");
    reveal_strlit("]");
    reveal_strlit("[");
    let d = crate::types::type_text(inner);
    let s = crate::types::type_text(TypeV::Optional(Box::new(inner)));
    assert(s =~= "Optional["@ + d + "]"@);
    lemma_trim_same(s);
    assert(("Optional"@ + "["@) =~= "Optional["@);
    assert(s.take(9) =~= "Optional["@);
    assert(s.skip(s.len() - 1) =~= "]"@);
    assert(s.subrange(9, s.len() - 1) =~= d);
    assert(generic_inner(s, "Optional"@) == Some(d));
    assert(generic_inner2(s, "Optional"@, "Opt"@) == Some(d));
}

/// A bare identifier is none of the wrapped forms and has no `(`.
proof fn lemma_ident_word(n: Seq<char>)
    requires
        ident(n),
    ensures
        trim(n) == n,
        generic_inner2(n, "Optional"@, "Opt"@).is_none(),
        union_none(n).is_none(),
        generic_inner2(n, "List"@, "list"@).is_none(),
        annotated_inner(n).is_none(),
        !((starts_with(n, "\""@) && ends_with(n, "\""@)) || (starts_with(n, "'"@) && ends_with(n, "'"@))),
        n != "datetime.datetime"@,
        find(n, "("@) < 0,
{
    reveal_strlit("datetime.datetime");
    reveal_strlit("(");
    lemma_trim_same(n);
    lemma_not_wrapped(n);
    if n == "datetime.datetime"@ {
        assert(n[8] == '.');
    }
    crate::config::lemma_find_char_none(n, '(');
    assert("("@ =~= seq!['(']);
}

/// The text `n(a1, a2, ...)` of a SQL type with arguments parses back to it.
proof fn lemma_sql_with_args(n: Seq<char>, args: Seq<Seq<char>>, sv: SymV)
    requires
        ident(n),
        args.len() > 0,
        forall|i: int| 0 <= i < args.len() ==> crate::config::plain_code(#[trigger] args[i]),
    ensures
        inner_type(crate::types::type_text(TypeV::SqlType(n, args)), sv) == TypeV::SqlType(n, args),
{
    reveal_strlit("(");
    reveal_strlit(")");
    reveal_strlit(", ");
    reveal_strlit("]");
    reveal_strlit(" | None]");
    reveal_strlit(" | None");
    reveal_strlit("None | ");
    reveal_strlit("\"");
    reveal_strlit("'");
    reveal_strlit("int");
    reveal_strlit("str");
    reveal_strlit("float");
    reveal_strlit("bool");
    reveal_strlit("datetime");
    reveal_strlit("datetime.datetime");
    let j = crate::types::join(args, ", "@);
    let s = crate::types::type_text(TypeV::SqlType(n, args));
    let k = n.len() as int;
    assert(s =~= n + "("@ + j + ")"@);
    crate::config::lemma_join_no_comma(args);
    assert(s[0] == n[0]);
    assert(s.last() == ')');
    assert(s[k] == '(');
    lemma_trim_same(s);
    // Not a generic: it ends with `)`.
    if ends_with(s, "]"@) {
        assert(s.skip(s.len() - 1)[0] == s.last());
    }
    // Not a union.
    let p1 = " | None]"@;
    lemma_last_upto_props(s, p1, s.len() - p1.len());
    if rfind(s, p1) >= 0 {
        let i = rfind(s, p1);
        assert(s.subrange(i, i + 8)[7] == s[i + 7]);
        if i + 8 == s.len() {
            assert(s[i + 7] == s.last());
        } else {
            assert(s.skip(i + 8).last() == s.last());
            assert(s.skip(i + 8) != "]"@);
        }
    }
    let p2 = " | None"@;
    lemma_last_upto_props(s, p2, s.len() - p2.len());
    if rfind(s, p2) >= 0 {
        let i = rfind(s, p2);
        assert(s.subrange(i, i + 7)[6] == s[i + 6]);
        if i + 7 == s.len() {
            assert(s[i + 6] == s.last());
        } else {
            assert(s.skip(i + 7).last() == s.last());
            assert(s.skip(i + 7) != "]"@);
        }
    }
    if starts_with(s, "None | "@) {
        if k < 7 {
            assert(s.take(7)[k] == s[k]);
        } else {
            assert(s.take(7)[4] == s[4]);
            assert(s[4] == n[4]);
        }
    }
    // Not quoted.
    if starts_with(s, "\""@) || starts_with(s, "'"@) {
        assert(s.take(1)[0] == s[0]);
    }
    // None of the plain type names: they hold no `(`.
    assert(s != "int"@ && s != "str"@ && s != "float"@ && s != "bool"@ && s != "datetime"@ && s
        != "datetime.datetime"@) by {
        if s.len() <= 17 {
            assert(s[k] == '(');
        }
    }
    // The argument list.
    crate::config::lemma_find_char_at(n, '(', j + ")"@);
    assert(s =~= n + seq!['('] + (j + ")"@));
    assert("("@ =~= seq!['(']);
    let cp = ")"@;
    assert(occurs_at(s, cp, s.len() - 1)) by {
        assert(s.subrange(s.len() - 1, s.len() as int) =~= cp);
    }
    assert(rfind(s, cp) == s.len() - 1);
    assert(s.subrange(k + 1, s.len() - 1) =~= j);
    assert(s.take(k) =~= n);
    assert(crate::config::plain_code(args[0]));
    assert(crate::config::plain_code(args.last()));
    lemma_trim_same(j);
    crate::config::lemma_split_join(args, Seq::<char>::empty());
    assert(Seq::<char>::empty() + j =~= j);
    let trimmed = split(j, ',').map_values(|q: Seq<char>| trim(q));
    assert forall|i: int| 0 <= i < args.len() implies #[trigger] trimmed[i] == args[i] by {
        if i == 0 {
            crate::config::lemma_trim_plain(Seq::<char>::empty(), args[0]);
        } else {
            crate::config::lemma_trim_plain(" "@, args[i]);
        }
    }
    assert(trimmed =~= args);
}
} // verus!
