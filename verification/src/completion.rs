//! Completions inside SQLAlchemy and Alembic call sites: what the text
//! before the cursor says about the context, the item sets offered there,
//! and the choice between them.
use vstd::prelude::*;

use crate::f01::{lookup_model, lookup_model_exec};
use crate::positions::{char_index, on_boundary, wsum};
use crate::rename::{cat_map, lemma_cat_map_take};
use crate::state::WorkspaceState;
use crate::syntax::{child_by_field, field_child, is_kind, kind_is, SyntaxNode};
use crate::text::str_eq;
use crate::strmap::{key_index, lemma_key_index};
use crate::types::{type_text, Column, Model, Relationship};
use crate::text::{
    char_is_alphabetic, char_is_alphanumeric, find, find_exec, is_alnum, is_alpha, lines,
    lemma_find_props, rfind, rfind_exec, slice_vec, starts_with, starts_with_exec, to_chars,
    trim_end, trim_end_exec,
};

verus! {

// ── The text before the cursor ───────────────────────────────────────────────

/// The line a position is on, if the source has it.
pub open spec fn line_at(source: Seq<char>, line: u32) -> Option<Seq<char>> {
    if (line as int) < lines(source).len() {
        Some(lines(source)[line as int])
    } else {
        None
    }
}

/// The byte column a prefix ends at: the cursor's, clamped to the line.
pub open spec fn clamp_col(l: Seq<char>, col: u32) -> int {
    if (col as nat) < wsum(l, true) {
        col as int
    } else {
        wsum(l, true) as int
    }
}

/// Whether cutting the line at the cursor falls between characters.
pub open spec fn prefix_ok(source: Seq<char>, line: u32, col: u32) -> bool {
    line_at(source, line) matches Some(l) ==> on_boundary(l, clamp_col(l, col))
}

/// The text of the cursor's line before the cursor (byte column).
pub open spec fn line_prefix_spec(source: Seq<char>, line: u32, col: u32) -> Seq<char> {
    match line_at(source, line) {
        Some(l) => l.take(char_index(l, clamp_col(l, col))),
        None => Seq::empty(),
    }
}

pub fn line_prefix(source: &str, line: u32, col: u32) -> (r: Vec<char>)
    requires
        prefix_ok(source@, line, col),
    ensures
        r@ == line_prefix_spec(source@, line, col),
{
    let ls = crate::text::lines_exec(source);
    if (line as usize) >= ls.len() {
        return Vec::new();
    }
    let l = &ls[line as usize];
    proof {
        crate::text::lemma_encode_len(l@);
        crate::positions::lemma_wsum_is_utf8_width(l@);
    }
    let s = crate::text::from_chars(l.as_slice());
    let total = s.as_str().as_bytes().len();
    let c = if (col as usize) < total {
        col as usize
    } else {
        total
    };
    let k = crate::positions::char_index_exec(l, c);
    proof {
        crate::positions::lemma_char_index(l@, c as int);
    }
    let r = crate::text::slice_vec(l.as_slice(), 0, k);
    assert(r@ =~= l@.take(k as int));
    r
}

/// A character of an identifier: alphanumeric or `_`.
pub open spec fn word_char(c: char) -> bool {
    is_alnum(c) || c == '_'
}

fn word_char_exec(c: char) -> (r: bool)
    ensures
        r == word_char(c),
{
    char_is_alphanumeric(c) || c == '_'
}

/// The identifier characters at the end of `s`.
pub open spec fn word_suffix(s: Seq<char>) -> Seq<char>
    decreases s.len(),
{
    if s.len() > 0 && word_char(s.last()) {
        word_suffix(s.drop_last()).push(s.last())
    } else {
        Seq::empty()
    }
}

fn word_suffix_exec(s: &[char]) -> (r: Vec<char>)
    ensures
        r@ == word_suffix(s@),
{
    let mut k: usize = s.len();
    assert(s@.take(k as int) =~= s@);
    assert(word_suffix(s@) + s@.skip(k as int) =~= word_suffix(s@));
    while k > 0 && word_char_exec(s[k - 1])
        invariant
            k <= s@.len(),
            word_suffix(s@) == word_suffix(s@.take(k as int)) + s@.skip(k as int),
        decreases k,
    {
        proof {
            let t = s@.take(k as int);
            assert(t.drop_last() =~= s@.take(k - 1));
            assert(s@.skip(k - 1) =~= seq![s@[k - 1]] + s@.skip(k as int));
            assert(word_suffix(t) == word_suffix(s@.take(k - 1)).push(s@[k - 1]));
            assert(word_suffix(s@.take(k - 1)).push(s@[k - 1]) + s@.skip(k as int) =~= word_suffix(
                s@.take(k - 1),
            ) + s@.skip(k - 1));
        }
        k = k - 1;
    }
    proof {
        assert(word_suffix(s@.take(k as int)) == Seq::<char>::empty());
        assert(Seq::<char>::empty() + s@.skip(k as int) =~= s@.skip(k as int));
    }
    let n = s.len();
    let r = crate::text::slice_vec(s, k, n);
    assert(r@ =~= s@.skip(k as int));
    r
}

/// The identifier being typed at the cursor.
pub fn current_word(source: &str, line: u32, col: u32) -> (r: Vec<char>)
    requires
        prefix_ok(source@, line, col),
    ensures
        r@ == word_suffix(line_prefix_spec(source@, line, col)),
{
    let p = line_prefix(source, line, col);
    word_suffix_exec(p.as_slice())
}

/// Where a quoted string on a line stands: inside one or not, its quote,
/// the characters typed so far inside it, and where it opened.
pub struct QuoteState {
    pub in_string: bool,
    pub quote: char,
    pub content: Seq<char>,
    pub open: int,
}

pub open spec fn quote_init() -> QuoteState {
    QuoteState { in_string: false, quote: ' ', content: Seq::empty(), open: -1 }
}

/// One character of the quote scan: a quote opens a string, the same quote
/// closes it, anything inside is content.
pub open spec fn quote_step(q: QuoteState, c: char, i: int) -> QuoteState {
    if !q.in_string {
        if c == '"' || c == '\'' {
            QuoteState { in_string: true, quote: c, content: Seq::empty(), open: i }
        } else {
            q
        }
    } else if c == q.quote {
        QuoteState { in_string: false, content: Seq::empty(), open: -1, ..q }
    } else {
        QuoteState { content: q.content.push(c), ..q }
    }
}

pub open spec fn quote_scan(s: Seq<char>) -> QuoteState
    decreases s.len(),
{
    if s.len() == 0 {
        quote_init()
    } else {
        quote_step(quote_scan(s.drop_last()), s.last(), s.len() - 1)
    }
}

fn quote_scan_exec(s: &[char]) -> (r: (bool, char, Vec<char>, usize))
    ensures
        r.0 == quote_scan(s@).in_string,
        r.0 ==> r.1 == quote_scan(s@).quote && r.2@ == quote_scan(s@).content && r.3 as int == quote_scan(
            s@,
        ).open,
{
    let mut in_string = false;
    let mut quote = ' ';
    let mut content: Vec<char> = Vec::new();
    let mut open: usize = 0;
    let mut i: usize = 0;
    while i < s.len()
        invariant
            i <= s@.len(),
            in_string == quote_scan(s@.take(i as int)).in_string,
            in_string ==> quote == quote_scan(s@.take(i as int)).quote && content@ == quote_scan(
                s@.take(i as int),
            ).content && open as int == quote_scan(s@.take(i as int)).open,
        decreases s@.len() - i,
    {
        proof {
            assert(s@.take(i + 1).drop_last() =~= s@.take(i as int));
        }
        let c = s[i];
        if !in_string {
            if c == '"' || c == '\'' {
                in_string = true;
                quote = c;
                content = Vec::new();
                open = i;
            }
        } else if c == quote {
            in_string = false;
            content = Vec::new();
        } else {
            content.push(c);
        }
        i = i + 1;
    }
    assert(s@.take(s@.len() as int) =~= s@);
    (in_string, quote, content, open)
}

/// Whether the text ends inside an unclosed string literal.
pub fn is_in_open_string(prefix: &[char]) -> (r: bool)
    ensures
        r == quote_scan(prefix@).in_string,
{
    quote_scan_exec(prefix).0
}

/// The text typed so far inside the string the cursor is in (empty outside
/// strings).
pub open spec fn string_prefix_spec(source: Seq<char>, line: u32, col: u32) -> Seq<char> {
    let q = quote_scan(line_prefix_spec(source, line, col));
    if q.in_string {
        q.content
    } else {
        Seq::empty()
    }
}

pub fn string_prefix_at_cursor(source: &str, line: u32, col: u32) -> (r: Vec<char>)
    requires
        prefix_ok(source@, line, col),
    ensures
        r@ == string_prefix_spec(source@, line, col),
{
    let p = line_prefix(source, line, col);
    let (in_string, _q, content, _o) = quote_scan_exec(p.as_slice());
    if in_string {
        content
    } else {
        Vec::new()
    }
}

/// The key of a `key="...` whose string the text ends in.
pub open spec fn kwarg_key_spec(prefix: Seq<char>) -> Option<Seq<char>> {
    let q = quote_scan(prefix);
    if !q.in_string {
        None
    } else {
        let before = trim_end(prefix.take(q.open));
        if before.len() > 0 && before.last() == '=' {
            let key = word_suffix(trim_end(before.drop_last()));
            if key.len() > 0 {
                Some(key)
            } else {
                None
            }
        } else {
            None
        }
    }
}

pub fn kwarg_key_for_string_value(prefix: &[char]) -> (r: Option<Vec<char>>)
    ensures
        match r {
            Some(k) => kwarg_key_spec(prefix@) == Some(k@),
            None => kwarg_key_spec(prefix@) is None,
        },
{
    let (in_string, _q, _c, open) = quote_scan_exec(prefix);
    if !in_string {
        return None;
    }
    proof {
        lemma_quote_open(prefix@);
    }
    let head = crate::text::slice_vec(prefix, 0, open);
    assert(head@ =~= prefix@.take(open as int));
    let before = trim_end_exec(head.as_slice());
    if before.len() == 0 || before[before.len() - 1] != '=' {
        return None;
    }
    let m = before.len() - 1;
    let b2 = crate::text::slice_vec(before.as_slice(), 0, m);
    assert(b2@ =~= before@.drop_last());
    let t = trim_end_exec(b2.as_slice());
    let key = word_suffix_exec(t.as_slice());
    if key.len() == 0 {
        None
    } else {
        Some(key)
    }
}

proof fn lemma_quote_open(s: Seq<char>)
    ensures
        quote_scan(s).in_string ==> 0 <= quote_scan(s).open < s.len(),
    decreases s.len(),
{
    if s.len() > 0 {
        lemma_quote_open(s.drop_last());
    }
}

// ── Which call the cursor is in ──────────────────────────────────────────────

/// A character of a dotted name.
pub open spec fn dotted_char(c: char) -> bool {
    is_alnum(c) || c == '_' || c == '.'
}

/// Where the dotted name ending at index `i` starts.
pub open spec fn name_start(s: Seq<char>, i: int) -> int
    decreases i,
{
    if i <= 0 || i > s.len() {
        0
    } else if dotted_char(s[i - 1]) {
        name_start(s, i - 1)
    } else {
        i
    }
}

/// The last segment of a dotted name.
pub open spec fn last_segment(t: Seq<char>) -> Seq<char> {
    t.skip(rfind(t, "."@) + 1)
}

/// The call scan: the open calls' names (innermost last) and the quote state.
pub struct CallScan {
    pub stack: Seq<Seq<char>>,
    pub in_string: bool,
    pub quote: char,
}

pub open spec fn call_step(c: CallScan, s: Seq<char>, i: int) -> CallScan {
    let ch = s[i];
    if c.in_string {
        if ch == c.quote {
            CallScan { in_string: false, ..c }
        } else {
            c
        }
    } else if ch == '"' || ch == '\'' {
        CallScan { in_string: true, quote: ch, ..c }
    } else if ch == '(' {
        CallScan { stack: c.stack.push(last_segment(s.subrange(name_start(s, i), i))), ..c }
    } else if ch == ')' {
        CallScan {
            stack: if c.stack.len() > 0 {
                c.stack.drop_last()
            } else {
                c.stack
            },
            ..c
        }
    } else {
        c
    }
}

pub open spec fn call_scan(s: Seq<char>, n: int) -> CallScan
    decreases n,
{
    if n <= 0 {
        CallScan { stack: Seq::empty(), in_string: false, quote: ' ' }
    } else {
        call_step(call_scan(s, n - 1), s, n - 1)
    }
}

/// The name of the innermost unclosed call in the text (its last dotted
/// segment), if it has one.
pub open spec fn innermost_call_spec(s: Seq<char>) -> Option<Seq<char>> {
    let st = call_scan(s, s.len() as int).stack;
    if st.len() > 0 && st.last().len() > 0 {
        Some(st.last())
    } else {
        None
    }
}

pub(crate) fn name_start_exec(s: &[char], i: usize) -> (r: usize)
    requires
        i <= s@.len(),
    ensures
        r as int == name_start(s@, i as int),
        r <= i,
{
    let mut k = i;
    while k > 0 && crate::text::char_is_alphanumeric(s[k - 1]) || k > 0 && (s[k - 1] == '_' || s[k - 1] == '.')
        invariant
            k <= i <= s@.len(),
            name_start(s@, i as int) == name_start(s@, k as int),
        decreases k,
    {
        k = k - 1;
    }
    k
}

pub(crate) fn last_segment_exec(t: &[char]) -> (r: Vec<char>)
    ensures
        r@ == last_segment(t@),
{
    let dot = to_chars(".");
    let n = t.len();
    let start = match rfind_exec(t, dot.as_slice()) {
        Some(p) => {
            proof {
                crate::text::lemma_last_upto_props(t@, dot@, t@.len() - 1);
                reveal_strlit(".");
            }
            p + 1
        },
        None => 0,
    };
    proof {
        reveal_strlit(".");
    }
    let r = slice_vec(t, start, n);
    assert(r@ =~= last_segment(t@));
    r
}

pub fn innermost_call_name(prefix: &[char]) -> (r: Option<Vec<char>>)
    ensures
        match r {
            Some(n) => innermost_call_spec(prefix@) == Some(n@),
            None => innermost_call_spec(prefix@) is None,
        },
{
    let n = prefix.len();
    let mut stack: Vec<Vec<char>> = Vec::new();
    let mut in_string = false;
    let mut quote = ' ';
    let mut i: usize = 0;
    while i < n
        invariant
            i <= n,
            n == prefix@.len(),
            stack@.map_values(|v: Vec<char>| v@) == call_scan(prefix@, i as int).stack,
            in_string == call_scan(prefix@, i as int).in_string,
            in_string ==> quote == call_scan(prefix@, i as int).quote,
        decreases n - i,
    {
        let ch = prefix[i];
        let ghost os = stack@.map_values(|v: Vec<char>| v@);
        if in_string {
            if ch == quote {
                in_string = false;
            }
        } else if ch == '"' || ch == '\'' {
            in_string = true;
            quote = ch;
        } else if ch == '(' {
            let st = name_start_exec(prefix, i);
            let seg = slice_vec(prefix, st, i);
            let base = last_segment_exec(seg.as_slice());
            stack.push(base);
            assert(stack@.map_values(|v: Vec<char>| v@) =~= os.push(base@));
        } else if ch == ')' {
            if stack.len() > 0 {
                stack.pop();
                assert(stack@.map_values(|v: Vec<char>| v@) =~= os.drop_last());
            }
        }
        i = i + 1;
    }
    let m = stack.len();
    if m > 0 && stack[m - 1].len() > 0 {
        assert(stack@.map_values(|v: Vec<char>| v@).last() == stack@[m - 1]@);
        Some(slice_vec(stack[m - 1].as_slice(), 0, stack[m - 1].len()))
    } else {
        None
    }
}

// ── The target of a relationship annotation ──────────────────────────────────

/// The identifier characters at the start of `s`.
pub open spec fn word_prefix(s: Seq<char>) -> Seq<char>
    decreases s.len(),
{
    if s.len() > 0 && word_char(s[0]) {
        seq![s[0]] + word_prefix(s.drop_first())
    } else {
        Seq::empty()
    }
}

/// The text up to a closing quote.
pub open spec fn quoted_name(rest: Seq<char>, q: Seq<char>) -> Option<Seq<char>> {
    if find(rest, q) >= 0 {
        Some(rest.take(find(rest, q)))
    } else {
        None
    }
}

/// The model a `Mapped["Target"]`, `Mapped[list["Target"]]`,
/// `Mapped[Optional["Target"]]` or `Mapped[Target]` annotation on the line
/// names.
pub open spec fn mapped_target_spec(source: Seq<char>, line: u32) -> Option<Seq<char>> {
    match line_at(source, line) {
        None => None,
        Some(l) => if find(l, "Mapped["@) < 0 {
            None
        } else {
            let after = l.skip(find(l, "Mapped["@) + 7);
            let inner = if starts_with(after, "list["@) {
                after.skip(5)
            } else if starts_with(after, "Optional["@) {
                after.skip(9)
            } else {
                after
            };
            if starts_with(inner, "\""@) {
                quoted_name(inner.skip(1), "\""@)
            } else if starts_with(inner, "'"@) {
                quoted_name(inner.skip(1), "'"@)
            } else if inner.len() > 0 && is_alpha(inner[0]) {
                if word_prefix(inner).len() > 0 {
                    Some(word_prefix(inner))
                } else {
                    None
                }
            } else {
                None
            }
        },
    }
}

pub(crate) fn word_prefix_exec(s: &[char]) -> (r: Vec<char>)
    ensures
        r@ == word_prefix(s@),
{
    let mut k: usize = 0;
    assert(s@.skip(0) =~= s@);
    while k < s.len() && word_char_exec(s[k])
        invariant
            k <= s@.len(),
            word_prefix(s@) == s@.take(k as int) + word_prefix(s@.skip(k as int)),
        decreases s@.len() - k,
    {
        proof {
            assert(s@.skip(k as int).drop_first() =~= s@.skip(k + 1));
            assert(s@.take(k + 1) =~= s@.take(k as int) + seq![s@[k as int]]);
        }
        k = k + 1;
    }
    let r = slice_vec(s, 0, k);
    assert(r@ =~= s@.take(k as int));
    assert(s@.take(k as int) + Seq::<char>::empty() =~= s@.take(k as int));
    r
}

fn quoted_name_exec(rest: &[char], q: &[char]) -> (r: Option<Vec<char>>)
    ensures
        match r {
            Some(n) => quoted_name(rest@, q@) == Some(n@),
            None => quoted_name(rest@, q@) is None,
        },
{
    match find_exec(rest, q) {
        Some(e) => {
            proof {
                lemma_find_props(rest@, q@);
            }
            let r = slice_vec(rest, 0, e);
            assert(r@ =~= rest@.take(e as int));
            Some(r)
        },
        None => None,
    }
}

pub fn extract_mapped_target(source: &str, line: u32) -> (r: Option<Vec<char>>)
    ensures
        match r {
            Some(n) => mapped_target_spec(source@, line) == Some(n@),
            None => mapped_target_spec(source@, line) is None,
        },
{
    let ls = crate::text::lines_exec(source);
    if (line as usize) >= ls.len() {
        return None;
    }
    let l = &ls[line as usize];
    let pat = to_chars("Mapped[");
    let ms = match find_exec(l.as_slice(), pat.as_slice()) {
        Some(p) => p,
        None => {
            return None;
        },
    };
    proof {
        lemma_find_props(l@, pat@);
        reveal_strlit("Mapped[");
        reveal_strlit("list[");
        reveal_strlit("Optional[");
        reveal_strlit("\"");
        reveal_strlit("'");
    }
    let n = l.len();
    let after = slice_vec(l.as_slice(), ms + 7, n);
    assert(after@ =~= l@.skip(ms + 7));
    let lp = to_chars("list[");
    let op = to_chars("Optional[");
    let m = after.len();
    let inner = if starts_with_exec(after.as_slice(), lp.as_slice()) {
        slice_vec(after.as_slice(), 5, m)
    } else if starts_with_exec(after.as_slice(), op.as_slice()) {
        slice_vec(after.as_slice(), 9, m)
    } else {
        slice_vec(after.as_slice(), 0, m)
    };
    assert(after@.subrange(0, m as int) =~= after@);
    let dq = to_chars("\"");
    let sq = to_chars("'");
    let k = inner.len();
    if starts_with_exec(inner.as_slice(), dq.as_slice()) {
        let rest = slice_vec(inner.as_slice(), 1, k);
        assert(rest@ =~= inner@.skip(1));
        quoted_name_exec(rest.as_slice(), dq.as_slice())
    } else if starts_with_exec(inner.as_slice(), sq.as_slice()) {
        let rest = slice_vec(inner.as_slice(), 1, k);
        assert(rest@ =~= inner@.skip(1));
        quoted_name_exec(rest.as_slice(), sq.as_slice())
    } else if k > 0 && char_is_alphabetic(inner[0]) {
        let w = word_prefix_exec(inner.as_slice());
        if w.len() > 0 {
            Some(w)
        } else {
            None
        }
    } else {
        None
    }
}

// ── Completion items ─────────────────────────────────────────────────────────

/// What sort of thing an item completes to.
#[derive(Clone, Copy, Debug, PartialEq, Eq, Structural)]
pub enum ItemKind {
    Function,
    Property,
    EnumMember,
    Field,
    Reference,
    Snippet,
    Class,
    Value,
}

/// One completion offered to the editor.
#[derive(Debug)]
pub struct CompletionItem {
    pub label: String,
    pub kind: ItemKind,
    pub detail: Option<String>,
    pub documentation: Option<String>,
    /// The text inserted, when it differs from the label.
    pub insert_text: Option<String>,
    /// The inserted text is a snippet with `$1`-style tab stops.
    pub snippet: bool,
    pub sort_text: Option<String>,
}

/// A completion item as values.
pub struct ItemV {
    pub label: Seq<char>,
    pub kind: ItemKind,
    pub detail: Option<Seq<char>>,
    pub documentation: Option<Seq<char>>,
    pub insert_text: Option<Seq<char>>,
    pub snippet: bool,
    pub sort_text: Option<Seq<char>>,
}

pub open spec fn sopt(o: Option<String>) -> Option<Seq<char>> {
    match o {
        Some(s) => Some(s@),
        None => None,
    }
}

impl View for CompletionItem {
    type V = ItemV;

    open spec fn view(&self) -> ItemV {
        ItemV {
            label: self.label@,
            kind: self.kind,
            detail: sopt(self.detail),
            documentation: sopt(self.documentation),
            insert_text: sopt(self.insert_text),
            snippet: self.snippet,
            sort_text: sopt(self.sort_text),
        }
    }
}

pub open spec fn iviews(v: Seq<CompletionItem>) -> Seq<ItemV> {
    v.map_values(|i: CompletionItem| i@)
}

/// A plain item: a label, a kind, maybe a detail.
pub open spec fn plain(label: Seq<char>, kind: ItemKind, detail: Option<Seq<char>>) -> ItemV {
    ItemV { label, kind, detail, documentation: None, insert_text: None, snippet: false, sort_text: None }
}

/// A keyword-argument item inserting a snippet.
pub open spec fn kwarg_v(label: Seq<char>, snippet: Seq<char>, detail: Seq<char>) -> ItemV {
    ItemV {
        label,
        kind: ItemKind::Property,
        detail: Some(detail),
        documentation: None,
        insert_text: Some(snippet),
        snippet: true,
        sort_text: None,
    }
}

fn plain_item(label: &str, kind: ItemKind, detail: Option<&str>) -> (r: CompletionItem)
    ensures
        r@ == plain(label@, kind, match detail {
            Some(d) => Some(d@),
            None => None,
        }),
{
    CompletionItem {
        label: crate::text::to_owned(label),
        kind,
        detail: match detail {
            Some(d) => Some(crate::text::to_owned(d)),
            None => None,
        },
        documentation: None,
        insert_text: None,
        snippet: false,
        sort_text: None,
    }
}

fn kwarg_item(label: &str, snippet: &str, detail: &str) -> (r: CompletionItem)
    ensures
        r@ == kwarg_v(label@, snippet@, detail@),
{
    CompletionItem {
        label: crate::text::to_owned(label),
        kind: ItemKind::Property,
        detail: Some(crate::text::to_owned(detail)),
        documentation: None,
        insert_text: Some(crate::text::to_owned(snippet)),
        snippet: true,
        sort_text: None,
    }
}

/// The items whose label starts with `prefix`, in order.
pub open spec fn with_prefix(items: Seq<ItemV>, prefix: Seq<char>) -> Seq<ItemV> {
    items.filter(|v: ItemV| starts_with(v.label, prefix))
}

/// No items is no answer.
pub open spec fn answer(items: Seq<ItemV>) -> Option<Seq<ItemV>> {
    if items.len() == 0 {
        None
    } else {
        Some(items)
    }
}

pub open spec fn answer_v(r: Option<Vec<CompletionItem>>) -> Option<Seq<ItemV>> {
    match r {
        Some(v) => Some(iviews(v@)),
        None => None,
    }
}

fn filter_by_label(items: Vec<CompletionItem>, prefix: &[char]) -> (r: Option<Vec<CompletionItem>>)
    ensures
        answer_v(r) == answer(with_prefix(iviews(items@), prefix@)),
{
    let out = filter_list(items, prefix);
    if out.len() == 0 {
        None
    } else {
        Some(out)
    }
}

fn filter_list(items: Vec<CompletionItem>, prefix: &[char]) -> (r: Vec<CompletionItem>)
    ensures
        iviews(r@) == with_prefix(iviews(items@), prefix@),
{
    let ghost all = iviews(items@);
    let ghost p = |v: ItemV| starts_with(v.label, prefix@);
    let mut out: Vec<CompletionItem> = Vec::new();
    let n = items.len();
    for it in iter: items
        invariant
            iter.seq().len() == n,
            all == iviews(iter.seq()),
            p == (|v: ItemV| starts_with(v.label, prefix@)),
            iviews(out@) == all.take(iter.index() as int).filter(p),
    {
        let ghost k = iter.index() as int;
        proof {
            assert(all[k] == it@);
            assert(all.take(k + 1) =~= all.take(k).push(all[k]));
            all.take(k).lemma_filter_push(all[k], p);
        }
        let lc = to_chars(it.label.as_str());
        if crate::text::starts_with_exec(lc.as_slice(), prefix) {
            let ghost o = iviews(out@);
            out.push(it);
            assert(iviews(out@) =~= o.push(all[k]));
        }
    }
    assert(all.take(n as int) =~= all);
    out
}

// ── Fixed catalogues ─────────────────────────────────────────────────────────

pub open spec fn kw3(t: (&str, &str, &str)) -> ItemV {
    kwarg_v(t.0@, t.1@, t.2@)
}

/// The keyword arguments of `relationship(...)` offered.
pub open spec fn rel_kwarg_items() -> Seq<ItemV> {
    seq![
        kwarg_v("back_populates"@, "back_populates=\"$1\""@, "Reverse relationship name"@),
        kwarg_v("lazy"@, "lazy=\"$1\""@, "Loading strategy"@),
        kwarg_v("uselist"@, "uselist=$1"@, "Whether to return a list"@),
        kwarg_v("secondary"@, "secondary=$1"@, "Association table"@),
        kwarg_v("cascade"@, "cascade=\"$1\""@, "Cascade rules"@),
        kwarg_v("order_by"@, "order_by=$1"@, "Default sort"@),
        kwarg_v("foreign_keys"@, "foreign_keys=[$1]"@, "Disambiguate FK columns"@),
        kwarg_v("viewonly"@, "viewonly=$1"@, "Read-only relationship"@),
        kwarg_v("primaryjoin"@, "primaryjoin=$1"@, "Custom join condition"@),
        kwarg_v("secondaryjoin"@, "secondaryjoin=$1"@, "Secondary join condition"@),
    ]
}

/// The keyword arguments of `mapped_column(...)` offered.
pub open spec fn mc_kwarg_items() -> Seq<ItemV> {
    seq![
        kwarg_v("primary_key"@, "primary_key=True"@, "Mark as primary key"@),
        kwarg_v("nullable"@, "nullable=$1"@, "Allow NULL values"@),
        kwarg_v("unique"@, "unique=True"@, "Unique constraint"@),
        kwarg_v("index"@, "index=True"@, "Create an index"@),
        kwarg_v("default"@, "default=$1"@, "Python-side default"@),
        kwarg_v("server_default"@, "server_default=$1"@, "Database-side default"@),
        kwarg_v("name"@, "name=\"$1\""@, "Override column name in DB"@),
        kwarg_v("type_"@, "type_=$1"@, "Explicit SA type"@),
        kwarg_v("ForeignKey"@, "ForeignKey(\"${1:table.col}\")"@, "Add a foreign key"@),
    ]
}

/// The loading strategies offered for `lazy=`.
pub open spec fn lazy_items() -> Seq<ItemV> {
    seq![
        plain("select"@, ItemKind::EnumMember, Some("Load on first access (default)"@)),
        plain("joined"@, ItemKind::EnumMember, Some("Eager load via JOIN"@)),
        plain("subquery"@, ItemKind::EnumMember, Some("Eager load via subquery"@)),
        plain("selectin"@, ItemKind::EnumMember, Some("Eager load via SELECT IN"@)),
        plain("raise"@, ItemKind::EnumMember, Some("Raise on access"@)),
        plain("raise_on_sql"@, ItemKind::EnumMember, Some("Raise only when SQL is emitted"@)),
        plain("write_only"@, ItemKind::EnumMember, Some("Write-only collection (SA 2.0)"@)),
        plain("dynamic"@, ItemKind::EnumMember, Some("Dynamic query (SA 1.x legacy)"@)),
        plain("noload"@, ItemKind::EnumMember, Some("Never load"@)),
    ]
}

/// The cascade tokens offered for `cascade=`.
pub open spec fn cascade_items() -> Seq<ItemV> {
    seq![
        plain("save-update"@, ItemKind::EnumMember, Some("Cascade save/update"@)),
        plain("merge"@, ItemKind::EnumMember, Some("Cascade merge"@)),
        plain("expunge"@, ItemKind::EnumMember, Some("Cascade expunge"@)),
        plain("delete"@, ItemKind::EnumMember, Some("Cascade delete"@)),
        plain("delete-orphan"@, ItemKind::EnumMember, Some("Cascade delete orphans"@)),
        plain("refresh-expire"@, ItemKind::EnumMember, Some("Cascade refresh/expire"@)),
        plain("all"@, ItemKind::EnumMember, Some("All standard cascades"@)),
        plain("all, delete-orphan"@, ItemKind::EnumMember, Some("All + orphan deletion (common combination)"@)),
        plain("save-update, merge"@, ItemKind::EnumMember, Some("Default subset"@)),
    ]
}

fn rel_kwarg_candidates() -> (r: Vec<CompletionItem>)
    ensures
        iviews(r@) == rel_kwarg_items(),
{
    let mut v: Vec<CompletionItem> = Vec::new();
    v.push(kwarg_item("back_populates", "back_populates=\"$1\"", "Reverse relationship name"));
    v.push(kwarg_item("lazy", "lazy=\"$1\"", "Loading strategy"));
    v.push(kwarg_item("uselist", "uselist=$1", "Whether to return a list"));
    v.push(kwarg_item("secondary", "secondary=$1", "Association table"));
    v.push(kwarg_item("cascade", "cascade=\"$1\"", "Cascade rules"));
    v.push(kwarg_item("order_by", "order_by=$1", "Default sort"));
    v.push(kwarg_item("foreign_keys", "foreign_keys=[$1]", "Disambiguate FK columns"));
    v.push(kwarg_item("viewonly", "viewonly=$1", "Read-only relationship"));
    v.push(kwarg_item("primaryjoin", "primaryjoin=$1", "Custom join condition"));
    v.push(kwarg_item("secondaryjoin", "secondaryjoin=$1", "Secondary join condition"));
    assert(iviews(v@) =~= rel_kwarg_items());
    v
}

fn mc_kwarg_candidates() -> (r: Vec<CompletionItem>)
    ensures
        iviews(r@) == mc_kwarg_items(),
{
    let mut v: Vec<CompletionItem> = Vec::new();
    v.push(kwarg_item("primary_key", "primary_key=True", "Mark as primary key"));
    v.push(kwarg_item("nullable", "nullable=$1", "Allow NULL values"));
    v.push(kwarg_item("unique", "unique=True", "Unique constraint"));
    v.push(kwarg_item("index", "index=True", "Create an index"));
    v.push(kwarg_item("default", "default=$1", "Python-side default"));
    v.push(kwarg_item("server_default", "server_default=$1", "Database-side default"));
    v.push(kwarg_item("name", "name=\"$1\"", "Override column name in DB"));
    v.push(kwarg_item("type_", "type_=$1", "Explicit SA type"));
    v.push(kwarg_item("ForeignKey", "ForeignKey(\"${1:table.col}\")", "Add a foreign key"));
    assert(iviews(v@) =~= mc_kwarg_items());
    v
}

fn lazy_candidates() -> (r: Vec<CompletionItem>)
    ensures
        iviews(r@) == lazy_items(),
{
    let k = ItemKind::EnumMember;
    let mut v: Vec<CompletionItem> = Vec::new();
    v.push(plain_item("select", k, Some("Load on first access (default)")));
    v.push(plain_item("joined", k, Some("Eager load via JOIN")));
    v.push(plain_item("subquery", k, Some("Eager load via subquery")));
    v.push(plain_item("selectin", k, Some("Eager load via SELECT IN")));
    v.push(plain_item("raise", k, Some("Raise on access")));
    v.push(plain_item("raise_on_sql", k, Some("Raise only when SQL is emitted")));
    v.push(plain_item("write_only", k, Some("Write-only collection (SA 2.0)")));
    v.push(plain_item("dynamic", k, Some("Dynamic query (SA 1.x legacy)")));
    v.push(plain_item("noload", k, Some("Never load")));
    assert(iviews(v@) =~= lazy_items());
    v
}

fn cascade_candidates() -> (r: Vec<CompletionItem>)
    ensures
        iviews(r@) == cascade_items(),
{
    let k = ItemKind::EnumMember;
    let mut v: Vec<CompletionItem> = Vec::new();
    v.push(plain_item("save-update", k, Some("Cascade save/update")));
    v.push(plain_item("merge", k, Some("Cascade merge")));
    v.push(plain_item("expunge", k, Some("Cascade expunge")));
    v.push(plain_item("delete", k, Some("Cascade delete")));
    v.push(plain_item("delete-orphan", k, Some("Cascade delete orphans")));
    v.push(plain_item("refresh-expire", k, Some("Cascade refresh/expire")));
    v.push(plain_item("all", k, Some("All standard cascades")));
    v.push(plain_item("all, delete-orphan", k, Some("All + orphan deletion (common combination)")));
    v.push(plain_item("save-update, merge", k, Some("Default subset")));
    assert(iviews(v@) =~= cascade_items());
    v
}

/// `relationship(...)` keyword arguments starting with the typed word.
pub fn complete_relationship_kwargs(prefix: &[char]) -> (r: Option<Vec<CompletionItem>>)
    ensures
        answer_v(r) == answer(with_prefix(rel_kwarg_items(), prefix@)),
{
    filter_by_label(rel_kwarg_candidates(), prefix)
}

/// `mapped_column(...)` keyword arguments starting with the typed word.
pub fn complete_mapped_column_kwargs(prefix: &[char]) -> (r: Option<Vec<CompletionItem>>)
    ensures
        answer_v(r) == answer(with_prefix(mc_kwarg_items(), prefix@)),
{
    filter_by_label(mc_kwarg_candidates(), prefix)
}

/// Loading strategies starting with the typed text.
pub fn complete_lazy_values(prefix: &[char]) -> (r: Option<Vec<CompletionItem>>)
    ensures
        answer_v(r) == answer(with_prefix(lazy_items(), prefix@)),
{
    filter_by_label(lazy_candidates(), prefix)
}

/// The cascade token being typed: the text after the last comma, trimmed.
pub open spec fn cascade_token(t: Seq<char>) -> Seq<char> {
    crate::text::trim(t.skip(rfind(t, ","@) + 1))
}

/// Cascade tokens starting with the token being typed.
pub fn complete_cascade_values(text: &[char]) -> (r: Option<Vec<CompletionItem>>)
    ensures
        answer_v(r) == answer(with_prefix(cascade_items(), cascade_token(text@))),
{
    let comma = to_chars(",");
    let n = text.len();
    let start = match rfind_exec(text, comma.as_slice()) {
        Some(p) => {
            proof {
                crate::text::lemma_last_upto_props(text@, comma@, text@.len() - 1);
                reveal_strlit(",");
            }
            p + 1
        },
        None => 0,
    };
    proof {
        reveal_strlit(",");
    }
    let tail = slice_vec(text, start, n);
    assert(tail@ =~= text@.skip(rfind(text@, ","@) + 1));
    let tok = crate::text::trim_exec(tail.as_slice());
    filter_by_label(cascade_candidates(), tok.as_slice())
}

// ── Snippets and Alembic operations ───────────────────────────────────────────

/// A snippet: (prefix, label, body, only at module level, only in a class).
pub type SnippetV = (Seq<char>, Seq<char>, Seq<char>, bool, bool);

/// The snippet catalogue.
pub open spec fn snippet_catalogue() -> Seq<SnippetV> {
    seq![
        ("sa"@, "saimport"@, "import sqlalchemy as sa\nfrom sqlalchemy.orm import DeclarativeBase, Mapped, mapped_column, relationship"@, true, false),
        ("sabase"@, "sabase"@, "class Base(DeclarativeBase):\n    pass"@, true, false),
        ("samodel"@, "samodel"@, "class ${1:Model}(Base):\n    __tablename__ = \"${2:table_name}\"\n\n    id: Mapped[int] = mapped_column(primary_key=True)\n    $0"@, true, false),
        ("sapk"@, "sapk"@, "id: Mapped[int] = mapped_column(primary_key=True)"@, false, true),
        ("sacol"@, "sacol"@, "${1:name}: Mapped[${2:str}] = mapped_column()"@, false, true),
        ("saopt"@, "saopt"@, "${1:name}: Mapped[Optional[${2:str}]] = mapped_column(nullable=True)"@, false, true),
        ("safk"@, "safk"@, "${1:target_id}: Mapped[int] = mapped_column(ForeignKey(\"${2:table.id}\"))"@, false, true),
        ("sarel"@, "sarel"@, "${1:target}: Mapped[\"${2:Model}\"] = relationship(back_populates=\"${3:reverse}\")"@, false, true),
        ("sarelmany"@, "sarelmany"@, "${1:targets}: Mapped[list[\"${2:Model}\"]] = relationship(back_populates=\"${3:reverse}\")"@, false, true),
        ("sam2m"@, "sam2m"@, "${1:targets}: Mapped[list[\"${2:Model}\"]] = relationship(secondary=${3:assoc_table}, back_populates=\"${4:reverse}\")"@, false, true),
        ("satable"@, "satable"@, "__tablename__ = \"${1:table_name}\""@, false, true),
        ("saidx"@, "saidx"@, "__table_args__ = (\n    sa.Index(\"ix_${1:table}_${2:col}\", \"${2:col}\"),\n)"@, false, true),
    ]
}

/// Whether a snippet is offered for the typed word, inside a class or not.
pub open spec fn snippet_offered(s: SnippetV, prefix: Seq<char>, in_class: bool) -> bool {
    !(s.3 && in_class) && !(s.4 && !in_class) && (starts_with(s.0, prefix) || starts_with(s.1, prefix))
}

pub open spec fn snippet_v(s: SnippetV) -> ItemV {
    ItemV {
        label: s.1,
        kind: ItemKind::Snippet,
        detail: None,
        documentation: None,
        insert_text: Some(s.2),
        snippet: true,
        sort_text: None,
    }
}

/// The snippets offered for a word (none for an empty word).
pub open spec fn snippets_spec(prefix: Seq<char>, in_class: bool) -> Option<Seq<ItemV>> {
    if prefix.len() == 0 {
        None
    } else {
        answer(
            snippet_catalogue().filter(|s: SnippetV| snippet_offered(s, prefix, in_class)).map_values(
                |s: SnippetV| snippet_v(s),
            ),
        )
    }
}

fn snippet_entries() -> (r: Vec<(&'static str, &'static str, &'static str, bool, bool)>)
    ensures
        r@.map_values(|t: (&'static str, &'static str, &'static str, bool, bool)| (t.0@, t.1@, t.2@, t.3, t.4))
            == snippet_catalogue(),
{
    let mut v: Vec<(&'static str, &'static str, &'static str, bool, bool)> = Vec::new();
    v.push(("sa", "saimport", "import sqlalchemy as sa\nfrom sqlalchemy.orm import DeclarativeBase, Mapped, mapped_column, relationship", true, false));
    v.push(("sabase", "sabase", "class Base(DeclarativeBase):\n    pass", true, false));
    v.push(("samodel", "samodel", "class ${1:Model}(Base):\n    __tablename__ = \"${2:table_name}\"\n\n    id: Mapped[int] = mapped_column(primary_key=True)\n    $0", true, false));
    v.push(("sapk", "sapk", "id: Mapped[int] = mapped_column(primary_key=True)", false, true));
    v.push(("sacol", "sacol", "${1:name}: Mapped[${2:str}] = mapped_column()", false, true));
    v.push(("saopt", "saopt", "${1:name}: Mapped[Optional[${2:str}]] = mapped_column(nullable=True)", false, true));
    v.push(("safk", "safk", "${1:target_id}: Mapped[int] = mapped_column(ForeignKey(\"${2:table.id}\"))", false, true));
    v.push(("sarel", "sarel", "${1:target}: Mapped[\"${2:Model}\"] = relationship(back_populates=\"${3:reverse}\")", false, true));
    v.push(("sarelmany", "sarelmany", "${1:targets}: Mapped[list[\"${2:Model}\"]] = relationship(back_populates=\"${3:reverse}\")", false, true));
    v.push(("sam2m", "sam2m", "${1:targets}: Mapped[list[\"${2:Model}\"]] = relationship(secondary=${3:assoc_table}, back_populates=\"${4:reverse}\")", false, true));
    v.push(("satable", "satable", "__tablename__ = \"${1:table_name}\"", false, true));
    v.push(("saidx", "saidx", "__table_args__ = (\n    sa.Index(\"ix_${1:table}_${2:col}\", \"${2:col}\"),\n)", false, true));
    assert(v@.map_values(|t: (&'static str, &'static str, &'static str, bool, bool)| (t.0@, t.1@, t.2@, t.3, t.4))
        =~= snippet_catalogue());
    v
}

pub fn complete_snippets(prefix: &[char], in_class: bool) -> (r: Option<Vec<CompletionItem>>)
    ensures
        answer_v(r) == snippets_spec(prefix@, in_class),
{
    if prefix.len() == 0 {
        return None;
    }
    let cat = snippet_entries();
    let ghost cv = cat@.map_values(|t: (&'static str, &'static str, &'static str, bool, bool)| (t.0@, t.1@, t.2@, t.3, t.4));
    let ghost p = |s: SnippetV| snippet_offered(s, prefix@, in_class);
    let ghost f = |s: SnippetV| snippet_v(s);
    let mut out: Vec<CompletionItem> = Vec::new();
    let mut i: usize = 0;
    while i < cat.len()
        invariant
            i <= cat@.len(),
            cv == cat@.map_values(|t: (&'static str, &'static str, &'static str, bool, bool)| (t.0@, t.1@, t.2@, t.3, t.4)),
            p == (|s: SnippetV| snippet_offered(s, prefix@, in_class)),
            f == (|s: SnippetV| snippet_v(s)),
            iviews(out@) == cv.take(i as int).filter(p).map_values(f),
        decreases cat@.len() - i,
    {
        proof {
            assert(cv.take(i + 1) =~= cv.take(i as int).push(cv[i as int]));
            cv.take(i as int).lemma_filter_push(cv[i as int], p);
        }
        let (pre, label, body, root_only, class_only) = cat[i];
        let pc = to_chars(pre);
        let lc = to_chars(label);
        let offered = !(root_only && in_class) && !(class_only && !in_class) && (starts_with_exec(
            pc.as_slice(),
            prefix,
        ) || starts_with_exec(lc.as_slice(), prefix));
        if offered {
            let ghost o = iviews(out@);
            let ghost fl = cv.take(i as int).filter(p);
            out.push(CompletionItem {
                label: crate::text::to_owned(label),
                kind: ItemKind::Snippet,
                detail: None,
                documentation: None,
                insert_text: Some(crate::text::to_owned(body)),
                snippet: true,
                sort_text: None,
            });
            assert(fl.push(cv[i as int]).map_values(f) =~= fl.map_values(f).push(f(cv[i as int])));
            assert(iviews(out@) =~= o.push(snippet_v(cv[i as int])));
        }
        i = i + 1;
    }
    assert(cv.take(cat@.len() as int) =~= cv);
    if out.len() == 0 {
        None
    } else {
        Some(out)
    }
}

/// An Alembic operation item: name, documentation, snippet.
pub open spec fn op_v(name: Seq<char>, doc: Seq<char>, snippet: Seq<char>) -> ItemV {
    ItemV {
        label: name,
        kind: ItemKind::Function,
        detail: None,
        documentation: Some(doc),
        insert_text: Some(snippet),
        snippet: true,
        sort_text: None,
    }
}

/// Every `op.` operation offered.
pub open spec fn op_items_spec() -> Seq<ItemV> {
    seq![
        op_v("add_column"@, "Add a column to an existing table."@, "add_column(\"${1:table}\", sa.Column(\"${2:name}\", sa.${3:String}))"@),
        op_v("drop_column"@, "Drop a column from a table."@, "drop_column(\"${1:table}\", \"${2:column}\")"@),
        op_v("alter_column"@, "Alter a column's type or constraints."@, "alter_column(\"${1:table}\", \"${2:column}\", nullable=${3:True})"@),
        op_v("create_table"@, "Create a new table."@, "create_table(\n    \"${1:table_name}\",\n    sa.Column(\"id\", sa.Integer, primary_key=True),\n)"@),
        op_v("drop_table"@, "Drop a table."@, "drop_table(\"${1:table}\")"@),
        op_v("create_index"@, "Create a new index."@, "create_index(\"${1:name}\", \"${2:table}\", [\"${3:column}\"])"@),
        op_v("drop_index"@, "Drop an index."@, "drop_index(\"${1:name}\", table_name=\"${2:table}\")"@),
        op_v("create_unique_constraint"@, "Add a unique constraint."@, "create_unique_constraint(\"${1:name}\", \"${2:table}\", [\"${3:column}\"])"@),
        op_v("drop_constraint"@, "Drop a named constraint."@, "drop_constraint(\"${1:name}\", \"${2:table}\", type_=\"${3:unique}\")"@),
        op_v("create_foreign_key"@, "Add a foreign-key constraint."@, "create_foreign_key(\"${1:name}\", \"${2:src}\", \"${3:ref}\", [\"${4:local}\"], [\"${5:remote}\"])"@),
        op_v("create_check_constraint"@, "Add a CHECK constraint."@, "create_check_constraint(\"${1:name}\", \"${2:table}\", ${3:condition})"@),
        op_v("rename_table"@, "Rename a table."@, "rename_table(\"${1:old}\", \"${2:new}\")"@),
        op_v("execute"@, "Execute arbitrary SQL."@, "execute(\"${1:sql}\")"@),
        op_v("bulk_insert"@, "Bulk-insert rows."@, "bulk_insert(${1:table}, [${2:rows}])"@),
    ]
}

fn op_item(name: &str, doc: &str, snippet: &str) -> (r: CompletionItem)
    ensures
        r@ == op_v(name@, doc@, snippet@),
{
    CompletionItem {
        label: crate::text::to_owned(name),
        kind: ItemKind::Function,
        detail: None,
        documentation: Some(crate::text::to_owned(doc)),
        insert_text: Some(crate::text::to_owned(snippet)),
        snippet: true,
        sort_text: None,
    }
}

/// The Alembic operations, for `op.`.
pub fn op_items() -> (r: Vec<CompletionItem>)
    ensures
        iviews(r@) == op_items_spec(),
{
    let mut v: Vec<CompletionItem> = Vec::new();
    v.push(op_item("add_column", "Add a column to an existing table.", "add_column(\"${1:table}\", sa.Column(\"${2:name}\", sa.${3:String}))"));
    v.push(op_item("drop_column", "Drop a column from a table.", "drop_column(\"${1:table}\", \"${2:column}\")"));
    v.push(op_item("alter_column", "Alter a column's type or constraints.", "alter_column(\"${1:table}\", \"${2:column}\", nullable=${3:True})"));
    v.push(op_item("create_table", "Create a new table.", "create_table(\n    \"${1:table_name}\",\n    sa.Column(\"id\", sa.Integer, primary_key=True),\n)"));
    v.push(op_item("drop_table", "Drop a table.", "drop_table(\"${1:table}\")"));
    v.push(op_item("create_index", "Create a new index.", "create_index(\"${1:name}\", \"${2:table}\", [\"${3:column}\"])"));
    v.push(op_item("drop_index", "Drop an index.", "drop_index(\"${1:name}\", table_name=\"${2:table}\")"));
    v.push(op_item("create_unique_constraint", "Add a unique constraint.", "create_unique_constraint(\"${1:name}\", \"${2:table}\", [\"${3:column}\"])"));
    v.push(op_item("drop_constraint", "Drop a named constraint.", "drop_constraint(\"${1:name}\", \"${2:table}\", type_=\"${3:unique}\")"));
    v.push(op_item("create_foreign_key", "Add a foreign-key constraint.", "create_foreign_key(\"${1:name}\", \"${2:src}\", \"${3:ref}\", [\"${4:local}\"], [\"${5:remote}\"])"));
    v.push(op_item("create_check_constraint", "Add a CHECK constraint.", "create_check_constraint(\"${1:name}\", \"${2:table}\", ${3:condition})"));
    v.push(op_item("rename_table", "Rename a table.", "rename_table(\"${1:old}\", \"${2:new}\")"));
    v.push(op_item("execute", "Execute arbitrary SQL.", "execute(\"${1:sql}\")"));
    v.push(op_item("bulk_insert", "Bulk-insert rows.", "bulk_insert(${1:table}, [${2:rows}])"));
    assert(iviews(v@) =~= op_items_spec());
    v
}

// ── Items from the workspace index ───────────────────────────────────────────

/// `table.column` of every column of every model with a table.
pub open spec fn fk_model_items(m: Model) -> Seq<ItemV> {
    match m.table_name {
        Some(t) => m.columns.seq().map_values(
            |c: (String, Column)|
                plain(
                    t@ + "."@ + c.0@,
                    ItemKind::Reference,
                    Some(m.name@ + "."@ + c.0@ + " ("@ + type_text(c.1.mapped_type@) + ")"@),
                ),
        ),
        None => Seq::empty(),
    }
}

pub open spec fn fk_file_items_f() -> spec_fn((String, Vec<Model>)) -> Seq<ItemV> {
    |e: (String, Vec<Model>)| cat_map(e.1@, |m: Model| fk_model_items(m))
}

/// Every foreign-key target in the workspace.
pub open spec fn fk_candidates(st: WorkspaceState) -> Seq<ItemV> {
    cat_map(st.file_models.seq(), fk_file_items_f())
}

fn push_fk_model_items(out: &mut Vec<CompletionItem>, m: &Model)
    ensures
        iviews(final(out)@) == iviews(old(out)@) + fk_model_items(*m),
{
    let t = match &m.table_name {
        Some(t) => t,
        None => {
            assert(iviews(old(out)@) + Seq::<ItemV>::empty() =~= iviews(old(out)@));
            return;
        },
    };
    let cols = m.columns.entries();
    let ghost start = iviews(out@);
    let ghost f = |c: (String, Column)|
        plain(
            t@ + "."@ + c.0@,
            ItemKind::Reference,
            Some(m.name@ + "."@ + c.0@ + " ("@ + type_text(c.1.mapped_type@) + ")"@),
        );
    let mut i: usize = 0;
    while i < cols.len()
        invariant
            i <= cols@.len(),
            cols@ == m.columns.seq(),
            m.table_name == Some(*t),
            f == (|c: (String, Column)|
                plain(
                    t@ + "."@ + c.0@,
                    ItemKind::Reference,
                    Some(m.name@ + "."@ + c.0@ + " ("@ + type_text(c.1.mapped_type@) + ")"@),
                )),
            iviews(out@) == start + cols@.take(i as int).map_values(f),
        decreases cols@.len() - i,
    {
        let (name, col) = &cols[i];
        let mut label = crate::text::to_owned(t.as_str());
        crate::text::push_str(&mut label, ".");
        crate::text::push_str(&mut label, name.as_str());
        let mut detail = crate::text::to_owned(m.name.as_str());
        crate::text::push_str(&mut detail, ".");
        crate::text::push_str(&mut detail, name.as_str());
        crate::text::push_str(&mut detail, " (");
        let ty = col.mapped_type.to_display();
        crate::text::push_str(&mut detail, ty.as_str());
        crate::text::push_str(&mut detail, ")");
        let ghost o = iviews(out@);
        out.push(CompletionItem {
            label,
            kind: ItemKind::Reference,
            detail: Some(detail),
            documentation: None,
            insert_text: None,
            snippet: false,
            sort_text: None,
        });
        proof {
            assert(cols@[i as int] == (*name, *col));
            assert(cols@.take(i + 1).map_values(f) =~= cols@.take(i as int).map_values(f).push(f(cols@[i as int])));
            assert(iviews(out@) =~= o.push(f(cols@[i as int])));
        }
        i = i + 1;
    }
    assert(cols@.take(cols@.len() as int) =~= cols@);
}

/// Foreign-key targets starting with the text typed in the string.
pub fn complete_fk(prefix: &[char], state: &WorkspaceState) -> (r: Option<Vec<CompletionItem>>)
    ensures
        answer_v(r) == answer(with_prefix(fk_candidates(*state), prefix@)),
{
    let ghost ff = fk_file_items_f();
    let ghost mf = |m: Model| fk_model_items(m);
    let files = state.file_models.entries();
    let mut out: Vec<CompletionItem> = Vec::new();
    let mut i: usize = 0;
    while i < files.len()
        invariant
            i <= files@.len(),
            files@ == state.file_models.seq(),
            ff == fk_file_items_f(),
            mf == (|m: Model| fk_model_items(m)),
            iviews(out@) == cat_map(files@.take(i as int), ff),
        decreases files@.len() - i,
    {
        proof {
            lemma_cat_map_take(files@, ff, i as int);
        }
        let models = &files[i].1;
        let ghost start = iviews(out@);
        let mut j: usize = 0;
        while j < models.len()
            invariant
                j <= models@.len(),
                mf == (|m: Model| fk_model_items(m)),
                iviews(out@) == start + cat_map(models@.take(j as int), mf),
            decreases models@.len() - j,
        {
            proof {
                lemma_cat_map_take(models@, mf, j as int);
            }
            push_fk_model_items(&mut out, &models[j]);
            j = j + 1;
        }
        assert(models@.take(models@.len() as int) =~= models@);
        i = i + 1;
    }
    assert(files@.take(files@.len() as int) =~= files@);
    filter_by_label(out, prefix)
}

/// The relationships of `target`, as counterpart names.
pub open spec fn bp_items(m: Model, target: Seq<char>) -> Seq<ItemV> {
    m.relationships.seq().map_values(
        |e: (String, Relationship)| plain(e.0@, ItemKind::Field, Some(target + "."@ + e.0@)),
    )
}

/// Counterparts on the target model starting with the typed text.
pub open spec fn back_populates_spec(st: WorkspaceState, target: Seq<char>, prefix: Seq<char>) -> Option<Seq<ItemV>> {
    match lookup_model(st, target) {
        Some(m) => answer(with_prefix(bp_items(m, target), prefix)),
        None => None,
    }
}

pub fn complete_back_populates(target: &str, prefix: &[char], state: &WorkspaceState) -> (r: Option<Vec<CompletionItem>>)
    ensures
        answer_v(r) == back_populates_spec(*state, target@, prefix@),
{
    let m = lookup_model_exec(state, target)?;
    let rels = m.relationships.entries();
    let ghost f = |e: (String, Relationship)| plain(e.0@, ItemKind::Field, Some(target@ + "."@ + e.0@));
    let mut out: Vec<CompletionItem> = Vec::new();
    let mut i: usize = 0;
    while i < rels.len()
        invariant
            i <= rels@.len(),
            rels@ == m.relationships.seq(),
            f == (|e: (String, Relationship)| plain(e.0@, ItemKind::Field, Some(target@ + "."@ + e.0@))),
            iviews(out@) == rels@.take(i as int).map_values(f),
        decreases rels@.len() - i,
    {
        let k = &rels[i].0;
        let mut detail = crate::text::to_owned(target);
        crate::text::push_str(&mut detail, ".");
        crate::text::push_str(&mut detail, k.as_str());
        let ghost o = iviews(out@);
        out.push(plain_item(k.as_str(), ItemKind::Field, Some(detail.as_str())));
        proof {
            assert(rels@.take(i + 1).map_values(f) =~= rels@.take(i as int).map_values(f).push(f(rels@[i as int])));
            assert(iviews(out@) =~= o.push(f(rels@[i as int])));
        }
        i = i + 1;
    }
    assert(rels@.take(rels@.len() as int) =~= rels@);
    filter_by_label(out, prefix)
}

/// Every indexed model name, as relationship targets.
pub open spec fn model_name_items(st: WorkspaceState) -> Seq<ItemV> {
    st.model_index.seq().map_values(
        |e: (String, crate::types::ModelLocation)| plain(e.0@, ItemKind::Class, None),
    )
}

pub fn complete_rel_target_models(prefix: &[char], state: &WorkspaceState) -> (r: Option<Vec<CompletionItem>>)
    ensures
        answer_v(r) == answer(with_prefix(model_name_items(*state), prefix@)),
{
    let ents = state.model_index.entries();
    let ghost f = |e: (String, crate::types::ModelLocation)| plain(e.0@, ItemKind::Class, None);
    let mut out: Vec<CompletionItem> = Vec::new();
    let mut i: usize = 0;
    while i < ents.len()
        invariant
            i <= ents@.len(),
            ents@ == state.model_index.seq(),
            f == (|e: (String, crate::types::ModelLocation)| plain(e.0@, ItemKind::Class, None)),
            iviews(out@) == ents@.take(i as int).map_values(f),
        decreases ents@.len() - i,
    {
        let ghost o = iviews(out@);
        out.push(plain_item(ents[i].0.as_str(), ItemKind::Class, None));
        proof {
            assert(ents@.take(i + 1).map_values(f) =~= ents@.take(i as int).map_values(f).push(f(ents@[i as int])));
            assert(iviews(out@) =~= o.push(f(ents@[i as int])));
        }
        i = i + 1;
    }
    assert(ents@.take(ents@.len() as int) =~= ents@);
    filter_by_label(out, prefix)
}

/// The columns of a model, each with its type.
pub open spec fn column_type_items(m: Model) -> Seq<ItemV> {
    m.columns.seq().map_values(
        |c: (String, Column)| plain(c.0@, ItemKind::Field, Some(type_text(c.1.mapped_type@))),
    )
}

/// Columns of the class being defined, for a constraint's column strings.
pub open spec fn table_arg_columns_spec(st: WorkspaceState, class_name: Seq<char>, prefix: Seq<char>) -> Option<Seq<ItemV>> {
    match lookup_model(st, class_name) {
        Some(m) => answer(with_prefix(column_type_items(m), prefix)),
        None => None,
    }
}

pub fn complete_table_arg_columns(class_name: &str, prefix: &[char], state: &WorkspaceState) -> (r: Option<Vec<CompletionItem>>)
    ensures
        answer_v(r) == table_arg_columns_spec(*state, class_name@, prefix@),
{
    let m = lookup_model_exec(state, class_name)?;
    let cols = m.columns.entries();
    let ghost f = |c: (String, Column)| plain(c.0@, ItemKind::Field, Some(type_text(c.1.mapped_type@)));
    let mut out: Vec<CompletionItem> = Vec::new();
    let mut i: usize = 0;
    while i < cols.len()
        invariant
            i <= cols@.len(),
            cols@ == m.columns.seq(),
            f == (|c: (String, Column)| plain(c.0@, ItemKind::Field, Some(type_text(c.1.mapped_type@)))),
            iviews(out@) == cols@.take(i as int).map_values(f),
        decreases cols@.len() - i,
    {
        let ty = cols[i].1.mapped_type.to_display();
        let ghost o = iviews(out@);
        out.push(plain_item(cols[i].0.as_str(), ItemKind::Field, Some(ty.as_str())));
        proof {
            assert(cols@.take(i + 1).map_values(f) =~= cols@.take(i as int).map_values(f).push(f(cols@[i as int])));
            assert(iviews(out@) =~= o.push(f(cols@[i as int])));
        }
        i = i + 1;
    }
    assert(cols@.take(cols@.len() as int) =~= cols@);
    filter_by_label(out, prefix)
}

/// A constructor keyword for a column, sorted before the relationships.
pub open spec fn ctor_col(c: (String, Column)) -> ItemV {
    ItemV {
        sort_text: Some("0"@ + c.0@),
        ..kwarg_v(c.0@, c.0@ + "=$1"@, type_text(c.1.mapped_type@))
    }
}

/// A constructor keyword for a relationship.
pub open spec fn ctor_rel(e: (String, Relationship)) -> ItemV {
    ItemV {
        sort_text: Some("1"@ + e.0@),
        ..kwarg_v(
            e.0@,
            e.0@ + "=$1"@,
            if e.1.is_list {
                "list["@ + e.1.target_model@ + "]"@
            } else {
                e.1.target_model@
            },
        )
    }
}

/// The keywords of a model's constructor starting with the typed word:
/// columns, then relationships.
pub open spec fn ctor_spec(st: WorkspaceState, model: Seq<char>, prefix: Seq<char>) -> Option<Seq<ItemV>> {
    match lookup_model(st, model) {
        Some(m) => answer(
            with_prefix(m.columns.seq().map_values(|c: (String, Column)| ctor_col(c)), prefix) + with_prefix(
                m.relationships.seq().map_values(|e: (String, Relationship)| ctor_rel(e)),
                prefix,
            ),
        ),
        None => None,
    }
}

fn sort_key(lead: &str, k: &str) -> (r: String)
    ensures
        r@ == lead@ + k@,
{
    crate::text::concat2(lead, k)
}

pub fn complete_model_constructor(model_name: &str, prefix: &[char], state: &WorkspaceState) -> (r: Option<Vec<CompletionItem>>)
    ensures
        answer_v(r) == ctor_spec(*state, model_name@, prefix@),
{
    let m = lookup_model_exec(state, model_name)?;
    let cols = m.columns.entries();
    let ghost fc = |c: (String, Column)| ctor_col(c);
    let mut cv: Vec<CompletionItem> = Vec::new();
    let mut i: usize = 0;
    while i < cols.len()
        invariant
            i <= cols@.len(),
            cols@ == m.columns.seq(),
            fc == (|c: (String, Column)| ctor_col(c)),
            iviews(cv@) == cols@.take(i as int).map_values(fc),
        decreases cols@.len() - i,
    {
        let k = cols[i].0.as_str();
        let ty = cols[i].1.mapped_type.to_display();
        let snip = crate::text::concat2(k, "=$1");
        let mut item = kwarg_item(k, snip.as_str(), ty.as_str());
        item.sort_text = Some(sort_key("0", k));
        let ghost o = iviews(cv@);
        cv.push(item);
        proof {
            assert(cols@.take(i + 1).map_values(fc) =~= cols@.take(i as int).map_values(fc).push(fc(cols@[i as int])));
            assert(iviews(cv@) =~= o.push(fc(cols@[i as int])));
        }
        i = i + 1;
    }
    assert(cols@.take(cols@.len() as int) =~= cols@);
    let rels = m.relationships.entries();
    let ghost fr = |e: (String, Relationship)| ctor_rel(e);
    let mut rv: Vec<CompletionItem> = Vec::new();
    let mut j: usize = 0;
    while j < rels.len()
        invariant
            j <= rels@.len(),
            rels@ == m.relationships.seq(),
            fr == (|e: (String, Relationship)| ctor_rel(e)),
            iviews(rv@) == rels@.take(j as int).map_values(fr),
        decreases rels@.len() - j,
    {
        let k = rels[j].0.as_str();
        let r = &rels[j].1;
        let detail = if r.is_list {
            let mut d = crate::text::to_owned("list[");
            crate::text::push_str(&mut d, r.target_model.as_str());
            crate::text::push_str(&mut d, "]");
            d
        } else {
            crate::text::to_owned(r.target_model.as_str())
        };
        let snip = crate::text::concat2(k, "=$1");
        let mut item = kwarg_item(k, snip.as_str(), detail.as_str());
        item.sort_text = Some(sort_key("1", k));
        let ghost o = iviews(rv@);
        rv.push(item);
        proof {
            assert(rels@.take(j + 1).map_values(fr) =~= rels@.take(j as int).map_values(fr).push(fr(rels@[j as int])));
            assert(iviews(rv@) =~= o.push(fr(rels@[j as int])));
        }
        j = j + 1;
    }
    assert(rels@.take(rels@.len() as int) =~= rels@);
    let mut a = filter_list(cv, prefix);
    let mut b = filter_list(rv, prefix);
    let ghost av = iviews(a@);
    let ghost bv = iviews(b@);
    a.append(&mut b);
    assert(iviews(a@) =~= av + bv);
    if a.len() == 0 {
        None
    } else {
        Some(a)
    }
}

// ── Alembic operation arguments ──────────────────────────────────────────────

/// Which argument of an operation names the table.
pub open spec fn op_table_idx(op: Seq<char>) -> usize {
    if op == "create_index"@ || op == "create_unique_constraint"@ || op == "create_foreign_key"@ {
        1
    } else {
        0
    }
}

/// Which argument of an operation names the column, if any.
pub open spec fn op_col_idx(op: Seq<char>) -> usize {
    if op == "drop_column"@ || op == "alter_column"@ {
        (op_table_idx(op) + 1) as usize
    } else {
        usize::MAX
    }
}

/// The first model of a file whose table is `t`.
pub open spec fn model_with_table(ms: Seq<Model>, t: Seq<char>) -> Option<Model>
    decreases ms.len(),
{
    if ms.len() == 0 {
        None
    } else if ms[0].table_name is Some && ms[0].table_name->0@ == t {
        Some(ms[0])
    } else {
        model_with_table(ms.drop_first(), t)
    }
}

/// The model mapping table `t`, found through the table and model indexes.
pub open spec fn table_model(st: WorkspaceState, t: Seq<char>) -> Option<Model> {
    if st.table_index@.contains_key(t) {
        let mn = st.table_index@[t]@;
        if st.model_index@.contains_key(mn) {
            let u = st.model_index@[mn].uri@;
            if st.file_models@.contains_key(u) {
                model_with_table(st.file_models@[u]@, t)
            } else {
                None
            }
        } else {
            None
        }
    } else {
        None
    }
}

/// The table names of the index, as values.
pub open spec fn table_items(st: WorkspaceState) -> Seq<ItemV> {
    st.table_index.seq().map_values(|e: (String, String)| plain(e.0@, ItemKind::Value, None))
}

/// The column names of a model.
pub open spec fn column_name_items(m: Model) -> Seq<ItemV> {
    m.columns.seq().map_values(|c: (String, Column)| plain(c.0@, ItemKind::Field, None))
}

/// Tables or columns for the argument the cursor is in.
pub open spec fn op_args_spec(
    st: WorkspaceState,
    op: Seq<char>,
    arg_idx: usize,
    partial: Seq<char>,
    call: SyntaxNode,
) -> Option<Seq<ItemV>> {
    let ti = op_table_idx(op);
    if arg_idx == ti {
        answer(with_prefix(table_items(st), partial))
    } else if arg_idx == op_col_idx(op) {
        match field_child(call, "arguments"@) {
            None => None,
            Some(args) => {
                let ps = crate::migration::positional(args);
                if (ti as int) < ps.len() && is_kind(ps[ti as int], "string"@) {
                    match table_model(st, crate::extractor::unquoted(ps[ti as int].text@)) {
                        Some(m) => answer(with_prefix(column_name_items(m), partial)),
                        None => None,
                    }
                } else {
                    None
                }
            },
        }
    } else {
        None
    }
}

pub(crate) fn model_with_table_exec<'a>(ms: &'a Vec<Model>, t: &str) -> (r: Option<&'a Model>)
    ensures
        match r {
            Some(m) => model_with_table(ms@, t@) == Some(*m),
            None => model_with_table(ms@, t@) is None,
        },
{
    let mut i: usize = 0;
    assert(ms@.skip(0) =~= ms@);
    while i < ms.len()
        invariant
            i <= ms@.len(),
            model_with_table(ms@, t@) == model_with_table(ms@.skip(i as int), t@),
        decreases ms@.len() - i,
    {
        let hit = match &ms[i].table_name {
            Some(tn) => str_eq(tn.as_str(), t),
            None => false,
        };
        if hit {
            return Some(&ms[i]);
        }
        assert(ms@.skip(i as int).drop_first() =~= ms@.skip(i + 1));
        i = i + 1;
    }
    None
}

pub(crate) fn table_model_exec<'a>(state: &'a WorkspaceState, t: &str) -> (r: Option<&'a Model>)
    ensures
        match r {
            Some(m) => table_model(*state, t@) == Some(*m),
            None => table_model(*state, t@) is None,
        },
{
    let mn = state.table_index.get(t)?;
    let loc = state.model_index.get(mn.as_str())?;
    let ms = state.file_models.get(loc.uri.as_str())?;
    model_with_table_exec(ms, t)
}

pub fn complete_op_table_or_column(
    op_name: &str,
    arg_idx: usize,
    partial: &[char],
    state: &WorkspaceState,
    call: &SyntaxNode,
) -> (r: Option<Vec<CompletionItem>>)
    ensures
        answer_v(r) == op_args_spec(*state, op_name@, arg_idx, partial@, *call),
{
    let ti: usize = if str_eq(op_name, "create_index") || str_eq(op_name, "create_unique_constraint") || str_eq(
        op_name,
        "create_foreign_key",
    ) {
        1
    } else {
        0
    };
    let ci: usize = if str_eq(op_name, "drop_column") || str_eq(op_name, "alter_column") {
        ti + 1
    } else {
        usize::MAX
    };
    if arg_idx == ti {
        let ents = state.table_index.entries();
        let ghost f = |e: (String, String)| plain(e.0@, ItemKind::Value, None);
        let mut out: Vec<CompletionItem> = Vec::new();
        let mut i: usize = 0;
        while i < ents.len()
            invariant
                i <= ents@.len(),
                ents@ == state.table_index.seq(),
                f == (|e: (String, String)| plain(e.0@, ItemKind::Value, None)),
                iviews(out@) == ents@.take(i as int).map_values(f),
            decreases ents@.len() - i,
        {
            let ghost o = iviews(out@);
            out.push(plain_item(ents[i].0.as_str(), ItemKind::Value, None));
            proof {
                assert(ents@.take(i + 1).map_values(f) =~= ents@.take(i as int).map_values(f).push(f(ents@[i as int])));
                assert(iviews(out@) =~= o.push(f(ents@[i as int])));
            }
            i = i + 1;
        }
        assert(ents@.take(ents@.len() as int) =~= ents@);
        return filter_by_label(out, partial);
    }
    if arg_idx != ci {
        return None;
    }
    let args = child_by_field(call, "arguments")?;
    let ps = crate::migration::positional_args(args);
    if ti >= ps.len() {
        return None;
    }
    assert(ps@.map_values(|c: &SyntaxNode| *c)[ti as int] == *ps@[ti as int]);
    if !kind_is(ps[ti], "string") {
        return None;
    }
    let tc = to_chars(ps[ti].text.as_str());
    let table = crate::text::from_chars(crate::extractor::strip_quotes(tc.as_slice()).as_slice());
    let m = table_model_exec(state, table.as_str())?;
    let cols = m.columns.entries();
    let ghost f = |c: (String, Column)| plain(c.0@, ItemKind::Field, None);
    let mut out: Vec<CompletionItem> = Vec::new();
    let mut i: usize = 0;
    while i < cols.len()
        invariant
            i <= cols@.len(),
            cols@ == m.columns.seq(),
            f == (|c: (String, Column)| plain(c.0@, ItemKind::Field, None)),
            iviews(out@) == cols@.take(i as int).map_values(f),
        decreases cols@.len() - i,
    {
        let ghost o = iviews(out@);
        out.push(plain_item(cols[i].0.as_str(), ItemKind::Field, None));
        proof {
            assert(cols@.take(i + 1).map_values(f) =~= cols@.take(i as int).map_values(f).push(f(cols@[i as int])));
            assert(iviews(out@) =~= o.push(f(cols@[i as int])));
        }
        i = i + 1;
    }
    assert(cols@.take(cols@.len() as int) =~= cols@);
    filter_by_label(out, partial)
}

// ── Where the cursor is in the tree ──────────────────────────────────────────

/// Positions compared as (row, column) pairs.
pub open spec fn pt_lt(a: (u32, u32), b: (u32, u32)) -> bool {
    a.0 < b.0 || (a.0 == b.0 && a.1 < b.1)
}

pub open spec fn start_pt(n: SyntaxNode) -> (u32, u32) {
    (n.range.start_line, n.range.start_col)
}

pub open spec fn end_pt(n: SyntaxNode) -> (u32, u32) {
    (n.range.end_line, n.range.end_col)
}

/// The first child (from `i`) that ends after the point.
pub open spec fn first_ending_after(kids: Seq<SyntaxNode>, p: (u32, u32), i: int) -> int
    decreases kids.len() - i,
{
    if i < 0 || i >= kids.len() {
        -1
    } else if pt_lt(p, end_pt(kids[i])) {
        i
    } else {
        first_ending_after(kids, p, i + 1)
    }
}

/// The nodes from `n` down to the smallest one at the point: at each level
/// the first child that ends after the point, if it starts at or before it.
pub open spec fn point_path(n: SyntaxNode, p: (u32, u32)) -> Seq<SyntaxNode>
    decreases n,
{
    let k = first_ending_after(n.children@, p, 0);
    if 0 <= k < n.children@.len() && !pt_lt(p, start_pt(n.children@[k])) {
        proof {
            assert(decreases_to!(n => n.children));
            assert(decreases_to!(n.children => n.children@));
            assert(decreases_to!(n.children@ => n.children@[k]));
        }
        seq![n] + point_path(n.children@[k], p)
    } else {
        seq![n]
    }
}

pub(crate) fn point_path_exec<'a>(n: &'a SyntaxNode, p: (u32, u32)) -> (r: Vec<&'a SyntaxNode>)
    ensures
        r@.map_values(|c: &SyntaxNode| *c) == point_path(*n, p),
    decreases n,
{
    let mut i: usize = 0;
    while i < n.children.len() && !(p.0 < n.children[i].range.end_line || (p.0 == n.children[i].range.end_line
        && p.1 < n.children[i].range.end_col))
        invariant
            i <= n.children@.len(),
            first_ending_after(n.children@, p, 0) == first_ending_after(n.children@, p, i as int),
        decreases n.children@.len() - i,
    {
        i = i + 1;
    }
    let mut out: Vec<&SyntaxNode> = Vec::new();
    out.push(n);
    if i < n.children.len() {
        let c = &n.children[i];
        if !(p.0 < c.range.start_line || (p.0 == c.range.start_line && p.1 < c.range.start_col)) {
            proof {
                assert(decreases_to!(n => n.children));
                assert(decreases_to!(n.children => n.children@));
                assert(decreases_to!(n.children@ => *c));
            }
            let mut rest = point_path_exec(c, p);
            let ghost rv = rest@.map_values(|x: &SyntaxNode| *x);
            out.append(&mut rest);
            assert(out@.map_values(|x: &SyntaxNode| *x) =~= seq![*n] + rv);
            return out;
        }
    }
    assert(out@.map_values(|x: &SyntaxNode| *x) =~= seq![*n]);
    out
}

/// The innermost call on the path (from the leaf up), unless a module,
/// class or decorated definition comes first.
pub open spec fn enclosing_call_from(path: Seq<SyntaxNode>, i: int) -> Option<SyntaxNode>
    decreases i + 1,
{
    if i < 0 || i >= path.len() {
        None
    } else if is_kind(path[i], "call"@) {
        Some(path[i])
    } else if is_kind(path[i], "module"@) || is_kind(path[i], "class_definition"@) || is_kind(
        path[i],
        "decorated_definition"@,
    ) {
        None
    } else {
        enclosing_call_from(path, i - 1)
    }
}

/// Whether a class definition encloses the leaf (before a module does).
pub open spec fn in_class_from(path: Seq<SyntaxNode>, i: int) -> bool
    decreases i + 1,
{
    if i < 0 || i >= path.len() {
        false
    } else if is_kind(path[i], "class_definition"@) {
        true
    } else if is_kind(path[i], "module"@) {
        false
    } else {
        in_class_from(path, i - 1)
    }
}

/// The key of the innermost keyword argument around the leaf.
pub open spec fn kwarg_key_from(path: Seq<SyntaxNode>, i: int) -> Option<Seq<char>>
    decreases i + 1,
{
    if i < 0 || i >= path.len() {
        None
    } else if is_kind(path[i], "keyword_argument"@) {
        match field_child(path[i], "name"@) {
            Some(n) => Some(n.text@),
            None => None,
        }
    } else {
        kwarg_key_from(path, i - 1)
    }
}

/// The name of the class around the leaf.
pub open spec fn class_name_from(path: Seq<SyntaxNode>, i: int) -> Option<Seq<char>>
    decreases i + 1,
{
    if i < 0 || i >= path.len() {
        None
    } else if is_kind(path[i], "class_definition"@) {
        match field_child(path[i], "name"@) {
            Some(n) => Some(n.text@),
            None => None,
        }
    } else if is_kind(path[i], "module"@) {
        None
    } else {
        class_name_from(path, i - 1)
    }
}

fn enclosing_call<'a>(path: &Vec<&'a SyntaxNode>) -> (r: Option<&'a SyntaxNode>)
    ensures
        match r {
            Some(c) => enclosing_call_from(path@.map_values(|c: &SyntaxNode| *c), path@.len() - 1) == Some(*c),
            None => enclosing_call_from(path@.map_values(|c: &SyntaxNode| *c), path@.len() - 1) is None,
        },
{
    let ghost pv = path@.map_values(|c: &SyntaxNode| *c);
    let mut i = path.len();
    while i > 0
        invariant
            i <= path@.len(),
            pv == path@.map_values(|c: &SyntaxNode| *c),
            enclosing_call_from(pv, path@.len() - 1) == enclosing_call_from(pv, i - 1),
        decreases i,
    {
        let n = path[i - 1];
        assert(pv[i - 1] == *n);
        if kind_is(n, "call") {
            return Some(n);
        }
        if kind_is(n, "module") || kind_is(n, "class_definition") || kind_is(n, "decorated_definition") {
            return None;
        }
        i = i - 1;
    }
    None
}

fn in_class(path: &Vec<&SyntaxNode>) -> (r: bool)
    requires
        path@.len() > 0,
    ensures
        r == in_class_from(path@.map_values(|c: &SyntaxNode| *c), path@.len() - 2),
{
    let ghost pv = path@.map_values(|c: &SyntaxNode| *c);
    let mut i = path.len() - 1;
    while i > 0
        invariant
            i <= path@.len() - 1,
            pv == path@.map_values(|c: &SyntaxNode| *c),
            in_class_from(pv, path@.len() - 2) == in_class_from(pv, i - 1),
        decreases i,
    {
        let n = path[i - 1];
        assert(pv[i - 1] == *n);
        if kind_is(n, "class_definition") {
            return true;
        }
        if kind_is(n, "module") {
            return false;
        }
        i = i - 1;
    }
    false
}

fn kwarg_key_from_ast(path: &Vec<&SyntaxNode>) -> (r: Option<Vec<char>>)
    ensures
        match r {
            Some(k) => kwarg_key_from(path@.map_values(|c: &SyntaxNode| *c), path@.len() - 1) == Some(k@),
            None => kwarg_key_from(path@.map_values(|c: &SyntaxNode| *c), path@.len() - 1) is None,
        },
{
    let ghost pv = path@.map_values(|c: &SyntaxNode| *c);
    let mut i = path.len();
    while i > 0
        invariant
            i <= path@.len(),
            pv == path@.map_values(|c: &SyntaxNode| *c),
            kwarg_key_from(pv, path@.len() - 1) == kwarg_key_from(pv, i - 1),
        decreases i,
    {
        let n = path[i - 1];
        assert(pv[i - 1] == *n);
        if kind_is(n, "keyword_argument") {
            return match child_by_field(n, "name") {
                Some(k) => Some(to_chars(k.text.as_str())),
                None => None,
            };
        }
        i = i - 1;
    }
    None
}

fn class_name_ast(path: &Vec<&SyntaxNode>) -> (r: Option<String>)
    ensures
        match r {
            Some(k) => class_name_from(path@.map_values(|c: &SyntaxNode| *c), path@.len() - 1) == Some(k@),
            None => class_name_from(path@.map_values(|c: &SyntaxNode| *c), path@.len() - 1) is None,
        },
{
    let ghost pv = path@.map_values(|c: &SyntaxNode| *c);
    let mut i = path.len();
    while i > 0
        invariant
            i <= path@.len(),
            pv == path@.map_values(|c: &SyntaxNode| *c),
            class_name_from(pv, path@.len() - 1) == class_name_from(pv, i - 1),
        decreases i,
    {
        let n = path[i - 1];
        assert(pv[i - 1] == *n);
        if kind_is(n, "class_definition") {
            return match child_by_field(n, "name") {
                Some(k) => Some(k.text.clone()),
                None => None,
            };
        }
        if kind_is(n, "module") {
            return None;
        }
        i = i - 1;
    }
    None
}

// ── The cursor within a call's arguments ─────────────────────────────────────

/// Whether the cursor is on a keyword's name or in its value.
#[derive(Clone, Copy, Debug, PartialEq, Eq, Structural)]
pub enum KwargPos {
    Key,
    Value,
}

/// The cursor lies within a node, its end included.
pub open spec fn within(n: SyntaxNode, row: u32, col: u32) -> bool {
    (row > n.range.start_line || (row == n.range.start_line && col >= n.range.start_col)) && (row
        < n.range.end_line || (row == n.range.end_line && col <= n.range.end_col))
}

/// Where the cursor is in the first keyword argument (from `i`) it lies in;
/// a keyword without a name answers nothing.
pub open spec fn kwarg_pos_from(kids: Seq<SyntaxNode>, row: u32, col: u32, i: int) -> Option<KwargPos>
    decreases kids.len() - i,
{
    if i < 0 || i >= kids.len() {
        None
    } else if is_kind(kids[i], "keyword_argument"@) && within(kids[i], row, col) {
        match field_child(kids[i], "name"@) {
            None => None,
            Some(nm) => if row > nm.range.end_line || (row == nm.range.end_line && col > nm.range.end_col) {
                Some(KwargPos::Value)
            } else {
                Some(KwargPos::Key)
            },
        }
    } else {
        kwarg_pos_from(kids, row, col, i + 1)
    }
}

pub fn kwarg_position(args: &SyntaxNode, row: u32, col: u32) -> (r: Option<KwargPos>)
    ensures
        r == kwarg_pos_from(crate::syntax::named_kids(*args), row, col, 0),
{
    let kids = crate::syntax::named_children(args);
    let ghost ks = kids@.map_values(|c: &SyntaxNode| *c);
    let mut i: usize = 0;
    while i < kids.len()
        invariant
            i <= kids@.len(),
            ks == kids@.map_values(|c: &SyntaxNode| *c),
            ks == crate::syntax::named_kids(*args),
            kwarg_pos_from(ks, row, col, 0) == kwarg_pos_from(ks, row, col, i as int),
        decreases kids@.len() - i,
    {
        let c = kids[i];
        assert(ks[i as int] == *c);
        let r = c.range;
        let inr = (row > r.start_line || (row == r.start_line && col >= r.start_col)) && (row < r.end_line || (row
            == r.end_line && col <= r.end_col));
        if kind_is(c, "keyword_argument") && inr {
            let nm = child_by_field(c, "name")?;
            if row > nm.range.end_line || (row == nm.range.end_line && col > nm.range.end_col) {
                return Some(KwargPos::Value);
            }
            return Some(KwargPos::Key);
        }
        i = i + 1;
    }
    None
}

/// The byte offset of a cursor: the lengths (plus newline) of the lines
/// before it, then its column.
pub open spec fn lines_bytes(ls: Seq<Seq<char>>) -> nat
    decreases ls.len(),
{
    if ls.len() == 0 {
        0
    } else {
        lines_bytes(ls.drop_last()) + wsum(ls.last(), true) + 1
    }
}

pub open spec fn cursor_byte(source: Seq<char>, row: u32, col: u32) -> nat {
    lines_bytes(lines(source).take(min_nat(row as nat, lines(source).len()) as int)) + (col as nat)
}

pub open spec fn min_nat(a: nat, b: nat) -> nat {
    if a <= b {
        a
    } else {
        b
    }
}

/// The comma count of an argument list up to the cursor.
pub struct CommaScan {
    pub depth: int,
    pub in_str: bool,
    pub quote: char,
    pub commas: nat,
    pub past_open: bool,
}

pub open spec fn comma_step(c: CommaScan, ch: char) -> CommaScan {
    if !c.in_str {
        if ch == '(' || ch == '[' || ch == '{' {
            CommaScan { depth: c.depth + 1, past_open: true, ..c }
        } else if ch == ')' || ch == ']' || ch == '}' {
            CommaScan { depth: c.depth - 1, ..c }
        } else if (ch == '"' || ch == '\'') && c.depth >= 1 {
            CommaScan { in_str: true, quote: ch, ..c }
        } else if ch == ',' && c.depth == 1 && c.past_open {
            CommaScan { commas: c.commas + 1, ..c }
        } else {
            c
        }
    } else if ch == c.quote {
        CommaScan { in_str: false, ..c }
    } else {
        c
    }
}

pub open spec fn comma_scan(t: Seq<char>) -> CommaScan
    decreases t.len(),
{
    if t.len() == 0 {
        CommaScan { depth: 0, in_str: false, quote: ' ', commas: 0, past_open: false }
    } else {
        comma_step(comma_scan(t.drop_last()), t.last())
    }
}

/// The source text between two byte offsets, or nothing when either falls
/// inside a character.
pub open spec fn byte_slice(source: Seq<char>, a: int, b: int) -> Seq<char> {
    if on_boundary(source, a) && on_boundary(source, b) {
        source.subrange(char_index(source, a), char_index(source, b))
    } else {
        Seq::empty()
    }
}

/// Which positional argument the cursor is in: the top-level commas of the
/// argument list before it.
pub open spec fn arg_index_spec(args: SyntaxNode, row: u32, col: u32, source: Seq<char>) -> nat {
    let cb = cursor_byte(source, row, col);
    if cb <= args.start_byte {
        0
    } else {
        let e = if cb < args.end_byte { cb } else { args.end_byte as nat };
        comma_scan(byte_slice(source, args.start_byte as int, e as int)).commas
    }
}

/// The argument list lies within the source and the cursor's offset fits.
pub open spec fn arg_index_ok(args: SyntaxNode, row: u32, col: u32, source: Seq<char>) -> bool {
    args.start_byte <= args.end_byte && args.end_byte <= wsum(source, true) && cursor_byte(source, row, col)
        <= usize::MAX
}

proof fn lemma_lines_bytes_mono(ls: Seq<Seq<char>>, k: int)
    requires
        0 <= k <= ls.len(),
    ensures
        lines_bytes(ls.take(k)) <= lines_bytes(ls),
    decreases ls.len(),
{
    if k < ls.len() {
        assert(ls.take(k) =~= ls.drop_last().take(k));
        lemma_lines_bytes_mono(ls.drop_last(), k);
    } else {
        assert(ls.take(k) =~= ls);
    }
}

fn cursor_byte_exec(source: &str, row: u32, col: u32) -> (r: usize)
    requires
        cursor_byte(source@, row, col) <= usize::MAX,
    ensures
        r as nat == cursor_byte(source@, row, col),
{
    let ls = crate::text::lines_exec(source);
    let ghost lv = lines(source@);
    let n = if (row as usize) < ls.len() {
        row as usize
    } else {
        ls.len()
    };
    proof {
        lemma_lines_bytes_mono(lv.take(n as int), n as int);
    }
    let mut sum: usize = 0;
    let mut i: usize = 0;
    while i < n
        invariant
            i <= n,
            n <= ls@.len(),
            ls@.len() == lv.len(),
            forall|k: int| 0 <= k < ls@.len() ==> #[trigger] ls@[k]@ == lv[k],
            n == min_nat(row as nat, lv.len()),
            lines_bytes(lv.take(n as int)) + col <= usize::MAX,
            sum as nat == lines_bytes(lv.take(i as int)),
        decreases n - i,
    {
        proof {
            assert(lv.take(i + 1).drop_last() =~= lv.take(i as int));
            lemma_lines_bytes_mono(lv.take(n as int), i + 1);
            assert(lv.take(n as int).take(i + 1) =~= lv.take(i + 1));
            crate::text::lemma_encode_len(ls@[i as int]@);
            crate::positions::lemma_wsum_is_utf8_width(ls@[i as int]@);
        }
        let s = crate::text::from_chars(ls[i].as_slice());
        let w = s.as_str().as_bytes().len();
        sum = sum + w + 1;
        i = i + 1;
    }
    sum + col as usize
}

pub fn positional_arg_index(args: &SyntaxNode, row: u32, col: u32, source: &str) -> (r: usize)
    requires
        arg_index_ok(*args, row, col, source@),
    ensures
        r as nat == arg_index_spec(*args, row, col, source@),
{
    let cb = cursor_byte_exec(source, row, col);
    if cb <= args.start_byte {
        return 0;
    }
    let e = if cb < args.end_byte {
        cb
    } else {
        args.end_byte
    };
    let cs = to_chars(source);
    let text: Vec<char> = if crate::positions::on_boundary_exec(&cs, args.start_byte) && crate::positions::on_boundary_exec(&cs, e) {
        let a = crate::positions::char_index_exec(&cs, args.start_byte);
        let b = crate::positions::char_index_exec(&cs, e);
        proof {
            crate::positions::lemma_char_index(cs@, args.start_byte as int);
            crate::positions::lemma_char_index(cs@, e as int);
            crate::positions::lemma_char_index_mono(cs@, args.start_byte as int, e as int);
        }
        slice_vec(cs.as_slice(), a, b)
    } else {
        Vec::new()
    };
    let mut depth: i128 = 0;
    let mut in_str = false;
    let mut quote = ' ';
    let mut commas: usize = 0;
    let mut past_open = false;
    let mut i: usize = 0;
    while i < text.len()
        invariant
            i <= text@.len(),
            ({
                let c = comma_scan(text@.take(i as int));
                &&& c.depth == depth as int
                &&& c.in_str == in_str
                &&& (in_str ==> c.quote == quote)
                &&& c.commas == commas as nat
                &&& c.past_open == past_open
            }),
            -(i as int) <= depth <= i,
            commas <= i,
        decreases text@.len() - i,
    {
        proof {
            assert(text@.take(i + 1).drop_last() =~= text@.take(i as int));
        }
        let ch = text[i];
        if !in_str {
            if ch == '(' || ch == '[' || ch == '{' {
                depth = depth + 1;
                past_open = true;
            } else if ch == ')' || ch == ']' || ch == '}' {
                depth = depth - 1;
            } else if (ch == '"' || ch == '\'') && depth >= 1 {
                in_str = true;
                quote = ch;
            } else if ch == ',' && depth == 1 && past_open {
                commas = commas + 1;
            }
        } else if ch == quote {
            in_str = false;
        }
        i = i + 1;
    }
    assert(text@.take(text@.len() as int) =~= text@);
    commas
}


// ── The entry point ──────────────────────────────────────────────────────────

/// What a `relationship(...)` call offers: inside a string, the values of the
/// keyword it fills (the target models when it fills none); elsewhere its
/// keywords.
pub open spec fn rel_answer(
    key: Option<Seq<char>>,
    in_str: bool,
    source: Seq<char>,
    line: u32,
    str_pfx: Seq<char>,
    word: Seq<char>,
    st: WorkspaceState,
) -> Option<Seq<ItemV>> {
    if in_str {
        match key {
            None => answer(with_prefix(model_name_items(st), str_pfx)),
            Some(k) => if k == "lazy"@ {
                answer(with_prefix(lazy_items(), str_pfx))
            } else if k == "cascade"@ {
                answer(with_prefix(cascade_items(), cascade_token(str_pfx)))
            } else if k == "back_populates"@ {
                match mapped_target_spec(source, line) {
                    Some(t) => back_populates_spec(st, t, str_pfx),
                    None => None,
                }
            } else {
                None
            },
        }
    } else {
        answer(with_prefix(rel_kwarg_items(), word))
    }
}

/// The answer the text before the cursor settles on its own, if it does.
pub open spec fn text_context(source: Seq<char>, line: u32, col: u32, st: WorkspaceState) -> Option<
    Option<Seq<ItemV>>,
> {
    let prefix = line_prefix_spec(source, line, col);
    let str_pfx = string_prefix_spec(source, line, col);
    let word = word_suffix(prefix);
    let in_open = quote_scan(prefix).in_string;
    match innermost_call_spec(prefix) {
        None => None,
        Some(n) => if n == "ForeignKey"@ && in_open {
            Some(answer(with_prefix(fk_candidates(st), str_pfx)))
        } else if n == "relationship"@ {
            Some(rel_answer(kwarg_key_spec(prefix), in_open, source, line, str_pfx, word, st))
        } else if n == "mapped_column"@ && !in_open {
            Some(answer(with_prefix(mc_kwarg_items(), word)))
        } else {
            None
        },
    }
}

/// The line ends in `op.` in a migration file.
pub open spec fn op_dot_context(uri: Seq<char>, source: Seq<char>, line: u32, col: u32, st: WorkspaceState) -> bool {
    crate::text::ends_with(trim_end(line_prefix_spec(source, line, col)), "op."@) && st.migration_files@.contains_key(uri)
}

/// The nodes from the root of the file's tree down to the cursor.
pub open spec fn cursor_path(uri: Seq<char>, line: u32, col: u32, st: WorkspaceState) -> Option<Seq<SyntaxNode>> {
    if st.parse_trees@.contains_key(uri) {
        Some(point_path(st.parse_trees@[uri], (line, col)))
    } else {
        None
    }
}

/// The leaf at the cursor is a piece of a string literal.
pub open spec fn in_string_node(n: SyntaxNode) -> bool {
    is_kind(n, "string"@) || is_kind(n, "string_content"@) || is_kind(n, "string_end"@) || is_kind(
        n,
        "string_start"@,
    )
}

/// The argument index of the cursor in a call (0 when it has no argument list).
pub open spec fn call_arg_index(call: SyntaxNode, line: u32, col: u32, source: Seq<char>) -> nat {
    match field_child(call, "arguments"@) {
        Some(a) => arg_index_spec(a, line, col, source),
        None => 0,
    }
}

/// What the call the cursor is in offers, by the last segment of its name.
pub open spec fn call_context(
    uri: Seq<char>,
    source: Seq<char>,
    line: u32,
    col: u32,
    st: WorkspaceState,
    path: Seq<SyntaxNode>,
    call: SyntaxNode,
    base: Seq<char>,
) -> Option<Seq<ItemV>> {
    let prefix = line_prefix_spec(source, line, col);
    let str_pfx = string_prefix_spec(source, line, col);
    let word = word_suffix(prefix);
    let in_s = in_string_node(path.last());
    let arg_idx = call_arg_index(call, line, col, source);
    if (base == "Index"@ || base == "UniqueConstraint"@ || base == "PrimaryKeyConstraint"@) && in_s {
        let name_args: nat = if base != "PrimaryKeyConstraint"@ {
            1
        } else {
            0
        };
        if arg_idx > name_args {
            match class_name_from(path, path.len() - 1) {
                Some(c) => table_arg_columns_spec(st, c, str_pfx),
                None => None,
            }
        } else {
            None
        }
    } else if st.migration_files@.contains_key(uri) && in_s {
        op_args_spec(st, base, arg_idx as usize, str_pfx, call)
    } else if base == "ForeignKey"@ && in_s {
        answer(with_prefix(fk_candidates(st), str_pfx))
    } else if base == "relationship"@ {
        rel_answer(kwarg_key_from(path, path.len() - 1), in_s, source, line, str_pfx, word, st)
    } else if base == "mapped_column"@ && !in_s {
        answer(with_prefix(mc_kwarg_items(), word))
    } else if st.model_index@.contains_key(base) {
        let kp = match field_child(call, "arguments"@) {
            Some(a) => kwarg_pos_from(crate::syntax::named_kids(a), line, col, 0),
            None => None,
        };
        if kp != Some(KwargPos::Value) {
            ctor_spec(st, base, word)
        } else {
            None
        }
    } else {
        None
    }
}

/// The completions at a cursor: `op.` in a migration, then what the text
/// before the cursor settles, then what the syntax tree around it says
/// (snippets outside any call).
pub open spec fn completions_spec(uri: Seq<char>, source: Seq<char>, line: u32, col: u32, st: WorkspaceState) -> Option<
    Seq<ItemV>,
> {
    if op_dot_context(uri, source, line, col, st) {
        Some(op_items_spec())
    } else if text_context(source, line, col, st) is Some {
        text_context(source, line, col, st)->0
    } else {
        match cursor_path(uri, line, col, st) {
            None => None,
            Some(path) => match enclosing_call_from(path, path.len() - 1) {
                None => snippets_spec(word_suffix(line_prefix_spec(source, line, col)), in_class_from(path, path.len() - 2)),
                Some(call) => match field_child(call, "function"@) {
                    None => None,
                    Some(f) => call_context(uri, source, line, col, st, path, call, last_segment(f.text@)),
                },
            },
        }
    }
}

/// The cursor's line can be cut at its column, and where the syntax tree is
/// consulted for an argument index, the argument list lies within the source.
pub open spec fn completion_ok(uri: Seq<char>, source: Seq<char>, line: u32, col: u32, st: WorkspaceState) -> bool {
    &&& prefix_ok(source, line, col)
    &&& (!op_dot_context(uri, source, line, col, st) && text_context(source, line, col, st) is None) ==> match cursor_path(
        uri,
        line,
        col,
        st,
    ) {
        None => true,
        Some(path) => match enclosing_call_from(path, path.len() - 1) {
            None => true,
            Some(call) => match field_child(call, "arguments"@) {
                Some(a) => field_child(call, "function"@) is None || arg_index_ok(a, line, col, source),
                None => true,
            },
        },
    }
}

fn rel_answer_exec(
    key: Option<Vec<char>>,
    in_str: bool,
    source: &str,
    line: u32,
    str_pfx: &[char],
    word: &[char],
    state: &WorkspaceState,
) -> (r: Option<Vec<CompletionItem>>)
    ensures
        answer_v(r) == rel_answer(
            match key {
                Some(k) => Some(k@),
                None => None,
            },
            in_str,
            source@,
            line,
            str_pfx@,
            word@,
            *state,
        ),
{
    if !in_str {
        return complete_relationship_kwargs(word);
    }
    match key {
        None => complete_rel_target_models(str_pfx, state),
        Some(k) => {
            if crate::text::chars_eq(k.as_slice(), to_chars("lazy").as_slice()) {
                complete_lazy_values(str_pfx)
            } else if crate::text::chars_eq(k.as_slice(), to_chars("cascade").as_slice()) {
                complete_cascade_values(str_pfx)
            } else if crate::text::chars_eq(k.as_slice(), to_chars("back_populates").as_slice()) {
                let target = extract_mapped_target(source, line)?;
                let t = crate::text::from_chars(target.as_slice());
                complete_back_populates(t.as_str(), str_pfx, state)
            } else {
                None
            }
        },
    }
}

/// Completions for the cursor `pos` in `source` (the text of file `uri`), or
/// `None` outside the contexts the server knows.
pub fn provide_completions(uri: &str, source: &str, pos: crate::types::Position, state: &WorkspaceState) -> (r: Option<
    Vec<CompletionItem>,
>)
    requires
        completion_ok(uri@, source@, pos.line, pos.character, *state),
    ensures
        answer_v(r) == completions_spec(uri@, source@, pos.line, pos.character, *state),
{
    let line = pos.line;
    let col = pos.character;
    let prefix = line_prefix(source, line, col);
    let str_pfx = string_prefix_at_cursor(source, line, col);
    let word = current_word(source, line, col);
    let in_open = is_in_open_string(prefix.as_slice());
    let is_mig = state.migration_files.contains_key(uri);
    let trimmed = trim_end_exec(prefix.as_slice());
    if crate::text::ends_with_exec(trimmed.as_slice(), to_chars("op.").as_slice()) && is_mig {
        return Some(op_items());
    }
    let ghost tc = text_context(source@, line, col, *state);
    match innermost_call_name(prefix.as_slice()) {
        None => {},
        Some(n) => {
            if crate::text::chars_eq(n.as_slice(), to_chars("ForeignKey").as_slice()) && in_open {
                return complete_fk(str_pfx.as_slice(), state);
            } else if crate::text::chars_eq(n.as_slice(), to_chars("relationship").as_slice()) {
                let key = kwarg_key_for_string_value(prefix.as_slice());
                return rel_answer_exec(key, in_open, source, line, str_pfx.as_slice(), word.as_slice(), state);
            } else if crate::text::chars_eq(n.as_slice(), to_chars("mapped_column").as_slice()) && !in_open {
                return complete_mapped_column_kwargs(word.as_slice());
            }
        },
    }
    assert(tc is None);
    let root = state.parse_trees.get(uri)?;
    let path = point_path_exec(root, (line, col));
    let ghost pv = path@.map_values(|c: &SyntaxNode| *c);
    assert(pv.len() >= 1);
    let leaf = path[path.len() - 1];
    assert(pv.last() == *leaf);
    let call = match enclosing_call(&path) {
        None => {
            let ic = in_class(&path);
            return complete_snippets(word.as_slice(), ic);
        },
        Some(c) => c,
    };
    let func = child_by_field(call, "function")?;
    let base = last_segment_exec(to_chars(func.text.as_str()).as_slice());
    let base_s = crate::text::from_chars(base.as_slice());
    let args = child_by_field(call, "arguments");
    let arg_idx: usize = match args {
        Some(a) => positional_arg_index(a, line, col, source),
        None => 0,
    };
    let in_s = kind_is(leaf, "string") || kind_is(leaf, "string_content") || kind_is(leaf, "string_end")
        || kind_is(leaf, "string_start");
    if (str_eq(base_s.as_str(), "Index") || str_eq(base_s.as_str(), "UniqueConstraint") || str_eq(
        base_s.as_str(),
        "PrimaryKeyConstraint",
    )) && in_s {
        let name_args: usize = if !str_eq(base_s.as_str(), "PrimaryKeyConstraint") {
            1
        } else {
            0
        };
        if arg_idx > name_args {
            let c = class_name_ast(&path)?;
            return complete_table_arg_columns(c.as_str(), str_pfx.as_slice(), state);
        }
        return None;
    }
    if is_mig && in_s {
        return complete_op_table_or_column(base_s.as_str(), arg_idx, str_pfx.as_slice(), state, call);
    }
    if str_eq(base_s.as_str(), "ForeignKey") && in_s {
        return complete_fk(str_pfx.as_slice(), state);
    }
    if str_eq(base_s.as_str(), "relationship") {
        let key = kwarg_key_from_ast(&path);
        return rel_answer_exec(key, in_s, source, line, str_pfx.as_slice(), word.as_slice(), state);
    }
    if str_eq(base_s.as_str(), "mapped_column") && !in_s {
        return complete_mapped_column_kwargs(word.as_slice());
    }
    if state.model_index.contains_key(base_s.as_str()) {
        let kp = match args {
            Some(a) => kwarg_position(a, line, col),
            None => None,
        };
        if kp != Some(KwargPos::Value) {
            return complete_model_constructor(base_s.as_str(), word.as_slice(), state);
        }
    }
    None
}


/// Every offered item's label starts with the text typed so far, and every
/// candidate whose label does is offered.
pub proof fn law_items_match_prefix(items: Seq<ItemV>, prefix: Seq<char>)
    ensures
        forall|i: int|
            0 <= i < with_prefix(items, prefix).len() ==> starts_with(#[trigger] with_prefix(items, prefix)[i].label, prefix),
        forall|i: int|
            0 <= i < items.len() && starts_with(items[i].label, prefix) ==> #[trigger] with_prefix(items, prefix).contains(
                items[i],
            ),
{
    let pred = |v: ItemV| starts_with(v.label, prefix);
    assert forall|i: int| 0 <= i < with_prefix(items, prefix).len() implies starts_with(
        #[trigger] with_prefix(items, prefix)[i].label,
        prefix,
    ) by {
        items.lemma_filter_pred(pred, i);
    }
    assert forall|i: int| 0 <= i < items.len() && starts_with(items[i].label, prefix) implies #[trigger] with_prefix(
        items,
        prefix,
    ).contains(items[i]) by {
        items.lemma_filter_contains(pred, i);
    }
}

/// `it` is one of the items of a completion answer.
pub open spec fn offered(answer: Option<Seq<ItemV>>, it: ItemV) -> bool {
    match answer {
        Some(items) => items.contains(it),
        None => false,
    }
}

/// Completing `back_populates="…"` offers the relationship names of the
/// target model: every item is a field whose label is the name of one of
/// its relationships, starts with the typed text and is detailed as
/// `Target.name`; every relationship name that starts with the typed text
/// is offered; and an unknown target offers nothing.
pub proof fn law_back_populates_offers_relationship_names(
    st: WorkspaceState,
    target: Seq<char>,
    prefix: Seq<char>,
)
    ensures
        lookup_model(st, target) is None ==> back_populates_spec(st, target, prefix) is None,
        forall|it: ItemV|
            #[trigger] offered(back_populates_spec(st, target, prefix), it) ==> lookup_model(st, target) is Some
                && lookup_model(st, target)->0.relationships@.contains_key(it.label) && starts_with(
                it.label,
                prefix,
            ) && it.detail == Some(target + "."@ + it.label) && it.kind == ItemKind::Field,
        forall|k: Seq<char>|
            lookup_model(st, target) is Some && #[trigger] lookup_model(st, target)->0.relationships@.contains_key(k)
                && starts_with(k, prefix) ==> exists|it: ItemV|
                #[trigger] offered(back_populates_spec(st, target, prefix), it) && it.label == k,
{
    match lookup_model(st, target) {
        None => {},
        Some(m) => {
            let rels = m.relationships.seq();
            let items = bp_items(m, target);
            let pred = |v: ItemV| starts_with(v.label, prefix);
            let kept = with_prefix(items, prefix);
            m.relationships.lemma_view();
            assert(items.len() == rels.len());
            assert forall|j: int| 0 <= j < items.len() implies #[trigger] items[j].label == rels[j].0@
                && items[j].detail == Some(target + "."@ + rels[j].0@) && items[j].kind == ItemKind::Field
                && m.relationships@.contains_key(
                rels[j].0@,
            ) by {
                lemma_key_index(rels, rels[j].0@);
            }
            assert forall|it: ItemV| #[trigger]
                offered(back_populates_spec(st, target, prefix), it) implies m.relationships@.contains_key(
                it.label,
            ) && starts_with(it.label, prefix) && it.detail == Some(target + "."@ + it.label) && it.kind
                == ItemKind::Field by {
                let x = choose|x: int| 0 <= x < kept.len() && kept[x] == it;
                items.lemma_filter_pred(pred, x);
                lemma_filter_from(items, pred, x);
                let j = choose|j: int| 0 <= j < items.len() && items[j] == kept[x];
                assert(items[j].label == rels[j].0@);
            }
            assert forall|k: Seq<char>|
                #[trigger] m.relationships@.contains_key(k) && starts_with(k, prefix) implies exists|it: ItemV|
                #[trigger] offered(back_populates_spec(st, target, prefix), it) && it.label == k by {
                lemma_key_index(rels, k);
                let j = key_index(rels, k);
                assert(items[j].label == k);
                items.lemma_filter_contains(pred, j);
                assert(kept.len() > 0);
                assert(offered(back_populates_spec(st, target, prefix), items[j]));
            }
        },
    }
}

/// Every element of a filtered sequence comes from the sequence.
proof fn lemma_filter_from<A>(s: Seq<A>, pred: spec_fn(A) -> bool, x: int)
    requires
        0 <= x < s.filter(pred).len(),
    ensures
        exists|j: int| 0 <= j < s.len() && #[trigger] s[j] == s.filter(pred)[x],
    decreases s.len(),
{
    reveal(Seq::filter);
    let p = s.drop_last();
    let fp = p.filter(pred);
    if x < fp.len() {
        assert(s.filter(pred)[x] == fp[x]);
        lemma_filter_from(p, pred, x);
        let j = choose|j: int| 0 <= j < p.len() && #[trigger] p[j] == fp[x];
        assert(s[j] == p[j]);
    } else {
        assert(s.filter(pred)[x] == s.last());
        assert(s[s.len() - 1] == s.last());
    }
}

} // verus!
