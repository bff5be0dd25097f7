//! Character-sequence helpers shared by every module: searching, trimming,
//! splitting and building strings, each stated over `Seq<char>`.
use vstd::prelude::*;
use vstd::string::*;

verus! {

// ── Specifications ───────────────────────────────────────────────────────────

/// Unicode `White_Space`, the set `char::is_whitespace` and `str::trim` use.
pub open spec fn is_ws(c: char) -> bool {
    ||| c == '\t' || c == '\n' || c == '\u{0B}' || c == '\u{0C}' || c == '\r' || c == ' '
    ||| c == '\u{85}' || c == '\u{A0}' || c == '\u{1680}'
    ||| ('\u{2000}' <= c && c <= '\u{200A}')
    ||| c == '\u{2028}' || c == '\u{2029}' || c == '\u{202F}' || c == '\u{205F}'
    ||| c == '\u{3000}'
}

pub open spec fn starts_with(s: Seq<char>, p: Seq<char>) -> bool {
    p.len() <= s.len() && s.take(p.len() as int) == p
}

pub open spec fn ends_with(s: Seq<char>, p: Seq<char>) -> bool {
    p.len() <= s.len() && s.skip(s.len() - p.len()) == p
}

/// `p` occurs in `s` starting at index `i`.
pub open spec fn occurs_at(s: Seq<char>, p: Seq<char>, i: int) -> bool {
    0 <= i && i + p.len() <= s.len() && s.subrange(i, i + p.len()) == p
}

pub open spec fn contains(s: Seq<char>, p: Seq<char>) -> bool {
    exists|i: int| occurs_at(s, p, i)
}

/// Index of the first occurrence of `p` in `s` at or after `i`, or -1.
pub open spec fn first_from(s: Seq<char>, p: Seq<char>, i: int) -> int
    decreases s.len() - i,
{
    if i < 0 || i + p.len() > s.len() {
        -1
    } else if occurs_at(s, p, i) {
        i
    } else if i >= s.len() {
        -1
    } else {
        first_from(s, p, i + 1)
    }
}

/// Index of the first occurrence of `p` in `s` (`str::find`), or -1.
pub open spec fn find(s: Seq<char>, p: Seq<char>) -> int {
    first_from(s, p, 0)
}

/// Index of the last occurrence of `p` in `s` at or before `i`, or -1.
pub open spec fn last_upto(s: Seq<char>, p: Seq<char>, i: int) -> int
    decreases i + 1,
{
    if i < 0 {
        -1
    } else if occurs_at(s, p, i) {
        i
    } else {
        last_upto(s, p, i - 1)
    }
}

/// Index of the last occurrence of `p` in `s` (`str::rfind`), or -1.
pub open spec fn rfind(s: Seq<char>, p: Seq<char>) -> int {
    last_upto(s, p, s.len() - p.len())
}

/// `s` with leading whitespace removed.
pub open spec fn trim_start(s: Seq<char>) -> Seq<char>
    decreases s.len(),
{
    if s.len() > 0 && is_ws(s[0]) {
        trim_start(s.drop_first())
    } else {
        s
    }
}

/// `s` with trailing whitespace removed.
pub open spec fn trim_end(s: Seq<char>) -> Seq<char>
    decreases s.len(),
{
    if s.len() > 0 && is_ws(s.last()) {
        trim_end(s.drop_last())
    } else {
        s
    }
}

/// `s` with whitespace removed at both ends (`str::trim`).
pub open spec fn trim(s: Seq<char>) -> Seq<char> {
    trim_end(trim_start(s))
}

/// `s` with every leading `c` removed.
pub open spec fn trim_start_char(s: Seq<char>, c: char) -> Seq<char>
    decreases s.len(),
{
    if s.len() > 0 && s[0] == c {
        trim_start_char(s.drop_first(), c)
    } else {
        s
    }
}

/// `s` with every trailing `c` removed.
pub open spec fn trim_end_char(s: Seq<char>, c: char) -> Seq<char>
    decreases s.len(),
{
    if s.len() > 0 && s.last() == c {
        trim_end_char(s.drop_last(), c)
    } else {
        s
    }
}

/// `s` with every leading and trailing `c` removed (`str::trim_matches`).
pub open spec fn trim_char(s: Seq<char>, c: char) -> Seq<char> {
    trim_end_char(trim_start_char(s, c), c)
}

/// The pieces of `s` between occurrences of `sep` (`str::split` on a char).
pub open spec fn split(s: Seq<char>, sep: char) -> Seq<Seq<char>>
    decreases s.len(),
{
    let k = find(s, seq![sep]);
    if k < 0 {
        seq![s]
    } else {
        proof {
            lemma_find_props(s, seq![sep]);
        }
        seq![s.take(k)] + split(s.skip(k + 1), sep)
    }
}

/// The pieces of `s` between `sep`s, each trimmed, empty ones dropped.
pub open spec fn split_trim_nonempty(s: Seq<char>, sep: char) -> Seq<Seq<char>> {
    split(s, sep).map_values(|p: Seq<char>| trim(p)).filter(|p: Seq<char>| p.len() > 0)
}

// ── Lemmas ───────────────────────────────────────────────────────────────────

pub proof fn lemma_first_from_skip(s: Seq<char>, p: Seq<char>, k: int, i: int)
    requires
        0 <= k <= i,
        forall|j: int| k <= j < i ==> !occurs_at(s, p, j),
    ensures
        first_from(s, p, k) == first_from(s, p, i),
    decreases i - k,
{
    if k < i {
        lemma_first_from_skip(s, p, k + 1, i);
    }
}

pub proof fn lemma_first_from_props(s: Seq<char>, p: Seq<char>, i: int)
    requires
        0 <= i,
    ensures
        first_from(s, p, i) == -1 || (i <= first_from(s, p, i) && occurs_at(s, p, first_from(s, p, i))),
        first_from(s, p, i) == -1 ==> forall|j: int| i <= j ==> !occurs_at(s, p, j),
        forall|j: int| i <= j < first_from(s, p, i) ==> !occurs_at(s, p, j),
    decreases s.len() - i,
{
    if i + p.len() > s.len() {
    } else if occurs_at(s, p, i) {
    } else if i >= s.len() {
    } else {
        lemma_first_from_props(s, p, i + 1);
    }
}

pub proof fn lemma_find_props(s: Seq<char>, p: Seq<char>)
    ensures
        find(s, p) == -1 || (0 <= find(s, p) && occurs_at(s, p, find(s, p))),
        find(s, p) == -1 <==> !contains(s, p),
        forall|j: int| 0 <= j < find(s, p) ==> !occurs_at(s, p, j),
{
    lemma_first_from_props(s, p, 0);
    if find(s, p) >= 0 {
        assert(occurs_at(s, p, find(s, p)));
    }
}

pub proof fn lemma_last_upto_skip(s: Seq<char>, p: Seq<char>, i: int, k: int)
    requires
        k <= i,
        forall|j: int| k < j <= i ==> !occurs_at(s, p, j),
    ensures
        last_upto(s, p, i) == last_upto(s, p, k),
    decreases i - k,
{
    if k < i {
        lemma_last_upto_skip(s, p, i - 1, k);
    }
}

pub proof fn lemma_last_upto_props(s: Seq<char>, p: Seq<char>, i: int)
    ensures
        last_upto(s, p, i) == -1 || (last_upto(s, p, i) <= i && occurs_at(s, p, last_upto(s, p, i))),
        last_upto(s, p, i) == -1 ==> forall|j: int| j <= i ==> !occurs_at(s, p, j),
        forall|j: int| last_upto(s, p, i) < j <= i ==> !occurs_at(s, p, j),
    decreases i + 1,
{
    if i >= 0 && !occurs_at(s, p, i) {
        lemma_last_upto_props(s, p, i - 1);
    }
}

// ── Conversions and building ────────────────────────────────────────────────

/// The characters of `s`, in order, as a vector.
pub fn to_chars(s: &str) -> (v: Vec<char>)
    ensures
        v@ == s@,
{
    let mut v: Vec<char> = Vec::new();
    for c in it: s.chars()
        invariant
            v@ == it.seq().take(it.index() as int),
            it.seq() == s@,
    {
        v.push(c);
    }
    v
}

/// Appends one character to a string (std `String::push`).
#[verifier::external_body]
pub(crate) fn push_char(s: &mut String, c: char)
    ensures
        final(s)@ == old(s)@.push(c),
{
    s.push(c);
}

/// Appends a string slice.
pub fn push_str(s: &mut String, t: &str)
    ensures
        final(s)@ == old(s)@ + t@,
{
    s.append(t);
}

/// Appends a run of characters.
pub fn push_chars(s: &mut String, t: &[char])
    ensures
        final(s)@ == old(s)@ + t@,
{
    let ghost start = s@;
    let mut i: usize = 0;
    while i < t.len()
        invariant
            i <= t@.len(),
            s@ == start + t@.take(i as int),
        decreases t@.len() - i,
    {
        push_char(s, t[i]);
        i = i + 1;
        assert(t@.take(i as int) == t@.take(i - 1).push(t@[i - 1]));
    }
    assert(t@.take(t@.len() as int) == t@);
}

/// A new string holding `t`.
pub fn from_chars(t: &[char]) -> (s: String)
    ensures
        s@ == t@,
{
    let mut s = String::new();
    push_chars(&mut s, t);
    s
}

/// A new string holding `t` (`str::to_string`).
pub fn to_owned(t: &str) -> (s: String)
    ensures
        s@ == t@,
{
    let mut s = String::new();
    push_str(&mut s, t);
    s
}

/// Concatenation of two strings.
pub fn concat2(a: &str, b: &str) -> (s: String)
    ensures
        s@ == a@ + b@,
{
    let mut s = to_owned(a);
    push_str(&mut s, b);
    s
}

/// Concatenation of three strings.
pub fn concat3(a: &str, b: &str, c: &str) -> (s: String)
    ensures
        s@ == a@ + b@ + c@,
{
    let mut s = concat2(a, b);
    push_str(&mut s, c);
    s
}

// ── Comparison and search ────────────────────────────────────────────────────

/// Whether two character slices are equal.
pub fn chars_eq(a: &[char], b: &[char]) -> (r: bool)
    ensures
        r == (a@ == b@),
{
    if a.len() != b.len() {
        return false;
    }
    let mut i: usize = 0;
    while i < a.len()
        invariant
            a@.len() == b@.len(),
            i <= a@.len(),
            forall|j: int| 0 <= j < i ==> a@[j] == b@[j],
        decreases a@.len() - i,
    {
        if a[i] != b[i] {
            return false;
        }
        i = i + 1;
    }
    assert(a@ =~= b@);
    true
}

/// Whether two strings are equal.
pub fn str_eq(a: &str, b: &str) -> (r: bool)
    ensures
        r == (a@ == b@),
{
    let x = to_chars(a);
    let y = to_chars(b);
    chars_eq(x.as_slice(), y.as_slice())
}

/// Whether `p` occurs in `s` at index `i`.
pub fn occurs_at_exec(s: &[char], p: &[char], i: usize) -> (r: bool)
    ensures
        r == occurs_at(s@, p@, i as int),
{
    if i > s.len() || s.len() - i < p.len() {
        return false;
    }
    let mut j: usize = 0;
    let n = s.len();
    while j < p.len()
        invariant
            n == s@.len(),
            i + p@.len() <= s@.len(),
            j <= p@.len(),
            forall|k: int| 0 <= k < j ==> s@[i + k] == p@[k],
        decreases p@.len() - j,
    {
        if s[i + j] != p[j] {
            assert(s@.subrange(i as int, i + p@.len())[j as int] != p@[j as int]);
            return false;
        }
        j = j + 1;
    }
    assert(s@.subrange(i as int, i + p@.len()) =~= p@);
    true
}

/// Whether `s` starts with `p`.
pub fn starts_with_exec(s: &[char], p: &[char]) -> (r: bool)
    ensures
        r == starts_with(s@, p@),
{
    let r = occurs_at_exec(s, p, 0);
    assert(s@.subrange(0, p@.len() as int) == s@.take(p@.len() as int));
    r
}

/// Whether `s` ends with `p`.
pub fn ends_with_exec(s: &[char], p: &[char]) -> (r: bool)
    ensures
        r == ends_with(s@, p@),
{
    if p.len() > s.len() {
        return false;
    }
    let r = occurs_at_exec(s, p, s.len() - p.len());
    assert(s@.subrange(s@.len() - p@.len(), s@.len() as int) == s@.skip(s@.len() - p@.len()));
    r
}

/// Index of the first occurrence of `p` in `s` (`str::find`).
pub fn find_exec(s: &[char], p: &[char]) -> (r: Option<usize>)
    ensures
        match r {
            Some(i) => i == find(s@, p@),
            None => find(s@, p@) == -1,
        },
{
    let mut i: usize = 0;
    loop
        invariant
            i <= s@.len(),
            forall|j: int| 0 <= j < i ==> !occurs_at(s@, p@, j),
        decreases s@.len() - i,
    {
        if occurs_at_exec(s, p, i) {
            proof {
                lemma_first_from_skip(s@, p@, 0, i as int);
            }
            return Some(i);
        }
        if i == s.len() {
            proof {
                lemma_first_from_skip(s@, p@, 0, i as int);
            }
            return None;
        }
        i = i + 1;
    }
}

/// Index of the last occurrence of `p` in `s` (`str::rfind`).
pub fn rfind_exec(s: &[char], p: &[char]) -> (r: Option<usize>)
    ensures
        match r {
            Some(i) => i == rfind(s@, p@),
            None => rfind(s@, p@) == -1,
        },
{
    if p.len() > s.len() {
        assert(last_upto(s@, p@, s@.len() - p@.len()) == -1);
        return None;
    }
    let mut i: usize = s.len() - p.len();
    loop
        invariant
            i <= s@.len() - p@.len(),
            forall|j: int| i < j <= s@.len() - p@.len() ==> !occurs_at(s@, p@, j),
        decreases i,
    {
        if occurs_at_exec(s, p, i) {
            proof {
                lemma_last_upto_skip(s@, p@, s@.len() - p@.len(), i as int);
            }
            return Some(i);
        }
        if i == 0 {
            proof {
                lemma_last_upto_skip(s@, p@, s@.len() - p@.len(), 0);
                assert(last_upto(s@, p@, -1) == -1);
            }
            return None;
        }
        i = i - 1;
    }
}

/// Whether `p` occurs anywhere in `s`.
pub fn contains_exec(s: &[char], p: &[char]) -> (r: bool)
    ensures
        r == contains(s@, p@),
{
    proof {
        lemma_find_props(s@, p@);
    }
    find_exec(s, p).is_some()
}

/// Whether the string `s` contains the string `p` (`str::contains`).
pub fn str_contains(s: &str, p: &str) -> (r: bool)
    ensures
        r == contains(s@, p@),
{
    let a = to_chars(s);
    let b = to_chars(p);
    contains_exec(a.as_slice(), b.as_slice())
}

/// Whether the string `s` starts with `p` (`str::starts_with`).
pub fn str_starts_with(s: &str, p: &str) -> (r: bool)
    ensures
        r == starts_with(s@, p@),
{
    let a = to_chars(s);
    let b = to_chars(p);
    starts_with_exec(a.as_slice(), b.as_slice())
}

/// Whether the string `s` ends with `p` (`str::ends_with`).
pub fn str_ends_with(s: &str, p: &str) -> (r: bool)
    ensures
        r == ends_with(s@, p@),
{
    let a = to_chars(s);
    let b = to_chars(p);
    ends_with_exec(a.as_slice(), b.as_slice())
}

/// Whether `c` is Unicode whitespace (`char::is_whitespace`).
pub fn is_ws_exec(c: char) -> (r: bool)
    ensures
        r == is_ws(c),
{
    c == '\t' || c == '\n' || c == '\u{0B}' || c == '\u{0C}' || c == '\r' || c == ' ' || c
        == '\u{85}' || c == '\u{A0}' || c == '\u{1680}' || ('\u{2000}' <= c && c <= '\u{200A}')
        || c == '\u{2028}' || c == '\u{2029}' || c == '\u{202F}' || c == '\u{205F}' || c
        == '\u{3000}'
}

// ── Trimming ─────────────────────────────────────────────────────────────────

proof fn lemma_trim_start_first(s: Seq<char>)
    ensures
        trim_start(s).len() > 0 ==> !is_ws(trim_start(s)[0]),
    decreases s.len(),
{
    if s.len() > 0 && is_ws(s[0]) {
        lemma_trim_start_first(s.drop_first());
    }
}

proof fn lemma_trim_end_prefix(s: Seq<char>)
    ensures
        trim_end(s).len() <= s.len(),
        forall|j: int| 0 <= j < trim_end(s).len() ==> trim_end(s)[j] == s[j],
        trim_end(s).len() > 0 ==> !is_ws(trim_end(s).last()),
    decreases s.len(),
{
    if s.len() > 0 && is_ws(s.last()) {
        lemma_trim_end_prefix(s.drop_last());
        assert forall|j: int| 0 <= j < trim_end(s).len() implies trim_end(s)[j] == s[j] by {
            assert(s.drop_last()[j] == s[j]);
        }
    }
}

/// Trimming twice is trimming once.
pub proof fn lemma_trim_idem(s: Seq<char>)
    ensures
        trim(trim(s)) == trim(s),
{
    let t = trim_start(s);
    let u = trim_end(t);
    lemma_trim_start_first(s);
    lemma_trim_end_prefix(t);
    assert(trim_start(u) == u);
    assert(trim_end(u) == u);
}

pub proof fn lemma_trim_start_skip(s: Seq<char>, i: int)
    requires
        0 <= i <= s.len(),
        forall|j: int| 0 <= j < i ==> is_ws(s[j]),
    ensures
        trim_start(s) == trim_start(s.skip(i)),
    decreases i,
{
    if i > 0 {
        assert(s.drop_first().skip(i - 1) =~= s.skip(i));
        lemma_trim_start_skip(s.drop_first(), i - 1);
    } else {
        assert(s.skip(0) =~= s);
    }
}

pub proof fn lemma_trim_end_take(s: Seq<char>, i: int)
    requires
        0 <= i <= s.len(),
        forall|j: int| i <= j < s.len() ==> is_ws(s[j]),
    ensures
        trim_end(s) == trim_end(s.take(i)),
    decreases s.len() - i,
{
    if i < s.len() {
        assert(s.drop_last().take(i) =~= s.take(i));
        lemma_trim_end_take(s.drop_last(), i);
    } else {
        assert(s.take(i) =~= s);
    }
}

pub proof fn lemma_trim_start_char_skip(s: Seq<char>, c: char, i: int)
    requires
        0 <= i <= s.len(),
        forall|j: int| 0 <= j < i ==> s[j] == c,
    ensures
        trim_start_char(s, c) == trim_start_char(s.skip(i), c),
    decreases i,
{
    if i > 0 {
        assert(s.drop_first().skip(i - 1) =~= s.skip(i));
        lemma_trim_start_char_skip(s.drop_first(), c, i - 1);
    } else {
        assert(s.skip(0) =~= s);
    }
}

pub proof fn lemma_trim_end_char_take(s: Seq<char>, c: char, i: int)
    requires
        0 <= i <= s.len(),
        forall|j: int| i <= j < s.len() ==> s[j] == c,
    ensures
        trim_end_char(s, c) == trim_end_char(s.take(i), c),
    decreases s.len() - i,
{
    if i < s.len() {
        assert(s.drop_last().take(i) =~= s.take(i));
        lemma_trim_end_char_take(s.drop_last(), c, i);
    } else {
        assert(s.take(i) =~= s);
    }
}

/// Leading whitespace removed (`str::trim_start`).
pub fn trim_start_exec(s: &[char]) -> (r: Vec<char>)
    ensures
        r@ == trim_start(s@),
{
    let mut i: usize = 0;
    while i < s.len() && is_ws_exec(s[i])
        invariant
            i <= s@.len(),
            forall|j: int| 0 <= j < i ==> is_ws(s@[j]),
        decreases s@.len() - i,
    {
        i = i + 1;
    }
    proof {
        lemma_trim_start_skip(s@, i as int);
    }
    let r = slice_vec(s, i, s.len());
    assert(r@ == s@.skip(i as int));
    r
}

/// Trailing whitespace removed (`str::trim_end`).
pub fn trim_end_exec(s: &[char]) -> (r: Vec<char>)
    ensures
        r@ == trim_end(s@),
{
    let mut i: usize = s.len();
    while i > 0 && is_ws_exec(s[i - 1])
        invariant
            i <= s@.len(),
            forall|j: int| i <= j < s@.len() ==> is_ws(s@[j]),
        decreases i,
    {
        i = i - 1;
    }
    proof {
        lemma_trim_end_take(s@, i as int);
    }
    let r = slice_vec(s, 0, i);
    assert(r@ == s@.take(i as int));
    r
}

/// Whitespace removed at both ends (`str::trim`).
pub fn trim_exec(s: &[char]) -> (r: Vec<char>)
    ensures
        r@ == trim(s@),
{
    let a = trim_start_exec(s);
    trim_end_exec(a.as_slice())
}

/// Every leading and trailing `c` removed (`str::trim_matches`).
pub fn trim_char_exec(s: &[char], c: char) -> (r: Vec<char>)
    ensures
        r@ == trim_char(s@, c),
{
    let mut i: usize = 0;
    while i < s.len() && s[i] == c
        invariant
            i <= s@.len(),
            forall|j: int| 0 <= j < i ==> s@[j] == c,
        decreases s@.len() - i,
    {
        i = i + 1;
    }
    proof {
        lemma_trim_start_char_skip(s@, c, i as int);
    }
    let a = slice_vec(s, i, s.len());
    let mut k: usize = a.len();
    while k > 0 && a[k - 1] == c
        invariant
            k <= a@.len(),
            forall|j: int| k <= j < a@.len() ==> a@[j] == c,
        decreases k,
    {
        k = k - 1;
    }
    proof {
        lemma_trim_end_char_take(a@, c, k as int);
    }
    let r = slice_vec(a.as_slice(), 0, k);
    assert(r@ == a@.take(k as int));
    r
}

/// A copy of `s[from..to]`.
pub fn slice_vec(s: &[char], from: usize, to: usize) -> (r: Vec<char>)
    requires
        from <= to <= s@.len(),
    ensures
        r@ == s@.subrange(from as int, to as int),
{
    let mut r: Vec<char> = Vec::new();
    let mut i: usize = from;
    while i < to
        invariant
            from <= i <= to <= s@.len(),
            r@ == s@.subrange(from as int, i as int),
        decreases to - i,
    {
        r.push(s[i]);
        i = i + 1;
        assert(r@ =~= s@.subrange(from as int, i as int));
    }
    r
}

// ── Splitting ────────────────────────────────────────────────────────────────

pub proof fn lemma_find_char(s: Seq<char>, c: char, k: int)
    requires
        0 <= k <= s.len(),
        forall|j: int| 0 <= j < k ==> s[j] != c,
        k == s.len() || s[k] == c,
    ensures
        find(s, seq![c]) == (if k == s.len() { -1 } else { k }),
{
    assert forall|j: int| 0 <= j < k implies !occurs_at(s, seq![c], j) by {
        if occurs_at(s, seq![c], j) {
            assert(s.subrange(j, j + 1)[0] == s[j]);
        }
    }
    lemma_first_from_skip(s, seq![c], 0, k);
    if k < s.len() {
        assert(s.subrange(k, k + 1) =~= seq![c]);
    }
}

/// Pieces of `s` between occurrences of `sep`, in order.
pub fn split_exec(s: &[char], sep: char) -> (r: Vec<Vec<char>>)
    ensures
        r@.len() == split(s@, sep).len(),
        forall|i: int| 0 <= i < r@.len() ==> #[trigger] r@[i]@ == split(s@, sep)[i],
{
    let mut out: Vec<Vec<char>> = Vec::new();
    let mut start: usize = 0;
    let mut i: usize = 0;
    assert(s@.skip(0) =~= s@);
    assert(out@.map_values(|v: Vec<char>| v@) + split(s@.skip(0), sep) =~= split(s@, sep));
    while i < s.len()
        invariant
            start <= i <= s@.len(),
            forall|j: int| start <= j < i ==> s@[j] != sep,
            out@.map_values(|v: Vec<char>| v@) + split(s@.skip(start as int), sep) == split(s@, sep),
        decreases s@.len() - i,
    {
        if s[i] == sep {
            let ghost rest = s@.skip(start as int);
            let ghost old_out = out@;
            proof {
                lemma_find_char(rest, sep, i - start);
                assert(rest.skip(i - start + 1) =~= s@.skip(i + 1));
                assert(rest.take(i - start) =~= s@.subrange(start as int, i as int));
            }
            let piece = slice_vec(s, start, i);
            out.push(piece);
            proof {
                assert(out@.map_values(|v: Vec<char>| v@) =~= old_out.map_values(|v: Vec<char>| v@).push(piece@));
                assert(out@.map_values(|v: Vec<char>| v@) + split(s@.skip(i + 1), sep) =~= old_out.map_values(|v: Vec<char>| v@) + split(rest, sep));
            }
            start = i + 1;
        }
        i = i + 1;
    }
    let ghost rest = s@.skip(start as int);
    let ghost old_out = out@;
    proof {
        lemma_find_char(rest, sep, rest.len() as int);
        assert(rest =~= s@.subrange(start as int, s@.len() as int));
    }
    let piece = slice_vec(s, start, s.len());
    out.push(piece);
    proof {
        assert(out@.map_values(|v: Vec<char>| v@) =~= old_out.map_values(|v: Vec<char>| v@).push(piece@));
        assert(out@.map_values(|v: Vec<char>| v@) =~= split(s@, sep));
        assert forall|k: int| 0 <= k < out@.len() implies #[trigger] out@[k]@ == split(s@, sep)[k] by {
            assert(out@.map_values(|v: Vec<char>| v@)[k] == out@[k]@);
        }
    }
    out
}

/// Pieces of `s` between `sep`s, trimmed, with empty pieces dropped.
pub fn split_trim_nonempty_exec(s: &[char], sep: char) -> (r: Vec<Vec<char>>)
    ensures
        r@.len() == split_trim_nonempty(s@, sep).len(),
        forall|i: int| 0 <= i < r@.len() ==> #[trigger] r@[i]@ == split_trim_nonempty(s@, sep)[i],
{
    let parts = split_exec(s, sep);
    let ghost sp = split(s@, sep);
    let ghost tr = sp.map_values(|p: Seq<char>| trim(p));
    let ghost pred = |p: Seq<char>| p.len() > 0;
    let mut out: Vec<Vec<char>> = Vec::new();
    let mut i: usize = 0;
    while i < parts.len()
        invariant
            i <= parts@.len(),
            parts@.len() == sp.len(),
            tr == sp.map_values(|p: Seq<char>| trim(p)),
            pred == (|p: Seq<char>| p.len() > 0),
            forall|k: int| 0 <= k < parts@.len() ==> #[trigger] parts@[k]@ == sp[k],
            out@.len() == tr.take(i as int).filter(pred).len(),
            forall|k: int|
                0 <= k < out@.len() ==> #[trigger] out@[k]@ == tr.take(i as int).filter(pred)[k],
        decreases parts@.len() - i,
    {
        let t = trim_exec(parts[i].as_slice());
        proof {
            assert(tr.take(i + 1) =~= tr.take(i as int).push(tr[i as int]));
            tr.take(i as int).lemma_filter_push(tr[i as int], pred);
        }
        if t.len() > 0 {
            out.push(t);
        }
        i = i + 1;
    }
    assert(tr.take(i as int) =~= tr);
    out
}

/// Whether `c` occurs in `s`.
pub fn has_char(s: &[char], c: char) -> (r: bool)
    ensures
        r == s@.contains(c),
{
    let mut i: usize = 0;
    while i < s.len()
        invariant
            i <= s@.len(),
            forall|j: int| 0 <= j < i ==> s@[j] != c,
        decreases s@.len() - i,
    {
        if s[i] == c {
            assert(s@[i as int] == c);
            return true;
        }
        i = i + 1;
    }
    false
}

// ── Encoded widths ───────────────────────────────────────────────────────────

/// Bytes of the UTF-8 encoding of `c` (`char::len_utf8`).
pub open spec fn char_width(c: char) -> nat {
    let v = c as u32;
    if v <= 0x7f {
        1
    } else if v <= 0x7ff {
        2
    } else if v <= 0xffff {
        3
    } else {
        4
    }
}

/// Bytes of the UTF-8 encoding of `s`.
pub open spec fn utf8_width(s: Seq<char>) -> nat
    decreases s.len(),
{
    if s.len() == 0 {
        0
    } else {
        char_width(s[0]) + utf8_width(s.drop_first())
    }
}

pub proof fn lemma_encode_len(s: Seq<char>)
    ensures
        vstd::utf8::encode_utf8(s).len() == utf8_width(s),
    decreases s.len(),
{
    if s.len() > 0 {
        vstd::utf8::char_is_scalar(s[0]);
        lemma_encode_len(s.drop_first());
    }
}

/// Bytes of the UTF-8 encoding of `c`.
pub fn char_width_exec(c: char) -> (n: usize)
    ensures
        n == char_width(c),
        1 <= n <= 4,
{
    let v = c as u32;
    if v <= 0x7f {
        1
    } else if v <= 0x7ff {
        2
    } else if v <= 0xffff {
        3
    } else {
        4
    }
}

pub proof fn lemma_utf8_width_take(s: Seq<char>, i: int)
    requires
        0 <= i < s.len(),
    ensures
        utf8_width(s.take(i + 1)) == utf8_width(s.take(i)) + char_width(s[i]),
    decreases i,
{
    if i == 0 {
        assert(s.take(1).drop_first() =~= Seq::<char>::empty());
        assert(utf8_width(s.take(1).drop_first()) == 0);
        assert(s.take(1)[0] == s[0]);
        assert(utf8_width(s.take(0)) == 0);
    } else {
        lemma_utf8_width_take(s.drop_first(), i - 1);
        assert(s.take(i + 1).drop_first() =~= s.drop_first().take(i));
        assert(s.take(i).drop_first() =~= s.drop_first().take(i - 1));
        assert(s.take(i + 1)[0] == s[0]);
        assert(s.take(i)[0] == s[0]);
        assert(utf8_width(s.take(i + 1)) == char_width(s[0]) + utf8_width(s.drop_first().take(i)));
        assert(utf8_width(s.take(i)) == char_width(s[0]) + utf8_width(s.drop_first().take(i - 1)));
        assert(s.drop_first()[i - 1] == s[i]);
    }
}

/// Whether the UTF-8 encoding of `s` is exactly `k` bytes long.
pub fn utf8_width_is(s: &[char], k: usize) -> (r: bool)
    ensures
        r == (utf8_width(s@) == k),
{
    let mut total: usize = 0;
    let mut i: usize = 0;
    while i < s.len()
        invariant
            i <= s@.len(),
            total == utf8_width(s@.take(i as int)),
            total <= k,
        decreases s@.len() - i,
    {
        proof {
            lemma_utf8_width_take(s@, i as int);
        }
        let w = char_width_exec(s[i]);
        if w > k - total {
            proof {
                lemma_utf8_width_prefix(s@, i + 1);
            }
            return false;
        }
        total = total + w;
        i = i + 1;
    }
    assert(s@.take(s@.len() as int) =~= s@);
    total == k
}

/// The UTF-8 width of `s`, or `cap` when it is at least `cap`.
pub fn utf8_width_min(s: &[char], cap: usize) -> (n: usize)
    ensures
        n == if utf8_width(s@) < cap { utf8_width(s@) } else { cap as nat },
{
    let mut total: usize = 0;
    let mut i: usize = 0;
    while i < s.len()
        invariant
            i <= s@.len(),
            total == utf8_width(s@.take(i as int)),
            total < cap || (total == cap && i == 0 && cap == 0),
        decreases s@.len() - i,
    {
        if cap == 0 {
            proof {
                lemma_utf8_width_prefix(s@, 0);
            }
            return 0;
        }
        proof {
            lemma_utf8_width_take(s@, i as int);
        }
        let w = char_width_exec(s[i]);
        if w >= cap - total {
            proof {
                lemma_utf8_width_prefix(s@, i + 1);
            }
            return cap;
        }
        total = total + w;
        i = i + 1;
    }
    assert(s@.take(s@.len() as int) =~= s@);
    if cap == 0 {
        return 0;
    }
    total
}

pub proof fn lemma_utf8_width_prefix(s: Seq<char>, i: int)
    requires
        0 <= i <= s.len(),
    ensures
        utf8_width(s.take(i)) <= utf8_width(s),
    decreases s.len() - i,
{
    if i < s.len() {
        lemma_utf8_width_take(s, i);
        lemma_utf8_width_prefix(s, i + 1);
    } else {
        assert(s.take(i) =~= s);
    }
}

// ── Lines ────────────────────────────────────────────────────────────────────

/// A line piece with one trailing `\r` removed.
pub open spec fn strip_cr(l: Seq<char>) -> Seq<char> {
    if l.len() > 0 && l.last() == '\r' {
        l.drop_last()
    } else {
        l
    }
}

/// The lines of `s` (`str::lines`): split at `\n`, each `\r\n` ending
/// counted as one, no empty line after a final `\n`.
pub open spec fn lines(s: Seq<char>) -> Seq<Seq<char>> {
    let parts = split(s, '\n');
    let init = parts.drop_last().map_values(|l: Seq<char>| strip_cr(l));
    if parts.last().len() == 0 {
        init
    } else {
        init.push(parts.last())
    }
}

pub proof fn lemma_split_nonempty(s: Seq<char>, sep: char)
    ensures
        split(s, sep).len() >= 1,
    decreases s.len(),
{
    let k = find(s, seq![sep]);
    if k >= 0 {
        lemma_find_props(s, seq![sep]);
        lemma_split_nonempty(s.skip(k + 1), sep);
    }
}

/// The lines of `s` (`str::lines`).
pub fn lines_exec(s: &str) -> (r: Vec<Vec<char>>)
    ensures
        r@.len() == lines(s@).len(),
        forall|i: int| 0 <= i < r@.len() ==> #[trigger] r@[i]@ == lines(s@)[i],
{
    let cs = to_chars(s);
    let parts = split_exec(cs.as_slice(), '\n');
    let ghost sp = split(s@, '\n');
    proof {
        lemma_split_nonempty(s@, '\n');
    }
    let n = parts.len();
    let mut out: Vec<Vec<char>> = Vec::new();
    let mut i: usize = 0;
    while i + 1 < n
        invariant
            n == parts@.len(),
            n == sp.len(),
            n >= 1,
            i < n,
            forall|k: int| 0 <= k < parts@.len() ==> #[trigger] parts@[k]@ == sp[k],
            out@.len() == i,
            forall|k: int| 0 <= k < i ==> #[trigger] out@[k]@ == strip_cr(sp[k]),
        decreases n - i,
    {
        let l = &parts[i];
        let piece = if l.len() > 0 && l[l.len() - 1] == '\r' {
            slice_vec(l.as_slice(), 0, l.len() - 1)
        } else {
            slice_vec(l.as_slice(), 0, l.len())
        };
        proof {
            assert(l@.subrange(0, l@.len() - 1) =~= l@.drop_last());
            assert(l@.subrange(0, l@.len() as int) =~= l@);
        }
        out.push(piece);
        i = i + 1;
    }
    let last = &parts[n - 1];
    if last.len() > 0 {
        let copy = slice_vec(last.as_slice(), 0, last.len());
        assert(last@.subrange(0, last@.len() as int) =~= last@);
        out.push(copy);
    }
    proof {
        let init = sp.drop_last().map_values(|l: Seq<char>| strip_cr(l));
        assert(init.len() == n - 1);
        assert forall|k: int| 0 <= k < out@.len() implies #[trigger] out@[k]@ == lines(s@)[k] by {
            if k < n - 1 {
                assert(init[k] == strip_cr(sp[k]));
            }
        }
    }
    out
}

// ── Case mapping ─────────────────────────────────────────────────────────────

/// What `str::to_lowercase` returns for a string with these characters.
pub uninterp spec fn lowercase(s: Seq<char>) -> Seq<char>;

/// What `str::to_uppercase` returns for a string with these characters.
pub uninterp spec fn uppercase(s: Seq<char>) -> Seq<char>;

/// What `char::is_uppercase` says of a character.
pub uninterp spec fn is_upper(c: char) -> bool;

/// std `char::is_uppercase`: the Unicode `Uppercase` property; its result is
/// named by `is_upper` and depends on the character alone.
#[verifier::external_body]
pub(crate) fn char_is_uppercase(c: char) -> (b: bool)
    ensures
        b == is_upper(c),
{
    c.is_uppercase()
}

/// What `char::is_alphanumeric` says of a character.
pub uninterp spec fn is_alnum(c: char) -> bool;

/// What `char::is_alphabetic` says of a character.
pub uninterp spec fn is_alpha(c: char) -> bool;

/// std `char::is_alphanumeric`: the Unicode `Alphabetic` or `Numeric`
/// property; its result is named by `is_alnum` and depends on the character
/// alone.
#[verifier::external_body]
pub(crate) fn char_is_alphanumeric(c: char) -> (b: bool)
    ensures
        b == is_alnum(c),
{
    c.is_alphanumeric()
}

/// std `char::is_alphabetic`: the Unicode `Alphabetic` property; its result
/// is named by `is_alpha` and depends on the character alone.
#[verifier::external_body]
pub(crate) fn char_is_alphabetic(c: char) -> (b: bool)
    ensures
        b == is_alpha(c),
{
    c.is_alphabetic()
}

/// std `str::to_lowercase`: full Unicode lower-case mapping; its result is
/// named by `lowercase` and depends on the characters alone.
#[verifier::external_body]
pub(crate) fn to_lowercase(s: &str) -> (r: String)
    ensures
        r@ == lowercase(s@),
        s@.len() > 0 ==> r@.len() > 0,
{
    s.to_lowercase()
}

/// std `str::to_uppercase`: full Unicode upper-case mapping; its result is
/// named by `uppercase` and depends on the characters alone.
#[verifier::external_body]
pub(crate) fn to_uppercase(s: &str) -> (r: String)
    ensures
        r@ == uppercase(s@),
{
    s.to_uppercase()
}

/// ASCII lower-case of one character (`char::to_ascii_lowercase`).
pub open spec fn ascii_lower(c: char) -> char {
    if 'A' <= c && c <= 'Z' {
        ((c as u32) + 32) as char
    } else {
        c
    }
}

/// Equality ignoring ASCII case (`str::eq_ignore_ascii_case`).
pub open spec fn eq_ignore_ascii_case(a: Seq<char>, b: Seq<char>) -> bool {
    a.len() == b.len() && forall|i: int| 0 <= i < a.len() ==> ascii_lower(a[i]) == ascii_lower(b[i])
}

pub fn ascii_lower_exec(c: char) -> (r: char)
    ensures
        r == ascii_lower(c),
{
    if 'A' <= c && c <= 'Z' {
        let u = (c as u32) + 32;
        assert(u < 0xD800);
        char_from_u32(u)
    } else {
        c
    }
}

/// The character with scalar value `u`, which must be valid.
#[verifier::external_body]
fn char_from_u32(u: u32) -> (c: char)
    requires
        u < 0xD800,
    ensures
        c == u as char,
{
    char::from_u32(u).unwrap()
}

pub fn eq_ignore_ascii_case_exec(a: &[char], b: &[char]) -> (r: bool)
    ensures
        r == eq_ignore_ascii_case(a@, b@),
{
    if a.len() != b.len() {
        return false;
    }
    let mut i: usize = 0;
    while i < a.len()
        invariant
            a@.len() == b@.len(),
            i <= a@.len(),
            forall|j: int| 0 <= j < i ==> ascii_lower(a@[j]) == ascii_lower(b@[j]),
        decreases a@.len() - i,
    {
        if ascii_lower_exec(a[i]) != ascii_lower_exec(b[i]) {
            return false;
        }
        i = i + 1;
    }
    true
}

// ── Decimal numbers ──────────────────────────────────────────────────────────

/// The character of a decimal digit.
pub open spec fn digit(d: int) -> char {
    seq!['0', '1', '2', '3', '4', '5', '6', '7', '8', '9'][d]
}

/// The decimal text of `n` (`u64::to_string`).
pub open spec fn dec(n: nat) -> Seq<char>
    decreases n,
{
    if n < 10 {
        seq![digit(n as int)]
    } else {
        dec(n / 10).push(digit((n % 10) as int))
    }
}

fn digit_exec(d: u64) -> (c: char)
    requires
        d < 10,
    ensures
        c == digit(d as int),
{
    match d {
        0 => '0',
        1 => '1',
        2 => '2',
        3 => '3',
        4 => '4',
        5 => '5',
        6 => '6',
        7 => '7',
        8 => '8',
        _ => '9',
    }
}

/// Appends the decimal text of `n`.
pub fn push_dec(s: &mut String, n: u64)
    ensures
        final(s)@ == old(s)@ + dec(n as nat),
    decreases n,
{
    if n >= 10 {
        push_dec(s, n / 10);
        push_char(s, digit_exec(n % 10));
    } else {
        push_char(s, digit_exec(n));
    }
}

} // verus!
