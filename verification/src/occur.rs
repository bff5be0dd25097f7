//! The facts that keep a word out of a text built by joining pieces.
use vstd::prelude::*;

use crate::text::{contains, dec, digit, occurs_at};

verus! {

/// A character of a phrase: a letter or a space.
pub open spec fn phrase_char(c: char) -> bool {
    c == ' ' || ('a' <= c && c <= 'z') || ('A' <= c && c <= 'Z')
}

/// A phrase: five or more letters and spaces, the first not a space.
pub open spec fn phrase_word(w: Seq<char>) -> bool {
    &&& w.len() >= 5
    &&& w[0] != ' '
    &&& forall|j: int| 0 <= j < w.len() ==> phrase_char(#[trigger] w[j])
}

/// A phrase holds no character but letters and spaces.
pub proof fn lemma_foreign_char(w: Seq<char>, c: char)
    requires
        phrase_word(w),
        !phrase_char(c),
    ensures
        !w.contains(c),
{
    if w.contains(c) {
        let j = choose|j: int| 0 <= j < w.len() && w[j] == c;
        assert(phrase_char(w[j]));
    }
}

/// Joining two texts that lack `w` gives one that lacks it, as long as the
/// seam cannot be crossed: one side of it is a character that `w` lacks,
/// or the left side ends in a character other than the first of `w`
/// after one that `w` lacks.
pub proof fn lemma_concat_free(a: Seq<char>, b: Seq<char>, w: Seq<char>)
    requires
        w.len() > 0,
        !contains(a, w),
        !contains(b, w),
        a.len() == 0 || b.len() == 0 || !w.contains(a.last()) || !w.contains(b[0]) || (a.len()
            >= 2 && !w.contains(a[a.len() - 2]) && w[0] != a.last()),
    ensures
        !contains(a + b, w),
{
    if contains(a + b, w) {
        let s = a + b;
        let n = w.len() as int;
        let i = choose|i: int| occurs_at(s, w, i);
        let m = a.len() as int;
        if i + n <= m {
            assert(a.subrange(i, i + n) =~= s.subrange(i, i + n));
            assert(occurs_at(a, w, i));
        } else if i >= m {
            assert(b.subrange(i - m, i - m + n) =~= s.subrange(i, i + n));
            assert(occurs_at(b, w, i - m));
        } else {
            let k = m - 1 - i;
            assert(w[k] == s.subrange(i, i + n)[k]);
            assert(w[k] == a.last());
            assert(w[k + 1] == s.subrange(i, i + n)[k + 1]);
            assert(w[k + 1] == b[0]);
            assert(w.contains(a.last()));
            assert(w.contains(b[0]));
            if k >= 1 {
                assert(w[k - 1] == s.subrange(i, i + n)[k - 1]);
                assert(w[k - 1] == a[m - 2]);
                assert(w.contains(a[m - 2]));
            }
        }
    }
}

/// A text none of whose characters `w` holds does not hold `w`.
pub proof fn lemma_foreign_free(s: Seq<char>, w: Seq<char>)
    requires
        w.len() > 0,
        forall|j: int| 0 <= j < s.len() ==> !w.contains(#[trigger] s[j]),
    ensures
        !contains(s, w),
{
    if contains(s, w) {
        let i = choose|i: int| occurs_at(s, w, i);
        assert(w[0] == s.subrange(i, i + w.len())[0]);
        assert(w[0] == s[i]);
        assert(w.contains(s[i]));
    }
}

/// `w` does not stand in `s` when the first character of `w` is never
/// followed in `s` by its second.
pub proof fn lemma_pair_free(s: Seq<char>, w: Seq<char>)
    requires
        w.len() >= 2,
        forall|j: int| 0 <= j && j + 1 < s.len() && #[trigger] s[j] == w[0] ==> s[j + 1] != w[1],
    ensures
        !contains(s, w),
{
    if contains(s, w) {
        let i = choose|i: int| occurs_at(s, w, i);
        assert(w[0] == s.subrange(i, i + w.len())[0]);
        assert(w[1] == s.subrange(i, i + w.len())[1]);
    }
}

/// A text shorter than `w` does not hold it.
pub proof fn lemma_short_free(s: Seq<char>, w: Seq<char>)
    requires
        s.len() < w.len(),
    ensures
        !contains(s, w),
{
}

/// The decimal text of a number is made of digits.
pub proof fn lemma_dec_digits(n: nat)
    ensures
        dec(n).len() > 0,
        forall|j: int| 0 <= j < dec(n).len() ==> '0' <= #[trigger] dec(n)[j] && dec(n)[j] <= '9',
    decreases n,
{
    reveal_with_fuel(dec, 2);
    if n < 10 {
        lemma_digit(n as int);
    } else {
        lemma_dec_digits(n / 10);
        lemma_digit((n % 10) as int);
        assert forall|j: int| 0 <= j < dec(n).len() implies '0' <= #[trigger] dec(n)[j] && dec(n)[j]
            <= '9' by {
            if j < dec(n / 10).len() {
                assert(dec(n)[j] == dec(n / 10)[j]);
            }
        }
    }
}

proof fn lemma_digit(d: int)
    requires
        0 <= d < 10,
    ensures
        '0' <= digit(d) && digit(d) <= '9',
{
}

/// No phrase stands in the decimal text of a number.
pub proof fn lemma_dec_free(n: nat, w: Seq<char>)
    requires
        phrase_word(w),
    ensures
        !contains(dec(n), w),
{
    lemma_dec_digits(n);
    assert forall|j: int| 0 <= j < dec(n).len() implies !w.contains(#[trigger] dec(n)[j]) by {
        lemma_foreign_char(w, dec(n)[j]);
    }
    lemma_foreign_free(dec(n), w);
}

} // verus!
