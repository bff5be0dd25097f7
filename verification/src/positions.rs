//! Conversions between UTF-8 byte offsets and editor positions (line plus
//! column in UTF-8 bytes or UTF-16 code units), and incremental edits.
use vstd::prelude::*;

use crate::text::{char_width, char_width_exec, push_char, push_str, str_eq, to_chars, utf8_width};
use crate::types::Position;

verus! {

// ── Widths ───────────────────────────────────────────────────────────────────

/// UTF-16 code units of a character (`char::len_utf16`).
pub open spec fn u16_width(c: char) -> nat {
    if (c as u32) >= 0x10000 {
        2
    } else {
        1
    }
}

/// The width of a character in the column unit: UTF-8 bytes or UTF-16 units.
pub open spec fn cw(c: char, utf8: bool) -> nat {
    if utf8 {
        char_width(c)
    } else {
        u16_width(c)
    }
}

/// The width of a run of characters in the column unit.
pub open spec fn wsum(s: Seq<char>, utf8: bool) -> nat
    decreases s.len(),
{
    if s.len() == 0 {
        0
    } else {
        cw(s[0], utf8) + wsum(s.drop_first(), utf8)
    }
}

/// The column unit is UTF-8 bytes; any other encoding counts UTF-16 units.
pub open spec fn is_utf8(enc: Seq<char>) -> bool {
    enc == "utf-8"@
}

pub proof fn lemma_wsum_push(x: Seq<char>, c: char, utf8: bool)
    ensures
        wsum(x.push(c), utf8) == wsum(x, utf8) + cw(c, utf8),
    decreases x.len(),
{
    if x.len() == 0 {
        assert(x.push(c).drop_first() =~= Seq::<char>::empty());
        assert(x.push(c)[0] == c);
        assert(wsum(Seq::<char>::empty(), utf8) == 0);
    } else {
        lemma_wsum_push(x.drop_first(), c, utf8);
        assert(x.push(c).drop_first() =~= x.drop_first().push(c));
        assert(x.push(c)[0] == x[0]);
    }
}

pub proof fn lemma_wsum_take(s: Seq<char>, i: int, utf8: bool)
    requires
        0 <= i < s.len(),
    ensures
        wsum(s.take(i + 1), utf8) == wsum(s.take(i), utf8) + cw(s[i], utf8),
{
    assert(s.take(i + 1) =~= s.take(i).push(s[i]));
    lemma_wsum_push(s.take(i), s[i], utf8);
}

pub proof fn lemma_wsum_concat(a: Seq<char>, b: Seq<char>, utf8: bool)
    ensures
        wsum(a + b, utf8) == wsum(a, utf8) + wsum(b, utf8),
    decreases a.len(),
{
    if a.len() == 0 {
        assert(a + b =~= b);
    } else {
        lemma_wsum_concat(a.drop_first(), b, utf8);
        assert((a + b).drop_first() =~= a.drop_first() + b);
    }
}

/// Prefixes are strictly wider the longer they are.
pub proof fn lemma_wsum_mono(s: Seq<char>, j: int, k: int, utf8: bool)
    requires
        0 <= j <= k <= s.len(),
    ensures
        wsum(s.take(j), utf8) + (k - j) <= wsum(s.take(k), utf8),
    decreases k - j,
{
    if j < k {
        lemma_wsum_mono(s, j, k - 1, utf8);
        lemma_wsum_take(s, k - 1, utf8);
    }
}

pub proof fn lemma_wsum_is_utf8_width(s: Seq<char>)
    ensures
        wsum(s, true) == utf8_width(s),
    decreases s.len(),
{
    if s.len() > 0 {
        lemma_wsum_is_utf8_width(s.drop_first());
    }
}

// ── Offsets and positions ────────────────────────────────────────────────────

/// `off` falls on a character boundary of `s` (or at its end).
pub open spec fn on_boundary(s: Seq<char>, off: int) -> bool {
    exists|k: int| 0 <= k <= s.len() && wsum(s.take(k), true) == off
}

/// The number of characters before byte offset `off`, -1 when `off` is not
/// on a character boundary.
pub open spec fn char_index(s: Seq<char>, off: int) -> int {
    if on_boundary(s, off) {
        choose|k: int| 0 <= k <= s.len() && wsum(s.take(k), true) == off
    } else {
        -1
    }
}

pub proof fn lemma_char_index(s: Seq<char>, off: int)
    ensures
        on_boundary(s, off) ==> 0 <= char_index(s, off) <= s.len() && wsum(
            s.take(char_index(s, off)),
            true,
        ) == off,
        forall|k: int|
            0 <= k <= s.len() && wsum(#[trigger] s.take(k), true) == off ==> k == char_index(s, off),
{
    assert forall|k: int| 0 <= k <= s.len() && wsum(#[trigger] s.take(k), true) == off implies k
        == char_index(s, off) by {
        assert(on_boundary(s, off));
        let c = char_index(s, off);
        if c < k {
            lemma_wsum_mono(s, c, k, true);
        }
        if k < c {
            lemma_wsum_mono(s, k, c, true);
        }
    }
}

/// The line and column reached after the characters `p`.
pub open spec fn pos_after(p: Seq<char>, utf8: bool) -> (nat, nat)
    decreases p.len(),
{
    if p.len() == 0 {
        (0, 0)
    } else {
        let (l, c) = pos_after(p.drop_last(), utf8);
        if p.last() == '\n' {
            (l + 1, 0)
        } else {
            (l, c + cw(p.last(), utf8))
        }
    }
}

/// The position of byte offset `off` (clamped to the end of `s`).
pub open spec fn pos_of(s: Seq<char>, off: int, utf8: bool) -> Position {
    let total = wsum(s, true);
    let clamped = if off < total {
        off
    } else {
        total as int
    };
    let (l, c) = pos_after(s.take(char_index(s, clamped)), utf8);
    Position { line: l as u32, character: c as u32 }
}

proof fn lemma_pos_after_bound(p: Seq<char>, utf8: bool)
    ensures
        pos_after(p, utf8).0 + pos_after(p, utf8).1 <= wsum(p, true),
    decreases p.len(),
{
    if p.len() > 0 {
        lemma_pos_after_bound(p.drop_last(), utf8);
        assert(p =~= p.drop_last().push(p.last()));
        lemma_wsum_push(p.drop_last(), p.last(), true);
    }
}

/// Convert a UTF-8 byte offset to an editor position in the given encoding
/// (`utf-8`: byte columns; otherwise UTF-16 code units). Offsets past the end
/// are clamped to it.
pub fn offset_to_position(source: &str, byte_offset: usize, encoding: &str) -> (p: Position)
    requires
        on_boundary(
            source@,
            if byte_offset < wsum(source@, true) {
                byte_offset as int
            } else {
                wsum(source@, true) as int
            },
        ),
        wsum(source@, true) <= u32::MAX,
    ensures
        p == pos_of(source@, byte_offset as int, is_utf8(encoding@)),
{
    let ghost s = source@;
    let utf8 = str_eq(encoding, "utf-8");
    let cs = to_chars(source);
    let total = source.as_bytes().len();
    proof {
        crate::text::lemma_encode_len(s);
        lemma_wsum_is_utf8_width(s);
        assert(s.take(s.len() as int) =~= s);
    }
    let clamped = if byte_offset < total {
        byte_offset
    } else {
        total
    };
    let ghost k = char_index(s, clamped as int);
    proof {
        lemma_char_index(s, clamped as int);
    }
    let mut b: usize = 0;
    let mut line: u32 = 0;
    let mut col: u32 = 0;
    let mut i: usize = 0;
    while i < cs.len() && b < clamped
        invariant
            cs@ == s,
            total == wsum(s, true),
            total <= u32::MAX,
            clamped <= total,
            0 <= k <= s.len(),
            wsum(s.take(k), true) == clamped,
            i <= k,
            b == wsum(s.take(i as int), true),
            (line as nat, col as nat) == pos_after(s.take(i as int), utf8),
        decreases s.len() - i,
    {
        let c = cs[i];
        proof {
            lemma_wsum_take(s, i as int, true);
            lemma_wsum_mono(s, i + 1, k, true);
            lemma_wsum_mono(s, k, s.len() as int, true);
            assert(s.take(s.len() as int) =~= s);
            assert(s.take(i + 1).drop_last() =~= s.take(i as int));
            lemma_pos_after_bound(s.take(i as int), utf8);
        }
        let w = char_width_exec(c);
        if c == '\n' {
            line = line + 1;
            col = 0;
        } else {
            let u: u32 = if utf8 {
                w as u32
            } else if (c as u32) >= 0x10000 {
                2
            } else {
                1
            };
            col = col + u;
        }
        b = b + w;
        i = i + 1;
    }
    proof {
        if i < k {
            lemma_wsum_mono(s, i as int, k, true);
        }
    }
    Position { line, character: col }
}

/// Where each line starts, as character indices: 0, then after each `\n`.
pub open spec fn line_starts(s: Seq<char>) -> Seq<int>
    decreases s.len(),
{
    if s.len() == 0 {
        seq![0]
    } else {
        let r = line_starts(s.drop_last());
        if s.last() == '\n' {
            r.push(s.len() as int)
        } else {
            r
        }
    }
}

/// Bytes of `rest` consumed to cover `want` UTF-16 units.
pub open spec fn u16_bytes(rest: Seq<char>, want: int) -> nat
    decreases rest.len(),
{
    if rest.len() == 0 || want <= 0 {
        0
    } else {
        char_width(rest[0]) + u16_bytes(rest.drop_first(), want - u16_width(rest[0]))
    }
}

/// How many characters of `r` come before its first `\n` (all of them when
/// there is none).
pub open spec fn line_len(r: Seq<char>) -> nat
    decreases r.len(),
{
    if r.len() == 0 || r[0] == '\n' {
        0
    } else {
        1 + line_len(r.drop_first())
    }
}

/// The byte offset of a position: the start of its line plus its column in
/// bytes or in UTF-16 units. A position past the last line, or whose column
/// passes the end of its line, gives the length of `s`.
pub open spec fn to_offset(s: Seq<char>, pos: Position, utf8: bool) -> nat {
    let st = line_starts(s);
    let total = wsum(s, true);
    if pos.line >= st.len() {
        total
    } else {
        let ls = st[pos.line as int];
        let lsb = wsum(s.take(ls), true);
        let rest = s.skip(ls);
        let lw = wsum(rest.take(line_len(rest) as int), utf8);
        if pos.character as nat > lw {
            total
        } else {
            let co = if utf8 {
                pos.character as nat
            } else {
                u16_bytes(rest, pos.character as int)
            };
            if lsb + co < total {
                lsb + co
            } else {
                total
            }
        }
    }
}

proof fn lemma_line_len_bound(r: Seq<char>)
    ensures
        line_len(r) <= r.len(),
        line_len(r) < r.len() ==> r[line_len(r) as int] == '\n',
    decreases r.len(),
{
    if r.len() > 0 && r[0] != '\n' {
        lemma_line_len_bound(r.drop_first());
    }
}

/// A prefix free of `\n` lies within the first line.
proof fn lemma_line_len_ge(r: Seq<char>, m: int)
    requires
        0 <= m <= r.len(),
        forall|j: int| 0 <= j < m ==> r[j] != '\n',
    ensures
        m <= line_len(r),
    decreases m,
{
    if m > 0 {
        lemma_line_len_ge(r.drop_first(), m - 1);
    }
}

/// After the last line start no character is a `\n`.
proof fn lemma_after_last_start(p: Seq<char>)
    ensures
        forall|j: int| line_starts(p).last() <= j < p.len() ==> p[j] != '\n',
    decreases p.len(),
{
    if p.len() > 0 {
        let d = p.drop_last();
        lemma_after_last_start(d);
        lemma_line_starts_props(d);
        assert forall|j: int| line_starts(p).last() <= j < p.len() implies p[j] != '\n' by {
            if p.last() != '\n' {
                if j < p.len() - 1 {
                    assert(p[j] == d[j]);
                }
            }
        }
    }
}

proof fn lemma_line_starts_props(s: Seq<char>)
    ensures
        line_starts(s).len() >= 1,
        line_starts(s)[0] == 0,
        forall|j: int| 0 <= j < line_starts(s).len() ==> 0 <= #[trigger] line_starts(s)[j] <= s.len(),
    decreases s.len(),
{
    if s.len() > 0 {
        lemma_line_starts_props(s.drop_last());
    }
}

proof fn lemma_line_starts_prefix(s: Seq<char>, k: int)
    requires
        0 <= k <= s.len(),
    ensures
        line_starts(s.take(k)).len() <= line_starts(s).len(),
        forall|j: int| 0 <= j < line_starts(s.take(k)).len() ==> #[trigger] line_starts(s)[j] == line_starts(s.take(k))[j],
    decreases s.len() - k,
{
    if k < s.len() {
        lemma_line_starts_prefix(s, k + 1);
        assert(s.take(k + 1).drop_last() =~= s.take(k));
    } else {
        assert(s.take(k) =~= s);
    }
}

/// The last line start of `p`, the column reached, and the line count agree.
proof fn lemma_pos_after_tail(p: Seq<char>, utf8: bool)
    ensures
        line_starts(p).len() == pos_after(p, utf8).0 + 1,
        line_starts(p).last() <= p.len(),
        pos_after(p, utf8).1 == wsum(p.skip(line_starts(p).last()), utf8),
    decreases p.len(),
{
    if p.len() > 0 {
        let d = p.drop_last();
        lemma_pos_after_tail(d, utf8);
        lemma_line_starts_props(d);
        if p.last() == '\n' {
            assert(p.skip(p.len() as int) =~= Seq::<char>::empty());
        } else {
            let t = line_starts(d).last();
            assert(p.skip(t) =~= d.skip(t).push(p.last()));
            lemma_wsum_push(d.skip(t), p.last(), utf8);
        }
    }
}

proof fn lemma_u16_bytes_prefix(r: Seq<char>, m: int)
    requires
        0 <= m <= r.len(),
    ensures
        u16_bytes(r, wsum(r.take(m), false) as int) == wsum(r.take(m), true),
    decreases m,
{
    if m > 0 {
        let d = r.drop_first();
        lemma_u16_bytes_prefix(d, m - 1);
        assert(r.take(m).drop_first() =~= d.take(m - 1));
        assert(r.take(m)[0] == r[0]);
    }
}

proof fn lemma_wsum_prefix_le(s: Seq<char>, k: int, utf8: bool)
    requires
        0 <= k <= s.len(),
    ensures
        wsum(s.take(k), utf8) <= wsum(s, utf8),
{
    lemma_wsum_mono(s, k, s.len() as int, utf8);
    assert(s.take(s.len() as int) =~= s);
}

/// Mapping a byte offset on a character boundary to a position and back
/// gives the same offset, in either column encoding.
pub proof fn law_position_round_trip(s: Seq<char>, off: int, utf8: bool)
    requires
        0 <= off <= wsum(s, true),
        on_boundary(s, off),
        wsum(s, true) <= u32::MAX,
    ensures
        to_offset(s, pos_of(s, off, utf8), utf8) == off,
{
    lemma_char_index(s, off);
    let k = char_index(s, off);
    let p = s.take(k);
    lemma_pos_after_tail(p, utf8);
    lemma_pos_after_bound(p, utf8);
    lemma_wsum_prefix_le(s, k, true);
    lemma_line_starts_prefix(s, k);
    lemma_line_starts_props(p);
    let (l, c) = pos_after(p, utf8);
    let pos = pos_of(s, off, utf8);
    assert(pos.line == l && pos.character == c);
    let t = line_starts(p).last();
    assert(line_starts(s)[l as int] == t);
    let rest = s.skip(t);
    assert(p.skip(t) =~= rest.take(k - t));
    assert(p =~= s.take(t) + p.skip(t));
    assert(s.take(t) =~= p.take(t));
    lemma_wsum_concat(s.take(t), p.skip(t), true);
    lemma_wsum_concat(s.take(t), rest, true);
    assert(s =~= s.take(t) + rest);
    if utf8 {
        lemma_wsum_prefix_le(rest, k - t, true);
    } else {
        lemma_u16_bytes_prefix(rest, k - t);
    }
    lemma_after_last_start(p);
    assert forall|j: int| 0 <= j < k - t implies rest[j] != '\n' by {
        assert(rest[j] == p[t + j]);
    }
    lemma_line_len_ge(rest, k - t);
    lemma_line_len_bound(rest);
    lemma_wsum_mono(rest, k - t, line_len(rest) as int, utf8);
    assert(rest.take(k - t) =~= p.skip(t));
}

fn u16_bytes_exec(cs: &Vec<char>, from: usize, want: u32) -> (n: usize)
    requires
        from <= cs@.len(),
        wsum(cs@, true) <= usize::MAX,
    ensures
        n == u16_bytes(cs@.skip(from as int), want as int),
{
    let ghost rest = cs@.skip(from as int);
    let mut units: u64 = 0;
    let mut bytes: usize = 0;
    let mut j: usize = from;
    proof {
        assert(rest.skip(0) =~= rest);
        assert(cs@.take(cs@.len() as int) =~= cs@);
        assert(cs@ =~= cs@.take(from as int) + rest);
        lemma_wsum_concat(cs@.take(from as int), rest, true);
    }
    while j < cs.len() && units < want as u64
        invariant
            from <= j <= cs@.len(),
            rest == cs@.skip(from as int),
            units <= want as u64 + 1,
            bytes + u16_bytes(rest.skip(j - from), want - units) == u16_bytes(rest, want as int),
            bytes + wsum(rest.skip(j - from), true) <= wsum(rest, true),
            wsum(rest, true) <= usize::MAX,
        decreases cs@.len() - j,
    {
        let c = cs[j];
        proof {
            let r2 = rest.skip(j - from);
            assert(r2[0] == c);
            assert(r2.drop_first() =~= rest.skip(j - from + 1));
        }
        let u: u64 = if (c as u32) >= 0x10000 {
            2
        } else {
            1
        };
        units = units + u;
        bytes = bytes + char_width_exec(c);
        j = j + 1;
    }
    proof {
        let r2 = rest.skip(j - from);
        if j == cs.len() {
            assert(r2.len() == 0);
        }
    }
    bytes
}

/// Convert an editor position back to a UTF-8 byte offset in `source`;
/// the length of `source` when the line is past the end.
pub fn position_to_offset(source: &str, pos: Position, encoding: &str) -> (r: usize)
    ensures
        r == to_offset(source@, pos, is_utf8(encoding@)),
{
    let ghost s = source@;
    let utf8 = str_eq(encoding, "utf-8");
    let cs = to_chars(source);
    let total = source.as_bytes().len();
    proof {
        crate::text::lemma_encode_len(s);
        lemma_wsum_is_utf8_width(s);
        lemma_line_starts_props(s);
    }
    assert(total == wsum(s, true));
    let mut line: u32 = 0;
    let mut ls_i: usize = 0;
    let mut ls_b: usize = 0;
    let mut b: usize = 0;
    let mut i: usize = 0;
    while i < cs.len() && line < pos.line
        invariant
            cs@ == s,
            total == wsum(s, true),
            i <= s.len(),
            b == wsum(s.take(i as int), true),
            line <= pos.line,
            line_starts(s.take(i as int)).len() == line + 1,
            line_starts(s.take(i as int)).last() == ls_i,
            ls_i <= i,
            ls_b == wsum(s.take(ls_i as int), true),
        decreases s.len() - i,
    {
        let c = cs[i];
        proof {
            lemma_wsum_take(s, i as int, true);
            lemma_wsum_prefix_le(s, i + 1, true);
            assert(s.take(i + 1).drop_last() =~= s.take(i as int));
            assert(s.take(i + 1).last() == c);
        }
        let w = char_width_exec(c);
        b = b + w;
        i = i + 1;
        if c == '\n' {
            line = line + 1;
            ls_i = i;
            ls_b = b;
        }
    }
    proof {
        lemma_line_starts_prefix(s, i as int);
        lemma_line_starts_props(s.take(i as int));
        if i == s.len() {
            assert(s.take(i as int) =~= s);
        }
    }
    if line < pos.line {
        return total;
    }
    proof {
        assert(line_starts(s)[pos.line as int] == ls_i);
        assert(s =~= s.take(ls_i as int) + s.skip(ls_i as int));
        lemma_wsum_concat(s.take(ls_i as int), s.skip(ls_i as int), true);
    }
    let ghost rest = s.skip(ls_i as int);
    let mut j: usize = ls_i;
    let mut lw: u64 = 0;
    proof {
        assert(rest.take(0) =~= Seq::<char>::empty());
        assert(rest.skip(0) =~= rest);
    }
    while j < cs.len() && cs[j] != '\n'
        invariant
            cs@ == s,
            rest == s.skip(ls_i as int),
            ls_i <= j <= s.len(),
            lw == wsum(rest.take(j - ls_i), utf8),
            line_len(rest) == (j - ls_i) + line_len(rest.skip(j - ls_i)),
            wsum(rest, true) <= total,
            total == wsum(s, true),
            total <= usize::MAX,
        decreases s.len() - j,
    {
        let c = cs[j];
        proof {
            let r2 = rest.skip(j - ls_i);
            assert(r2[0] == c);
            assert(r2.drop_first() =~= rest.skip(j - ls_i + 1));
            lemma_wsum_take(rest, j - ls_i, utf8);
            lemma_wsum_take(rest, j - ls_i, true);
            lemma_wsum_prefix_le(rest, j - ls_i + 1, true);
            lemma_wsum_prefix_le(rest, j - ls_i + 1, utf8);
            lemma_wsum_u16_le(rest.take(j - ls_i + 1));
        }
        let u: u64 = if utf8 {
            char_width_exec(c) as u64
        } else if (c as u32) >= 0x10000 {
            2
        } else {
            1
        };
        lw = lw + u;
        j = j + 1;
    }
    proof {
        let r2 = rest.skip(j - ls_i);
        if j == cs.len() {
            assert(r2.len() == 0);
        } else {
            assert(r2[0] == '\n');
        }
    }
    if pos.character as u64 > lw {
        return total;
    }
    let co = if utf8 {
        pos.character as usize
    } else {
        u16_bytes_exec(&cs, ls_i, pos.character)
    };
    proof {
        if !utf8 {
            lemma_u16_bytes_le(s.skip(ls_i as int), pos.character as int);
        }
    }
    if co < total - ls_b {
        ls_b + co
    } else {
        total
    }
}

/// UTF-16 units never outnumber UTF-8 bytes.
proof fn lemma_wsum_u16_le(r: Seq<char>)
    ensures
        wsum(r, false) <= wsum(r, true),
    decreases r.len(),
{
    if r.len() > 0 {
        lemma_wsum_u16_le(r.drop_first());
    }
}

proof fn lemma_u16_bytes_le(r: Seq<char>, want: int)
    ensures
        u16_bytes(r, want) <= wsum(r, true),
    decreases r.len(),
{
    if r.len() > 0 && want > 0 {
        lemma_u16_bytes_le(r.drop_first(), want - u16_width(r[0]));
    }
}

// ── Ranges and edits ─────────────────────────────────────────────────────────

/// An editor range: start and end positions.
#[derive(Clone, Copy, Debug, PartialEq, Eq, Structural)]
pub struct LspRange {
    pub start: Position,
    pub end: Position,
}

/// The byte range of an editor range; the end is never before the start.
pub open spec fn byte_range(s: Seq<char>, r: LspRange, utf8: bool) -> (nat, nat) {
    let a = to_offset(s, r.start, utf8);
    let b = to_offset(s, r.end, utf8);
    (a, if b < a {
        a
    } else {
        b
    })
}

/// Convert an editor range to a byte range.
pub fn range_to_byte_range(source: &str, range: LspRange, encoding: &str) -> (r: (usize, usize))
    ensures
        (r.0 as nat, r.1 as nat) == byte_range(source@, range, is_utf8(encoding@)),
{
    let start = position_to_offset(source, range.start, encoding);
    let end = position_to_offset(source, range.end, encoding);
    (start, if end < start {
        start
    } else {
        end
    })
}

/// One document change: replace a range, or the whole text when there is none.
#[derive(Clone, Debug)]
pub struct ContentChange {
    pub range: Option<LspRange>,
    pub text: String,
}

/// The change can be applied: its byte range falls on character boundaries.
pub open spec fn change_ok(t: Seq<char>, ch: ContentChange, utf8: bool) -> bool {
    match ch.range {
        None => true,
        Some(r) => on_boundary(t, byte_range(t, r, utf8).0 as int) && on_boundary(
            t,
            byte_range(t, r, utf8).1 as int,
        ),
    }
}

/// The text after one change.
pub open spec fn apply_one(t: Seq<char>, ch: ContentChange, utf8: bool) -> Seq<char> {
    match ch.range {
        None => ch.text@,
        Some(r) => {
            let (a, b) = byte_range(t, r, utf8);
            t.take(char_index(t, a as int)) + ch.text@ + t.skip(char_index(t, b as int))
        },
    }
}

/// The text after the changes, applied in order.
pub open spec fn apply_all(t: Seq<char>, changes: Seq<ContentChange>, utf8: bool) -> Seq<char>
    decreases changes.len(),
{
    if changes.len() == 0 {
        t
    } else {
        apply_one(apply_all(t, changes.drop_last(), utf8), changes.last(), utf8)
    }
}

/// Every change, applied in order, falls on character boundaries.
pub open spec fn all_ok(t: Seq<char>, changes: Seq<ContentChange>, utf8: bool) -> bool
    decreases changes.len(),
{
    if changes.len() == 0 {
        true
    } else {
        all_ok(t, changes.drop_last(), utf8) && change_ok(
            apply_all(t, changes.drop_last(), utf8),
            changes.last(),
            utf8,
        )
    }
}

/// The character index of a byte offset on a boundary.
pub(crate) fn char_index_exec(cs: &Vec<char>, off: usize) -> (k: usize)
    requires
        on_boundary(cs@, off as int),
    ensures
        k as int == char_index(cs@, off as int),
{
    proof {
        lemma_char_index(cs@, off as int);
    }
    let ghost target = char_index(cs@, off as int);
    let n = cs.len();
    let mut b: usize = 0;
    let mut i: usize = 0;
    while b < off
        invariant
            n == cs@.len(),
            0 <= target <= cs@.len(),
            wsum(cs@.take(target), true) == off,
            i <= target,
            b == wsum(cs@.take(i as int), true),
        decreases target - i,
    {
        proof {
            if i == target {
                assert(false);
            }
            lemma_wsum_take(cs@, i as int, true);
            lemma_wsum_mono(cs@, i + 1, target, true);
        }
        b = b + char_width_exec(cs[i]);
        i = i + 1;
    }
    proof {
        if i < target {
            lemma_wsum_mono(cs@, i as int, target, true);
        }
    }
    i
}

/// Whether a byte offset falls on a character boundary.
pub(crate) fn on_boundary_exec(cs: &Vec<char>, off: usize) -> (r: bool)
    ensures
        r == on_boundary(cs@, off as int),
{
    let n = cs.len();
    let mut b: usize = 0;
    let mut i: usize = 0;
    loop
        invariant
            n == cs@.len(),
            i <= n,
            b <= off,
            b == wsum(cs@.take(i as int), true),
        decreases n - i,
    {
        if b == off {
            return true;
        }
        if i == n {
            proof {
                assert forall|k: int| 0 <= k <= cs@.len() implies wsum(#[trigger] cs@.take(k), true)
                    != off by {
                    if k < i {
                        lemma_wsum_mono(cs@, k, i as int, true);
                    }
                }
            }
            return false;
        }
        proof {
            lemma_wsum_take(cs@, i as int, true);
        }
        let w = char_width_exec(cs[i]);
        if w > off - b {
            proof {
                assert forall|k: int| 0 <= k <= cs@.len() implies wsum(#[trigger] cs@.take(k), true)
                    != off by {
                    if k <= i {
                        lemma_wsum_mono(cs@, k, i as int, true);
                    } else {
                        lemma_wsum_mono(cs@, i + 1, k, true);
                    }
                }
            }
            return false;
        }
        b = b + w;
        i = i + 1;
    }
}

/// Character indices keep the order of the byte offsets they come from.
pub proof fn lemma_char_index_mono(s: Seq<char>, a: int, b: int)
    requires
        on_boundary(s, a),
        on_boundary(s, b),
        a <= b,
    ensures
        char_index(s, a) <= char_index(s, b),
{
    lemma_char_index(s, a);
    lemma_char_index(s, b);
    if char_index(s, b) < char_index(s, a) {
        lemma_wsum_mono(s, char_index(s, b), char_index(s, a), true);
    }
}

fn apply_one_exec(text: String, ch: &ContentChange, encoding: &str) -> (r: String)
    requires
        change_ok(text@, *ch, is_utf8(encoding@)),
    ensures
        r@ == apply_one(text@, *ch, is_utf8(encoding@)),
{
    match ch.range {
        None => ch.text.clone(),
        Some(range) => {
            let (a, b) = range_to_byte_range(text.as_str(), range, encoding);
            let cs = to_chars(text.as_str());
            let i = char_index_exec(&cs, a);
            let j = char_index_exec(&cs, b);
            proof {
                lemma_char_index(cs@, a as int);
                lemma_char_index(cs@, b as int);
            }
            let mut out = String::new();
            let mut k: usize = 0;
            while k < i
                invariant
                    k <= i <= cs@.len(),
                    out@ == cs@.take(k as int),
                decreases i - k,
            {
                push_char(&mut out, cs[k]);
                k = k + 1;
                assert(out@ =~= cs@.take(k as int));
            }
            push_str(&mut out, ch.text.as_str());
            let ghost mid = out@;
            let mut m: usize = j;
            while m < cs.len()
                invariant
                    j <= m <= cs@.len(),
                    out@ == mid + cs@.subrange(j as int, m as int),
                decreases cs@.len() - m,
            {
                push_char(&mut out, cs[m]);
                m = m + 1;
                assert(out@ =~= mid + cs@.subrange(j as int, m as int));
            }
            assert(cs@.subrange(j as int, cs@.len() as int) =~= cs@.skip(j as int));
            out
        },
    }
}

/// Apply document changes in order; a change without a range replaces the
/// whole text.
pub fn apply_changes(source: &str, changes: &[ContentChange], encoding: &str) -> (r: String)
    requires
        all_ok(source@, changes@, is_utf8(encoding@)),
    ensures
        r@ == apply_all(source@, changes@, is_utf8(encoding@)),
{
    let ghost utf8 = is_utf8(encoding@);
    let mut text = crate::text::to_owned(source);
    let n = changes.len();
    let mut i: usize = 0;
    while i < n
        invariant
            i <= n,
            n == changes@.len(),
            utf8 == is_utf8(encoding@),
            all_ok(source@, changes@, utf8),
            text@ == apply_all(source@, changes@.take(i as int), utf8),
        decreases changes@.len() - i,
    {
        proof {
            assert(changes@.take(i + 1).drop_last() =~= changes@.take(i as int));
            lemma_all_ok_prefix(source@, changes@, i + 1, utf8);
        }
        text = apply_one_exec(text, &changes[i], encoding);
        i = i + 1;
    }
    assert(changes@.take(changes@.len() as int) =~= changes@);
    text
}

/// Apply the changes in order, or give `None` when one of them would cut
/// through a character (text on which applying them is undefined).
pub fn try_apply_changes(source: &str, changes: &[ContentChange], encoding: &str) -> (r: Option<String>)
    ensures
        all_ok(source@, changes@, is_utf8(encoding@)) <==> r is Some,
        r matches Some(t) ==> t@ == apply_all(source@, changes@, is_utf8(encoding@)),
{
    let ghost utf8 = is_utf8(encoding@);
    let mut text = crate::text::to_owned(source);
    let n = changes.len();
    let mut i: usize = 0;
    while i < n
        invariant
            i <= n,
            n == changes@.len(),
            utf8 == is_utf8(encoding@),
            all_ok(source@, changes@.take(i as int), utf8),
            text@ == apply_all(source@, changes@.take(i as int), utf8),
        decreases changes@.len() - i,
    {
        proof {
            assert(changes@.take(i + 1).drop_last() =~= changes@.take(i as int));
        }
        let ok = match changes[i].range {
            None => true,
            Some(rg) => {
                let (a, b) = range_to_byte_range(text.as_str(), rg, encoding);
                let cs = to_chars(text.as_str());
                on_boundary_exec(&cs, a) && on_boundary_exec(&cs, b)
            },
        };
        if !ok {
            proof {
                if all_ok(source@, changes@, utf8) {
                    lemma_all_ok_prefix(source@, changes@, i + 1, utf8);
                }
            }
            return None;
        }
        text = apply_one_exec(text, &changes[i], encoding);
        i = i + 1;
    }
    assert(changes@.take(changes@.len() as int) =~= changes@);
    Some(text)
}

proof fn lemma_all_ok_prefix(t: Seq<char>, changes: Seq<ContentChange>, k: int, utf8: bool)
    requires
        0 <= k <= changes.len(),
        all_ok(t, changes, utf8),
    ensures
        all_ok(t, changes.take(k), utf8),
    decreases changes.len() - k,
{
    if k < changes.len() {
        lemma_all_ok_prefix(t, changes, k + 1, utf8);
        assert(changes.take(k + 1).drop_last() =~= changes.take(k));
    } else {
        assert(changes.take(k) =~= changes);
    }
}

} // verus!
