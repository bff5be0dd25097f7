//! The headless linter's decisions: which `--select`/`--ignore` tokens are
//! valid, which findings a filter keeps, what a `# noqa` comment suppresses,
//! and which codes have automatic fixes.
use vstd::prelude::*;

use crate::config::{
    line_markers, noqa_of, noqa_suppresses_at, noqa_suppresses_code, suppressed_at, NoqaMarker,
};
use crate::diagnostics::{dviews, DiagView, LspDiagnostic};
use crate::format::{copy_finding, fviews, Finding, FindingV};
use crate::rename::{cat_map, lemma_cat_map_take};
use crate::sort::{kviews, sort_order, sorted_order};
use crate::text::{
    contains, find, find_exec, lemma_find_props, slice_vec, split, split_exec, starts_with,
    starts_with_exec, str_eq, to_chars, trim, trim_exec, trim_start, trim_start_exec, utf8_width,
    utf8_width_min,
};
use crate::types::{views, FixKind};

verus! {

/// Whether `c` is an ASCII digit.
pub open spec fn is_digit(c: char) -> bool {
    '0' <= c && c <= '9'
}

/// Every character of `s` is an ASCII digit.
pub open spec fn all_digits(s: Seq<char>) -> bool {
    forall|i: int| 0 <= i < s.len() ==> is_digit(s[i])
}

/// The characters after the sixth, if any.
pub open spec fn after_six(t: Seq<char>) -> Seq<char> {
    if t.len() >= 6 {
        t.skip(6)
    } else {
        Seq::empty()
    }
}

/// `SQLA-<digit>xx`: an eight-byte class token.
pub open spec fn is_class_token(t: Seq<char>) -> bool {
    utf8_width(t) == 8 && starts_with(t, "SQLA-"@) && crate::text::ends_with(t, "xx"@)
}

/// `SQLA-<E|W|I|H><digit>xx`: a class token narrowed to one severity letter.
pub open spec fn is_sev_class_token(t: Seq<char>) -> bool {
    &&& t.len() == 9
    &&& starts_with(t, "SQLA-"@)
    &&& (t[5] == 'E' || t[5] == 'W' || t[5] == 'I' || t[5] == 'H')
    &&& '0' <= t[6] && t[6] <= '9'
    &&& t[7] == 'x'
    &&& t[8] == 'x'
}

/// Whether `t` is a severity-narrowed class token.
pub fn sev_class_token(t: &[char]) -> (r: bool)
    ensures
        r == is_sev_class_token(t@),
{
    proof {
        reveal_strlit("SQLA-");
    }
    let pre = to_chars("SQLA-");
    t.len() == 9 && starts_with_exec(t, pre.as_slice()) && (t[5] == 'E' || t[5] == 'W' || t[5]
        == 'I' || t[5] == 'H') && '0' <= t[6] && t[6] <= '9' && t[7] == 'x' && t[8] == 'x'
}

/// Whether `token` is a valid `--select`/`--ignore` entry: a preset, a class
/// token `SQLA-<digit>xx` or `SQLA-<E|W|I|H><digit>xx`, or a code
/// `SQLA-<E|W|I|H><3 digits>`.
pub open spec fn valid_filter_token(t: Seq<char>) -> bool {
    if t == "all"@ || t == "none"@ || t == "recommended"@ {
        true
    } else if is_class_token(t) {
        t.len() > 5 && is_digit(t[5])
    } else if is_sev_class_token(t) {
        true
    } else if utf8_width(t) == 9 && starts_with(t, "SQLA-"@) {
        let letter = if t.len() > 5 { t[5] } else { '_' };
        (letter == 'E' || letter == 'W' || letter == 'I' || letter == 'H') && utf8_width(
            after_six(t),
        ) == 3 && all_digits(after_six(t))
    } else {
        false
    }
}

fn is_class_token_exec(t: &[char]) -> (r: bool)
    ensures
        r == is_class_token(t@),
{
    let pre = to_chars("SQLA-");
    let xx = to_chars("xx");
    utf8_width_min(t, 9) == 8 && starts_with_exec(t, pre.as_slice()) && crate::text::ends_with_exec(
        t,
        xx.as_slice(),
    )
}

pub fn is_valid_filter_token(token: &str) -> (r: bool)
    ensures
        r == valid_filter_token(token@),
{
    if str_eq(token, "all") || str_eq(token, "none") || str_eq(token, "recommended") {
        return true;
    }
    let t = to_chars(token);
    if is_class_token_exec(t.as_slice()) {
        return t.len() > 5 && '0' <= t[5] && t[5] <= '9';
    }
    if sev_class_token(t.as_slice()) {
        return true;
    }
    let pre = to_chars("SQLA-");
    if utf8_width_min(t.as_slice(), 10) == 9 && starts_with_exec(t.as_slice(), pre.as_slice()) {
        let letter = if t.len() > 5 {
            t[5]
        } else {
            '_'
        };
        let digits = if t.len() >= 6 {
            slice_vec(t.as_slice(), 6, t.len())
        } else {
            Vec::new()
        };
        assert(digits@ =~= after_six(token@));
        let mut digits_ok = true;
        let mut i: usize = 0;
        while i < digits.len()
            invariant
                i <= digits@.len(),
                digits_ok == forall|j: int| 0 <= j < i ==> is_digit(digits@[j]),
            decreases digits@.len() - i,
        {
            if !('0' <= digits[i] && digits[i] <= '9') {
                digits_ok = false;
            }
            i = i + 1;
        }
        let w = utf8_width_min(digits.as_slice(), 4);
        let r = (letter == 'E' || letter == 'W' || letter == 'I' || letter == 'H') && w == 3
            && digits_ok;
        assert(digits_ok == all_digits(digits@));
        return r;
    }
    false
}

/// Whether a finding's `code` passes one filter entry.
pub open spec fn filter_matches(code: Seq<char>, filter: Seq<char>) -> bool {
    if filter == "all"@ || filter == "recommended"@ {
        true
    } else if filter == "none"@ {
        false
    } else if is_class_token(filter) {
        let digit = if filter.len() > 5 { filter[5] } else { '_' };
        starts_with(code, "SQLA-"@) && utf8_width(code) >= 9 && code.len() > 6 && code[6] == digit
    } else if is_sev_class_token(filter) {
        starts_with(code, "SQLA-"@) && utf8_width(code) >= 9 && code.len() > 6 && code[5]
            == filter[5] && code[6] == filter[6]
    } else {
        code == filter
    }
}

pub fn matches_filter(code: &str, filter: &str) -> (r: bool)
    ensures
        r == filter_matches(code@, filter@),
{
    if str_eq(filter, "all") || str_eq(filter, "recommended") {
        return true;
    }
    if str_eq(filter, "none") {
        return false;
    }
    let f = to_chars(filter);
    if is_class_token_exec(f.as_slice()) {
        let digit = if f.len() > 5 {
            f[5]
        } else {
            '_'
        };
        let c = to_chars(code);
        let pre = to_chars("SQLA-");
        return starts_with_exec(c.as_slice(), pre.as_slice()) && utf8_width_min(c.as_slice(), 9)
            == 9 && c.len() > 6 && c[6] == digit;
    }
    if sev_class_token(f.as_slice()) {
        let c = to_chars(code);
        let pre = to_chars("SQLA-");
        return starts_with_exec(c.as_slice(), pre.as_slice()) && utf8_width_min(c.as_slice(), 9)
            == 9 && c.len() > 6 && c[5] == f[5] && c[6] == f[6];
    }
    str_eq(code, filter)
}

/// Whether a line's `# noqa` marker suppresses `code`: the same marker the
/// editor reads (`NoqaMarker::parse`), with the same reach.
pub open spec fn noqa_line_suppresses(line: Seq<char>, code: Seq<char>) -> bool {
    noqa_of(line).is_some() && noqa_suppresses_code(noqa_of(line).unwrap(), code)
}

pub fn noqa_suppresses(line: &str, code: &str) -> (r: bool)
    ensures
        r == noqa_line_suppresses(line@, code@),
{
    match NoqaMarker::parse(line) {
        Some(m) => m.suppresses(code),
        None => false,
    }
}

/// The fix the code actions offer for a finding's code.
pub open spec fn fix_kind_of(code: Seq<char>) -> FixKind {
    if code == "SQLA-W402"@ || code == "SQLA-W403"@ {
        FixKind::Safe
    } else if code == "SQLA-W101"@ || code == "SQLA-W409"@ {
        FixKind::Unsafe
    } else {
        FixKind::NoFix
    }
}

pub fn fix_kind_for_code(code: &str) -> (r: FixKind)
    ensures
        r == fix_kind_of(code@),
{
    if str_eq(code, "SQLA-W402") || str_eq(code, "SQLA-W403") {
        FixKind::Safe
    } else if str_eq(code, "SQLA-W101") || str_eq(code, "SQLA-W409") {
        FixKind::Unsafe
    } else {
        FixKind::NoFix
    }
}

/// Whether a finding with `code` survives `--select` and `--ignore`.
pub open spec fn passes_filters(code: Seq<char>, select: Seq<Seq<char>>, ignore: Seq<Seq<char>>) -> bool {
    let included = if select.len() == 0 || select.contains("all"@) || select.contains(
        "recommended"@,
    ) {
        true
    } else if select.contains("none"@) {
        false
    } else {
        exists|i: int| 0 <= i < select.len() && filter_matches(code, select[i])
    };
    let excluded = ignore.contains("all"@) || (ignore.len() > 0 && exists|i: int|
        0 <= i < ignore.len() && filter_matches(code, ignore[i]));
    included && !excluded
}

fn list_has(v: &Vec<String>, s: &str) -> (r: bool)
    ensures
        r == views(v@).contains(s@),
{
    let mut i: usize = 0;
    while i < v.len()
        invariant
            i <= v@.len(),
            forall|j: int| 0 <= j < i ==> v@[j]@ != s@,
        decreases v@.len() - i,
    {
        if str_eq(v[i].as_str(), s) {
            assert(views(v@)[i as int] == s@);
            return true;
        }
        i = i + 1;
    }
    assert(!views(v@).contains(s@)) by {
        if views(v@).contains(s@) {
            let k = choose|k: int| 0 <= k < views(v@).len() && views(v@)[k] == s@;
            assert(v@[k]@ == s@);
        }
    }
    false
}

fn any_matches(code: &str, filters: &Vec<String>) -> (r: bool)
    ensures
        r == exists|i: int| 0 <= i < filters@.len() && filter_matches(code@, views(filters@)[i]),
{
    let mut i: usize = 0;
    while i < filters.len()
        invariant
            i <= filters@.len(),
            forall|j: int| 0 <= j < i ==> !filter_matches(code@, views(filters@)[j]),
        decreases filters@.len() - i,
    {
        if matches_filter(code, filters[i].as_str()) {
            assert(filter_matches(code@, views(filters@)[i as int]));
            return true;
        }
        i = i + 1;
    }
    false
}

/// Whether one finding's code survives the filters.
pub fn passes(code: &str, select: &Vec<String>, ignore: &Vec<String>) -> (r: bool)
    ensures
        r == passes_filters(code@, views(select@), views(ignore@)),
{
    let included = if select.len() == 0 || list_has(select, "all") || list_has(select, "recommended") {
        true
    } else if list_has(select, "none") {
        false
    } else {
        any_matches(code, select)
    };
    if !included {
        return false;
    }
    let excluded = list_has(ignore, "all") || (ignore.len() > 0 && any_matches(code, ignore));
    !excluded
}

/// Keep the findings that survive `--select` and `--ignore`, in order.
pub fn apply_filter(findings: &mut Vec<Finding>, select: &Vec<String>, ignore: &Vec<String>)
    ensures
        final(findings)@ == old(findings)@.filter(
            |f: Finding| passes_filters(f.code@, views(select@), views(ignore@)),
        ),
{
    let ghost pred = |f: Finding| passes_filters(f.code@, views(select@), views(ignore@));
    let mut taken: Vec<Finding> = Vec::new();
    std::mem::swap(&mut taken, findings);
    let ghost all = taken@;
    let mut out: Vec<Finding> = Vec::new();
    for f in it: taken
        invariant
            it.seq() == all,
            out@ == all.take(it.index() as int).filter(pred),
            pred == (|f: Finding| passes_filters(f.code@, views(select@), views(ignore@))),
    {
        proof {
            let i = it.index() as int;
            assert(all.take(i + 1) =~= all.take(i).push(all[i]));
            all.take(i).lemma_filter_push(all[i], pred);
        }
        if passes(f.code.as_str(), select, ignore) {
            out.push(f);
        }
    }
    assert(all.take(all.len() as int) =~= all);
    *findings = out;
}

// ── Collecting findings ──────────────────────────────────────────────────────

/// The finding a published diagnostic becomes in file `rel` (path relative
/// to the root) with source `src`: positions 1-based, the source line at its
/// start kept where that line exists.
pub open spec fn finding_of(rel: Seq<char>, src: Seq<char>, d: DiagView) -> FindingV {
    let ls = crate::text::lines(src);
    FindingV {
        rel_path: rel,
        code: d.code,
        message: d.message,
        severity: d.severity,
        line: vstd::wrapping::u32_specs::wrapping_add(d.range.start_line, 1),
        col: vstd::wrapping::u32_specs::wrapping_add(d.range.start_col, 1),
        end_line: vstd::wrapping::u32_specs::wrapping_add(d.range.end_line, 1),
        end_col: vstd::wrapping::u32_specs::wrapping_add(d.range.end_col, 1),
        fix_kind: fix_kind_of(d.code),
        source_line: if (d.range.start_line as int) < ls.len() {
            Some(ls[d.range.start_line as int])
        } else {
            None
        },
    }
}

/// A file to report on: its path relative to the root, its source, and its
/// published diagnostics.
pub type FileDiagnostics = (String, String, Vec<LspDiagnostic>);

/// The findings of one file, in the order of its diagnostics.
pub open spec fn file_findings(f: FileDiagnostics) -> Seq<FindingV> {
    dviews(f.2@).map_values(|d: DiagView| finding_of(f.0@, f.1@, d))
}

pub open spec fn file_findings_f() -> spec_fn(FileDiagnostics) -> Seq<FindingV> {
    |f: FileDiagnostics| file_findings(f)
}

/// A path as sort key: each character one above its number, then a 0, so
/// that a path sorts before every longer path it begins.
pub open spec fn path_key(p: Seq<char>) -> Seq<u32> {
    p.map_values(|c: char| (c as u32 + 1) as u32).push(0u32)
}

/// The sort key of a finding: path, then line, then column.
pub open spec fn finding_key(f: FindingV) -> Seq<u32> {
    path_key(f.rel_path) + seq![f.line, f.col]
}

/// Findings sorted by path, line and column; equal ones keep their order.
pub open spec fn sorted_findings(raw: Seq<FindingV>) -> Seq<FindingV> {
    sorted_order(raw.map_values(|f: FindingV| finding_key(f))).map_values(|k: int| raw[k])
}

fn path_key_exec(p: &str) -> (k: Vec<u32>)
    ensures
        k@ == path_key(p@),
{
    let cs = to_chars(p);
    let mut k: Vec<u32> = Vec::new();
    let mut i: usize = 0;
    while i < cs.len()
        invariant
            i <= cs@.len(),
            cs@ == p@,
            k@ == cs@.take(i as int).map_values(|c: char| (c as u32 + 1) as u32),
        decreases cs@.len() - i,
    {
        let c = cs[i];
        let n: u32 = c as u32;
        proof {
            vstd::utf8::char_is_scalar(c);
        }
        k.push(n + 1);
        i = i + 1;
        assert(k@ =~= cs@.take(i as int).map_values(|c: char| (c as u32 + 1) as u32));
    }
    k.push(0);
    assert(cs@.take(cs@.len() as int) =~= cs@);
    k
}

fn finding_key_exec(f: &Finding) -> (k: Vec<u32>)
    ensures
        k@ == finding_key(f@),
{
    let mut k = path_key_exec(f.rel_path.as_str());
    k.push(f.line);
    k.push(f.col);
    assert(k@ =~= finding_key(f@));
    k
}

fn source_line_at(ls: &Vec<Vec<char>>, line: u32) -> (r: Option<String>)
    ensures
        match r {
            Some(s) => (line as int) < ls@.len() && s@ == ls@[line as int]@,
            None => (line as int) >= ls@.len(),
        },
{
    if (line as usize) < ls.len() {
        Some(crate::text::from_chars(ls[line as usize].as_slice()))
    } else {
        None
    }
}

fn make_finding(rel: &str, ls: &Vec<Vec<char>>, d: &LspDiagnostic, Ghost(src): Ghost<Seq<char>>) -> (f: Finding)
    requires
        ls@.len() == crate::text::lines(src).len(),
        forall|i: int| 0 <= i < ls@.len() ==> #[trigger] ls@[i]@ == crate::text::lines(src)[i],
    ensures
        f@ == finding_of(rel@, src, d@),
{
    let code = d.code.clone();
    let fk = fix_kind_for_code(d.code.as_str());
    let sl = source_line_at(ls, d.range.start_line);
    Finding {
        rel_path: crate::text::to_owned(rel),
        code,
        message: d.message.clone(),
        severity: d.severity,
        line: d.range.start_line.wrapping_add(1),
        col: d.range.start_col.wrapping_add(1),
        end_line: d.range.end_line.wrapping_add(1),
        end_col: d.range.end_col.wrapping_add(1),
        fix_kind: fk,
        source_line: sl,
    }
}

/// Every file's findings, sorted by path, then line, then column (findings
/// that tie keep the order of the files and of their diagnostics).
pub fn collect_findings(files: &Vec<FileDiagnostics>) -> (r: Vec<Finding>)
    ensures
        fviews(r@) == sorted_findings(cat_map(files@, file_findings_f())),
{
    let ghost ff = file_findings_f();
    let mut raw: Vec<Finding> = Vec::new();
    let mut i: usize = 0;
    while i < files.len()
        invariant
            i <= files@.len(),
            ff == file_findings_f(),
            fviews(raw@) == cat_map(files@.take(i as int), ff),
        decreases files@.len() - i,
    {
        proof {
            lemma_cat_map_take(files@, ff, i as int);
        }
        let file = &files[i];
        let ls = crate::text::lines_exec(file.1.as_str());
        let ghost start = fviews(raw@);
        let ghost fd = file_findings(*file);
        let mut j: usize = 0;
        while j < file.2.len()
            invariant
                j <= file.2@.len(),
                fd == file_findings(*file),
                ls@.len() == crate::text::lines(file.1@).len(),
                forall|k: int| 0 <= k < ls@.len() ==> #[trigger] ls@[k]@ == crate::text::lines(file.1@)[k],
                fviews(raw@) == start + fd.take(j as int),
            decreases file.2@.len() - j,
        {
            let f = make_finding(file.0.as_str(), &ls, &file.2[j], Ghost(file.1@));
            let ghost o = raw@;
            raw.push(f);
            proof {
                assert(fd[j as int] == finding_of(file.0@, file.1@, file.2@[j as int]@));
                assert(fviews(raw@) =~= fviews(o).push(f@));
                assert(fd.take(j + 1) =~= fd.take(j as int).push(fd[j as int]));
            }
            j = j + 1;
        }
        assert(fd.take(fd.len() as int) =~= fd);
        i = i + 1;
    }
    assert(files@.take(files@.len() as int) =~= files@);
    let ghost rv = fviews(raw@);
    let mut keys: Vec<Vec<u32>> = Vec::new();
    let mut k: usize = 0;
    while k < raw.len()
        invariant
            k <= raw@.len(),
            rv == fviews(raw@),
            keys@.len() == k,
            forall|j: int| 0 <= j < k ==> #[trigger] keys@[j]@ == finding_key(rv[j]),
        decreases raw@.len() - k,
    {
        let key = finding_key_exec(&raw[k]);
        keys.push(key);
        k = k + 1;
    }
    assert(kviews(keys@) =~= rv.map_values(|f: FindingV| finding_key(f)));
    let order = sort_order(&keys);
    let ghost so = sorted_findings(rv);
    assert(so.len() == order@.len());
    assert forall|j: int| 0 <= j < order@.len() implies #[trigger] so[j] == rv[order@[j] as int] by {
        assert(order@.map_values(|i: usize| i as int)[j] == order@[j] as int);
    }
    let mut out: Vec<Finding> = Vec::new();
    let mut m: usize = 0;
    while m < order.len()
        invariant
            m <= order@.len(),
            so.len() == order@.len(),
            rv == fviews(raw@),
            forall|j: int| 0 <= j < order@.len() ==> (#[trigger] order@[j]) < raw@.len(),
            forall|j: int| 0 <= j < order@.len() ==> #[trigger] so[j] == rv[order@[j] as int],
            fviews(out@) == so.take(m as int),
        decreases order@.len() - m,
    {
        let c = copy_finding(&raw[order[m]]);
        let ghost o = out@;
        out.push(c);
        proof {
            assert(fviews(out@) =~= fviews(o).push(c@));
            assert(so.take(m + 1) =~= so.take(m as int).push(so[m as int]));
        }
        m = m + 1;
    }
    assert(so.take(order@.len() as int) =~= so);
    out
}

// ── # noqa over the whole run ─────────────────────────────────────────────────

/// A relative path with `/` replaced by the platform's separator.
pub open spec fn swap_sep(rel: Seq<char>, sep: char) -> Seq<char> {
    rel.map_values(|c: char| if c == '/' { sep } else { c })
}

/// Whether a file's path ends with a finding's relative path (written with
/// either separator).
pub open spec fn path_matches(path: Seq<char>, rel: Seq<char>, sep: char) -> bool {
    crate::text::ends_with(path, swap_sep(rel, sep)) || crate::text::ends_with(path, rel)
}

/// Whether the `# noqa` markers of a finding's file suppress it on its line
/// (1-based, line 0 read as the first), as in the editor.
pub open spec fn line_suppresses(src: Seq<char>, line: u32, code: Seq<char>) -> bool {
    let l0 = if line == 0 {
        0
    } else {
        line - 1
    };
    noqa_suppresses_at(crate::text::lines(src), l0 as int, code)
}

/// Whether some file whose path matches the finding's suppresses it.
pub open spec fn noqa_suppressed(f: Finding, sources: Seq<(String, String)>, sep: char) -> bool {
    exists|i: int|
        0 <= i < sources.len() && path_matches((#[trigger] sources[i]).0@, f.rel_path@, sep)
            && line_suppresses(sources[i].1@, f.line, f.code@)
}

fn swap_sep_exec(rel: &str, sep: char) -> (r: Vec<char>)
    ensures
        r@ == swap_sep(rel@, sep),
{
    let cs = to_chars(rel);
    let mut out: Vec<char> = Vec::new();
    let mut i: usize = 0;
    while i < cs.len()
        invariant
            i <= cs@.len(),
            cs@ == rel@,
            out@ == swap_sep(cs@.take(i as int), sep),
        decreases cs@.len() - i,
    {
        let c = cs[i];
        out.push(if c == '/' { sep } else { c });
        i = i + 1;
        assert(out@ =~= swap_sep(cs@.take(i as int), sep));
    }
    assert(cs@.take(cs@.len() as int) =~= cs@);
    out
}

fn line_suppresses_exec(src: &str, line: u32, code: &str) -> (r: bool)
    ensures
        r == line_suppresses(src@, line, code@),
{
    let (markers, file) = line_markers(src);
    let l0: usize = if line == 0 {
        0
    } else {
        (line - 1) as usize
    };
    suppressed_at(&markers, file, l0, code, Ghost(crate::text::lines(src@)))
}

fn noqa_suppressed_exec(f: &Finding, sources: &Vec<(String, String)>, sep: char) -> (r: bool)
    ensures
        r == noqa_suppressed(*f, sources@, sep),
{
    let swapped = swap_sep_exec(f.rel_path.as_str(), sep);
    let rel = to_chars(f.rel_path.as_str());
    let mut i: usize = 0;
    while i < sources.len()
        invariant
            i <= sources@.len(),
            swapped@ == swap_sep(f.rel_path@, sep),
            rel@ == f.rel_path@,
            forall|j: int|
                0 <= j < i ==> !(path_matches((#[trigger] sources@[j]).0@, f.rel_path@, sep)
                    && line_suppresses(sources@[j].1@, f.line, f.code@)),
        decreases sources@.len() - i,
    {
        let p = to_chars(sources[i].0.as_str());
        let hit = crate::text::ends_with_exec(p.as_slice(), swapped.as_slice())
            || crate::text::ends_with_exec(p.as_slice(), rel.as_slice());
        if hit && line_suppresses_exec(sources[i].1.as_str(), f.line, f.code.as_str()) {
            assert(path_matches(sources@[i as int].0@, f.rel_path@, sep));
            return true;
        }
        i = i + 1;
    }
    false
}

/// Drop the findings a `# noqa` comment suppresses. `sources` holds each
/// indexed file as (its path, its source); `sep` is the platform's path
/// separator.
pub fn apply_noqa(findings: &mut Vec<Finding>, sources: &Vec<(String, String)>, sep: char)
    ensures
        final(findings)@ == old(findings)@.filter(|f: Finding| !noqa_suppressed(f, sources@, sep)),
{
    let ghost pred = |f: Finding| !noqa_suppressed(f, sources@, sep);
    let mut taken: Vec<Finding> = Vec::new();
    std::mem::swap(&mut taken, findings);
    let ghost all = taken@;
    let mut out: Vec<Finding> = Vec::new();
    for f in it: taken
        invariant
            it.seq() == all,
            out@ == all.take(it.index() as int).filter(pred),
            pred == (|f: Finding| !noqa_suppressed(f, sources@, sep)),
    {
        proof {
            let i = it.index() as int;
            assert(all.take(i + 1) =~= all.take(i).push(all[i]));
            all.take(i).lemma_filter_push(all[i], pred);
        }
        if !noqa_suppressed_exec(&f, sources, sep) {
            out.push(f);
        }
    }
    assert(all.take(all.len() as int) =~= all);
    *findings = out;
}


/// Findings come out in a deterministic order: by file path, then line,
/// then column, each finding's sort key never above the next one's.
pub proof fn law_findings_sorted(raw: Seq<FindingV>)
    ensures
        sorted_findings(raw).len() == raw.len(),
        forall|i: int, j: int|
            0 <= i < j < sorted_findings(raw).len() ==> crate::sort::lex_le(
                finding_key(#[trigger] sorted_findings(raw)[i]),
                finding_key(#[trigger] sorted_findings(raw)[j]),
            ),
{
    let keys = raw.map_values(|f: FindingV| finding_key(f));
    crate::sort::law_sorted_order_sorted(keys);
    let so = crate::sort::sorted_order(keys);
    assert forall|i: int, j: int| 0 <= i < j < sorted_findings(raw).len() implies crate::sort::lex_le(
        finding_key(#[trigger] sorted_findings(raw)[i]),
        finding_key(#[trigger] sorted_findings(raw)[j]),
    ) by {
        assert(sorted_findings(raw)[i] == raw[so[i]]);
        assert(sorted_findings(raw)[j] == raw[so[j]]);
        assert(keys[so[i]] == finding_key(raw[so[i]]));
        assert(keys[so[j]] == finding_key(raw[so[j]]));
    }
}

/// `check` honours `# noqa` exactly as the editor does: a finding on
/// (1-based) line `line` is suppressed by the linter if and only if the
/// editor drops a diagnostic with that code on the same (0-based) line.
pub proof fn law_cli_noqa_matches_editor(src: Seq<char>, line: u32, d: LspDiagnostic)
    requires
        line >= 1,
        d.range.start_line == line - 1,
    ensures
        line_suppresses(src, line, d.code@) == crate::config::noqa_drops(crate::text::lines(src), d),
{
}

proof fn lemma_prefix_width(s: Seq<char>)
    requires
        starts_with(s, "SQLA-"@),
    ensures
        utf8_width(s) == 5 + utf8_width(s.skip(5)),
        crate::config::byte_len(s.skip(5)) == utf8_width(s.skip(5)),
{
    reveal_strlit("SQLA-");
    assert(s.take(5) =~= "SQLA-"@);
    assert(s =~= s.take(5) + s.skip(5));
    crate::positions::lemma_wsum_concat(s.take(5), s.skip(5), true);
    crate::positions::lemma_wsum_is_utf8_width(s);
    crate::positions::lemma_wsum_is_utf8_width(s.take(5));
    crate::positions::lemma_wsum_is_utf8_width(s.skip(5));
    assert(utf8_width(s.take(5)) == 5) by {
        reveal_with_fuel(utf8_width, 6);
    }
    crate::text::lemma_encode_len(s.skip(5));
}

/// The linter's `--select`/`--ignore` test and the editor's `ignore` test
/// agree on class tokens: for a nine-byte `SQLA-` code and an eight-byte
/// `SQLA-…xx` filter, `matches_filter` holds exactly when
/// `code_matches_class_token` does.
pub proof fn law_filter_agrees_with_config(code: Seq<char>, filter: Seq<char>)
    requires
        starts_with(code, "SQLA-"@),
        utf8_width(code) == 9,
        starts_with(filter, "SQLA-"@),
        utf8_width(filter) == 8,
        crate::text::ends_with(filter, "xx"@),
    ensures
        filter_matches(code, filter) == crate::config::class_token_match(code, filter),
{
    reveal_strlit("SQLA-");
    reveal_strlit("xx");
    reveal_strlit("all");
    reveal_strlit("none");
    reveal_strlit("recommended");
    lemma_prefix_width(code);
    lemma_prefix_width(filter);
    assert(filter[0] == 'S') by {
        assert(filter.take(5)[0] == filter[0]);
    }
    assert(filter != "all"@ && filter != "none"@ && filter != "recommended"@);
    assert(is_class_token(filter));
    assert(filter[4] == '-') by {
        assert(filter.take(5)[4] == filter[4]);
    }
    let n = filter.len() as int;
    assert(filter.skip(n - 2)[0] == filter[n - 2]);
    assert(n >= 7);
    let tr = filter.skip(5);
    assert(tr.skip(tr.len() - 2) =~= filter.skip(n - 2));
    assert(crate::config::ends_with_xx(tr));
    assert(tr.len() >= 1 && tr[0] == filter[5]);
    let cr = code.skip(5);
    if cr.len() >= 2 {
        assert(cr[1] == code[6]);
    }
}

} // verus!
