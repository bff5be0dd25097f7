//! The text reporters of the `check` command: concise, full, grouped,
//! pylint, GitHub annotations and JUnit XML, plus the summary lines.
use vstd::prelude::*;

use crate::occur::{lemma_concat_free, lemma_dec_free, lemma_foreign_char, lemma_pair_free, lemma_short_free, phrase_char, phrase_word};
use crate::colors::{blue, bold, dimmed, fg, red, styled, white, yellow};
use crate::format::{count_by_severity, count_sev, help_for_code, help_text, Finding, FixResult, Reporter};
use crate::sort::{kviews, skey, sort_order, sorted_order, str_key};
use crate::text::{contains, dec, occurs_at, push_char, push_dec, push_str, str_eq, to_owned};
use crate::types::{join, FixKind, Severity};

verus! {

// ── Pieces ───────────────────────────────────────────────────────────────────

/// `k` spaces.
pub open spec fn spaces(k: int) -> Seq<char> {
    Seq::new(k as nat, |_i: int| ' ')
}

pub(crate) fn push_spaces(s: &mut String, k: u64)
    ensures
        final(s)@ == old(s)@ + spaces(k as int),
{
    let ghost start = s@;
    let mut i: u64 = 0;
    while i < k
        invariant
            i <= k,
            s@ == start + spaces(i as int),
        decreases k - i,
    {
        push_char(s, ' ');
        i = i + 1;
        assert(s@ =~= start + spaces(i as int));
    }
}

/// A code coloured by severity: bold red errors, bold yellow warnings,
/// dimmed hints, yellow infos; plain without colour.
pub open spec fn code_text(code: Seq<char>, sev: Severity, color: bool) -> Seq<char> {
    if !color {
        code
    } else {
        match sev {
            Severity::Error => styled("1"@, fg("31"@, code)),
            Severity::Warning => styled("1"@, fg("33"@, code)),
            Severity::Hint => styled("2"@, code),
            Severity::Info => fg("33"@, code),
        }
    }
}

/// Colour a code by severity.
pub fn sev_colored_code(code: &str, severity: Severity, use_color: bool) -> (r: String)
    ensures
        r@ == code_text(code@, severity, use_color),
{
    if !use_color {
        return to_owned(code);
    }
    match severity {
        Severity::Error => {
            let c = red(code);
            bold(c.as_str())
        },
        Severity::Warning => {
            let c = yellow(code);
            bold(c.as_str())
        },
        Severity::Hint => dimmed(code),
        Severity::Info => yellow(code),
    }
}

/// Carets coloured by severity: red errors, yellow warnings, dimmed hints,
/// yellow infos.
pub open spec fn caret_text(carets: Seq<char>, sev: Severity) -> Seq<char> {
    match sev {
        Severity::Error => fg("31"@, carets),
        Severity::Warning => fg("33"@, carets),
        Severity::Hint => styled("2"@, carets),
        Severity::Info => fg("33"@, carets),
    }
}

pub fn sev_colored_carets(carets: &str, severity: Severity) -> (r: String)
    ensures
        r@ == caret_text(carets@, severity),
{
    match severity {
        Severity::Error => red(carets),
        Severity::Warning => yellow(carets),
        Severity::Hint => dimmed(carets),
        Severity::Info => yellow(carets),
    }
}

// ── Summary ──────────────────────────────────────────────────────────────────

/// How many findings have this fix kind.
pub open spec fn count_fix(f: Seq<Finding>, k: FixKind) -> nat
    decreases f.len(),
{
    if f.len() == 0 {
        0
    } else {
        count_fix(f.drop_last(), k) + if f.last().fix_kind == k {
            1nat
        } else {
            0nat
        }
    }
}

/// The distinct file paths of the findings, in order of first appearance.
pub open spec fn uniq_paths(f: Seq<Finding>) -> Seq<Seq<char>>
    decreases f.len(),
{
    if f.len() == 0 {
        Seq::empty()
    } else {
        let r = uniq_paths(f.drop_last());
        if r.contains(f.last().rel_path@) {
            r
        } else {
            r.push(f.last().rel_path@)
        }
    }
}

/// One `N label` part of the summary, the label coloured when asked.
pub open spec fn part(n: nat, label: Seq<char>) -> Seq<char> {
    dec(n) + " "@ + label
}

/// The severity parts of the summary, zero counts left out.
pub open spec fn sev_parts(f: Seq<Finding>, color: bool) -> Seq<Seq<char>> {
    let e = count_sev(f, Severity::Error);
    let w = count_sev(f, Severity::Warning);
    let i = count_sev(f, Severity::Info);
    let h = count_sev(f, Severity::Hint);
    (if e > 0 {
        seq![
            part(
                e,
                if color {
                    styled("1"@, fg("31"@, "errors"@))
                } else {
                    "errors"@
                },
            ),
        ]
    } else {
        Seq::empty()
    }) + (if w > 0 {
        seq![
            part(
                w,
                if color {
                    styled("1"@, fg("33"@, "warnings"@))
                } else {
                    "warnings"@
                },
            ),
        ]
    } else {
        Seq::empty()
    }) + (if i > 0 {
        seq![
            part(
                i,
                if color {
                    fg("34"@, "info"@)
                } else {
                    "info"@
                },
            ),
        ]
    } else {
        Seq::empty()
    }) + (if h > 0 {
        seq![
            part(
                h,
                if color {
                    styled("2"@, "hints"@)
                } else {
                    "hints"@
                },
            ),
        ]
    } else {
        Seq::empty()
    })
}

/// The `Fixed ...` line after a `--fix` run.
pub open spec fn fixed_line(fr: FixResult) -> Seq<char> {
    "Fixed "@ + dec(fr.fixed as nat) + " problem"@ + (if fr.fixed == 1 {
        ""@
    } else {
        "s"@
    }) + "; "@ + dec(fr.remaining as nat) + " remaining"@ + if fr.unsafe_fixable > 0 {
        " ("@ + dec(fr.unsafe_fixable as nat) + " fixable with --unsafe).\n"@
    } else {
        ".\n"@
    }
}

/// The summary printed after the findings.
pub open spec fn summary_text(f: Seq<Finding>, files_checked: nat, fix: Option<FixResult>, color: bool) -> Seq<
    char,
> {
    if f.len() == 0 && fix is None {
        "All checks passed! (checked "@ + dec(files_checked) + " files)\n"@
    } else {
        let safe = count_fix(f, FixKind::Safe);
        let uns = count_fix(f, FixKind::Unsafe);
        (if safe > 0 {
            "[*] "@ + dec(safe) + " fixable with the `--fix` option.\n"@
        } else {
            Seq::<char>::empty()
        }) + (if uns > 0 {
            "[*] "@ + dec(uns) + " fixable with `--fix --unsafe`.\n"@
        } else {
            Seq::<char>::empty()
        }) + (if f.len() > 0 {
            "Found "@ + dec(f.len()) + " "@ + (if f.len() == 1 {
                "problem"@
            } else {
                "problems"@
            }) + " ("@ + join(sev_parts(f, color), ", "@) + ") in "@ + dec(uniq_paths(f).len())
                + " files (checked "@ + dec(files_checked) + " files).\n"@
        } else {
            Seq::<char>::empty()
        }) + match fix {
            Some(fr) => fixed_line(fr),
            None => Seq::<char>::empty(),
        }
    }
}

pub(crate) fn count_fix_exec(findings: &[Finding], k: FixKind) -> (n: usize)
    ensures
        n == count_fix(findings@, k),
{
    let mut n: usize = 0;
    let mut i: usize = 0;
    while i < findings.len()
        invariant
            i <= findings@.len(),
            n == count_fix(findings@.take(i as int), k),
            n <= i,
        decreases findings@.len() - i,
    {
        proof {
            assert(findings@.take(i + 1).drop_last() =~= findings@.take(i as int));
        }
        if findings[i].fix_kind == k {
            n = n + 1;
        }
        i = i + 1;
    }
    assert(findings@.take(findings@.len() as int) =~= findings@);
    n
}

fn uniq_paths_count(findings: &[Finding]) -> (n: usize)
    ensures
        n == uniq_paths(findings@).len(),
{
    let mut seen: Vec<String> = Vec::new();
    let mut i: usize = 0;
    while i < findings.len()
        invariant
            i <= findings@.len(),
            crate::f01::sviews(seen@) == uniq_paths(findings@.take(i as int)),
        decreases findings@.len() - i,
    {
        proof {
            assert(findings@.take(i + 1).drop_last() =~= findings@.take(i as int));
        }
        let p = findings[i].rel_path.as_str();
        let mut found = false;
        let mut j: usize = 0;
        while j < seen.len()
            invariant
                j <= seen@.len(),
                found ==> crate::f01::sviews(seen@).contains(p@),
                !found ==> forall|k: int| 0 <= k < j ==> seen@[k]@ != p@,
            decreases seen@.len() - j,
        {
            if str_eq(seen[j].as_str(), p) {
                assert(crate::f01::sviews(seen@)[j as int] == p@);
                found = true;
            }
            j = j + 1;
        }
        proof {
            if !found && crate::f01::sviews(seen@).contains(p@) {
                let k = choose|k: int| 0 <= k < seen@.len() && crate::f01::sviews(seen@)[k] == p@;
                assert(seen@[k]@ == p@);
            }
        }
        if !found {
            crate::f01::push_string(&mut seen, findings[i].rel_path.clone());
        }
        i = i + 1;
    }
    assert(findings@.take(findings@.len() as int) =~= findings@);
    seen.len()
}

fn push_part(parts: &mut Vec<String>, n: usize, label: String)
    ensures
        crate::types::views(final(parts)@) == crate::types::views(old(parts)@).push(
            part(n as nat, label@),
        ),
{
    let mut s = String::new();
    push_dec(&mut s, n as u64);
    push_str(&mut s, " ");
    push_str(&mut s, label.as_str());
    parts.push(s);
    assert(crate::types::views(parts@) =~= crate::types::views(old(parts)@).push(
        part(n as nat, label@),
    ));
}

fn label(plain: &str, color: bool, kind: u8) -> (r: String)
    ensures
        r@ == if !color {
            plain@
        } else if kind == 0 {
            styled("1"@, fg("31"@, plain@))
        } else if kind == 1 {
            styled("1"@, fg("33"@, plain@))
        } else if kind == 2 {
            fg("34"@, plain@)
        } else {
            styled("2"@, plain@)
        },
{
    if !color {
        to_owned(plain)
    } else if kind == 0 {
        let c = red(plain);
        bold(c.as_str())
    } else if kind == 1 {
        let c = yellow(plain);
        bold(c.as_str())
    } else if kind == 2 {
        blue(plain)
    } else {
        dimmed(plain)
    }
}

/// The `Found N problems (...) in F files` line.
pub open spec fn found_line(f: Seq<Finding>, files_checked: nat, color: bool) -> Seq<char> {
    "Found "@ + dec(f.len()) + " "@ + (if f.len() == 1 {
        "problem"@
    } else {
        "problems"@
    }) + " ("@ + join(sev_parts(f, color), ", "@) + ") in "@ + dec(uniq_paths(f).len())
        + " files (checked "@ + dec(files_checked) + " files).\n"@
}

/// The `[*] N fixable ...` lines.
pub open spec fn fix_hints(f: Seq<Finding>) -> Seq<char> {
    let safe = count_fix(f, FixKind::Safe);
    let uns = count_fix(f, FixKind::Unsafe);
    (if safe > 0 {
        "[*] "@ + dec(safe) + " fixable with the `--fix` option.\n"@
    } else {
        Seq::<char>::empty()
    }) + (if uns > 0 {
        "[*] "@ + dec(uns) + " fixable with `--fix --unsafe`.\n"@
    } else {
        Seq::<char>::empty()
    })
}

proof fn lemma_summary_parts(f: Seq<Finding>, files_checked: nat, fix: Option<FixResult>, color: bool)
    requires
        !(f.len() == 0 && fix is None),
    ensures
        summary_text(f, files_checked, fix, color) == fix_hints(f) + (if f.len() > 0 {
            found_line(f, files_checked, color)
        } else {
            Seq::<char>::empty()
        }) + match fix {
            Some(fr) => fixed_line(fr),
            None => Seq::<char>::empty(),
        },
{
}

fn push_fix_hints(out: &mut String, findings: &[Finding])
    ensures
        final(out)@ == old(out)@ + fix_hints(findings@),
{
    let ghost start = out@;
    let safe = count_fix_exec(findings, FixKind::Safe);
    let uns = count_fix_exec(findings, FixKind::Unsafe);
    if safe > 0 {
        push_str(out, "[*] ");
        push_dec(out, safe as u64);
        push_str(out, " fixable with the `--fix` option.\n");
    }
    let ghost s1 = out@;
    if uns > 0 {
        push_str(out, "[*] ");
        push_dec(out, uns as u64);
        push_str(out, " fixable with `--fix --unsafe`.\n");
    }
    assert(out@ =~= start + fix_hints(findings@));
}

fn push_found_line(out: &mut String, findings: &[Finding], files_checked: usize, use_color: bool)
    ensures
        final(out)@ == old(out)@ + found_line(findings@, files_checked as nat, use_color),
{
    let (e, w, i, h) = count_by_severity(findings);
    let mut parts: Vec<String> = Vec::new();
    if e > 0 {
        push_part(&mut parts, e, label("errors", use_color, 0));
    }
    if w > 0 {
        push_part(&mut parts, w, label("warnings", use_color, 1));
    }
    if i > 0 {
        push_part(&mut parts, i, label("info", use_color, 2));
    }
    if h > 0 {
        push_part(&mut parts, h, label("hints", use_color, 3));
    }
    assert(crate::types::views(parts@) =~= sev_parts(findings@, use_color));
    let n = findings.len();
    let files = uniq_paths_count(findings);
    let mut line = to_owned("Found ");
    push_dec(&mut line, n as u64);
    push_str(&mut line, " ");
    push_str(&mut line, if n == 1 { "problem" } else { "problems" });
    push_str(&mut line, " (");
    crate::types::push_joined(&mut line, &parts, ", ");
    push_str(&mut line, ") in ");
    push_dec(&mut line, files as u64);
    push_str(&mut line, " files (checked ");
    push_dec(&mut line, files_checked as u64);
    push_str(&mut line, " files).\n");
    push_str(out, line.as_str());
}

fn push_fixed_line(out: &mut String, fr: FixResult)
    ensures
        final(out)@ == old(out)@ + fixed_line(fr),
{
    let ghost start = out@;
    push_str(out, "Fixed ");
    push_dec(out, fr.fixed as u64);
    push_str(out, " problem");
    push_str(out, if fr.fixed == 1 { "" } else { "s" });
    push_str(out, "; ");
    push_dec(out, fr.remaining as u64);
    push_str(out, " remaining");
    let ghost s1 = out@;
    if fr.unsafe_fixable > 0 {
        push_str(out, " (");
        push_dec(out, fr.unsafe_fixable as u64);
        push_str(out, " fixable with --unsafe).\n");
    } else {
        push_str(out, ".\n");
    }
    assert(out@ =~= start + fixed_line(fr));
}

/// Append the summary lines.
pub fn push_summary(
    out: &mut String,
    findings: &[Finding],
    files_checked: usize,
    fix_result: Option<FixResult>,
    use_color: bool,
)
    ensures
        final(out)@ == old(out)@ + summary_text(
            findings@,
            files_checked as nat,
            fix_result,
            use_color,
        ),
{
    let ghost start = out@;
    if findings.len() == 0 && fix_result.is_none() {
        push_str(out, "All checks passed! (checked ");
        push_dec(out, files_checked as u64);
        push_str(out, " files)\n");
        return ;
    }
    push_fix_hints(out, findings);
    let ghost s1 = out@;
    if findings.len() > 0 {
        push_found_line(out, findings, files_checked, use_color);
    }
    let ghost s2 = out@;
    match fix_result {
        Some(fr) => push_fixed_line(out, fr),
        None => {},
    }
    proof {
        lemma_summary_parts(findings@, files_checked as nat, fix_result, use_color);
        assert(out@ =~= start + summary_text(findings@, files_checked as nat, fix_result, use_color));
    }
}

// ── Line reporters ───────────────────────────────────────────────────────────

/// `path:line:col: CODE message`.
pub open spec fn concise_line(f: Finding, color: bool) -> Seq<char> {
    f.rel_path@ + ":"@ + dec(f.line as nat) + ":"@ + dec(f.col as nat) + ": "@ + code_text(
        f.code@,
        f.severity,
        color,
    ) + " "@ + f.message@ + "\n"@
}

/// `path:line: [CODE] message`.
pub open spec fn pylint_line(f: Finding) -> Seq<char> {
    f.rel_path@ + ":"@ + dec(f.line as nat) + ": ["@ + f.code@ + "] "@ + f.message@ + "\n"@
}

/// A GitHub Actions annotation: errors as `error`, the rest as `warning`.
pub open spec fn github_line(f: Finding) -> Seq<char> {
    "::"@ + (if f.severity == Severity::Error {
        "error"@
    } else {
        "warning"@
    }) + " title=sqlalchemy-lsp ("@ + f.code@ + "),file="@ + f.rel_path@ + ",line="@ + dec(
        f.line as nat,
    ) + ",col="@ + dec(f.col as nat) + "::"@ + f.message@ + "\n"@
}

/// The lines of a line-per-finding reporter (kind 0 concise, 1 pylint,
/// 2 GitHub), in order.
pub open spec fn lines_of(f: Seq<Finding>, kind: u8, color: bool) -> Seq<char>
    decreases f.len(),
{
    if f.len() == 0 {
        Seq::empty()
    } else {
        lines_of(f.drop_last(), kind, color) + if kind == 0 {
            concise_line(f.last(), color)
        } else if kind == 1 {
            pylint_line(f.last())
        } else {
            github_line(f.last())
        }
    }
}

fn concise_line_exec(f: &Finding, use_color: bool) -> (s: String)
    ensures
        s@ == concise_line(*f, use_color),
{
    let mut s = to_owned(f.rel_path.as_str());
    push_str(&mut s, ":");
    push_dec(&mut s, f.line as u64);
    push_str(&mut s, ":");
    push_dec(&mut s, f.col as u64);
    push_str(&mut s, ": ");
    let c = sev_colored_code(f.code.as_str(), f.severity, use_color);
    push_str(&mut s, c.as_str());
    push_str(&mut s, " ");
    push_str(&mut s, f.message.as_str());
    push_str(&mut s, "\n");
    s
}

fn pylint_line_exec(f: &Finding) -> (s: String)
    ensures
        s@ == pylint_line(*f),
{
    let mut s = to_owned(f.rel_path.as_str());
    push_str(&mut s, ":");
    push_dec(&mut s, f.line as u64);
    push_str(&mut s, ": [");
    push_str(&mut s, f.code.as_str());
    push_str(&mut s, "] ");
    push_str(&mut s, f.message.as_str());
    push_str(&mut s, "\n");
    s
}

fn github_line_exec(f: &Finding) -> (s: String)
    ensures
        s@ == github_line(*f),
{
    let mut s = to_owned("::");
    push_str(&mut s, if f.severity == Severity::Error { "error" } else { "warning" });
    push_str(&mut s, " title=sqlalchemy-lsp (");
    push_str(&mut s, f.code.as_str());
    push_str(&mut s, "),file=");
    push_str(&mut s, f.rel_path.as_str());
    push_str(&mut s, ",line=");
    push_dec(&mut s, f.line as u64);
    push_str(&mut s, ",col=");
    push_dec(&mut s, f.col as u64);
    push_str(&mut s, "::");
    push_str(&mut s, f.message.as_str());
    push_str(&mut s, "\n");
    s
}

fn push_lines(out: &mut String, findings: &[Finding], kind: u8, use_color: bool)
    ensures
        final(out)@ == old(out)@ + lines_of(findings@, kind, use_color),
{
    let ghost start = out@;
    let mut i: usize = 0;
    while i < findings.len()
        invariant
            i <= findings@.len(),
            out@ == start + lines_of(findings@.take(i as int), kind, use_color),
        decreases findings@.len() - i,
    {
        proof {
            assert(findings@.take(i + 1).drop_last() =~= findings@.take(i as int));
        }
        let f = &findings[i];
        let l = if kind == 0 {
            concise_line_exec(f, use_color)
        } else if kind == 1 {
            pylint_line_exec(f)
        } else {
            github_line_exec(f)
        };
        push_str(out, l.as_str());
        assert(out@ =~= start + lines_of(findings@.take(i + 1), kind, use_color));
        i = i + 1;
    }
    assert(findings@.take(findings@.len() as int) =~= findings@);
}

/// The concise reporter: one line per finding, then the summary.
pub fn render_concise(findings: &[Finding], files_checked: usize, fix_result: Option<FixResult>, use_color: bool) -> (s: String)
    ensures
        s@ == lines_of(findings@, 0, use_color) + summary_text(findings@, files_checked as nat, fix_result, use_color),
{
    let mut out = String::new();
    push_lines(&mut out, findings, 0, use_color);
    push_summary(&mut out, findings, files_checked, fix_result, use_color);
    out
}

/// The pylint reporter: one line per finding, then the summary.
pub fn render_pylint(findings: &[Finding], files_checked: usize, fix_result: Option<FixResult>, use_color: bool) -> (s: String)
    ensures
        s@ == lines_of(findings@, 1, use_color) + summary_text(findings@, files_checked as nat, fix_result, use_color),
{
    let mut out = String::new();
    push_lines(&mut out, findings, 1, use_color);
    push_summary(&mut out, findings, files_checked, fix_result, use_color);
    out
}

/// The GitHub reporter: one workflow annotation per finding, no summary.
pub fn render_github(findings: &[Finding]) -> (s: String)
    ensures
        s@ == lines_of(findings@, 2, false),
{
    let mut out = String::new();
    push_lines(&mut out, findings, 2, false);
    out
}

// ── Full ─────────────────────────────────────────────────────────────────────

/// `c` in colour `p` when colouring, else plain.
pub open spec fn tint(p: Seq<char>, c: Seq<char>, color: bool) -> Seq<char> {
    if color {
        fg(p, c)
    } else {
        c
    }
}

/// The source excerpt lines with carets under the span, if there is a source line.
pub open spec fn excerpt(f: Finding, color: bool) -> Seq<char> {
    let ls = dec(f.line as nat);
    let pad = spaces(ls.len() as int);
    let pipe = tint("34"@, "|"@, color);
    match f.source_line {
        Some(src) => {
            let span = if f.end_col > f.col {
                (f.end_col - f.col) as int
            } else {
                1int
            };
            let indent = if f.col > 0 {
                f.col - 1
            } else {
                0int
            };
            let raw = Seq::new(span as nat, |_i: int| '^');
            tint("34"@, ls, color) + " "@ + pipe + " "@ + src@ + "\n"@ + pad + " "@ + pipe + " "@
                + spaces(indent) + (if color {
                caret_text(raw, f.severity)
            } else {
                raw
            }) + "\n"@
        },
        None => Seq::empty(),
    }
}

/// The help line, for codes that have one.
pub open spec fn help_line(f: Finding, color: bool) -> Seq<char> {
    let pad = spaces(dec(f.line as nat).len() as int);
    match help_text(f.code@) {
        Some(h) => pad + " = "@ + (if color {
            styled("1"@, fg("33"@, "help"@))
        } else {
            "help"@
        }) + ": "@ + (if color {
            styled("1"@, fg("37"@, h))
        } else {
            h
        }) + "\n"@,
        None => Seq::empty(),
    }
}

/// The block the full reporter prints for one finding.
pub open spec fn full_block(f: Finding, color: bool) -> Seq<char> {
    let ls = dec(f.line as nat);
    let pad = spaces(ls.len() as int);
    let pipe = tint("34"@, "|"@, color);
    code_text(f.code@, f.severity, color) + ": "@ + (if color {
        styled("1"@, f.message@)
    } else {
        f.message@
    }) + "\n"@ + pad + " "@ + tint("34"@, "-->"@, color) + " "@ + f.rel_path@ + ":"@ + ls + ":"@
        + dec(f.col as nat) + "\n"@ + pad + " "@ + pipe + "\n"@ + excerpt(f, color) + pad + " "@
        + pipe + "\n"@ + help_line(f, color) + pad + " = "@ + (if color {
        styled("1"@, fg("33"@, "note"@))
    } else {
        "note"@
    }) + ": disable with `# noqa: "@ + f.code@ + "` or in [tool.sqlalchemy-lsp]\n"@ + "\n"@
}

pub open spec fn full_blocks(f: Seq<Finding>, color: bool) -> Seq<char>
    decreases f.len(),
{
    if f.len() == 0 {
        Seq::empty()
    } else {
        full_blocks(f.drop_last(), color) + full_block(f.last(), color)
    }
}

fn tint_exec(p: u8, c: &str, color: bool) -> (r: String)
    requires
        p == 34,
    ensures
        r@ == tint("34"@, c@, color),
{
    if color {
        blue(c)
    } else {
        to_owned(c)
    }
}

fn push_excerpt(out: &mut String, f: &Finding, use_color: bool)
    ensures
        final(out)@ == old(out)@ + excerpt(*f, use_color),
{
    match &f.source_line {
        Some(src) => {
            let mut ls = String::new();
            push_dec(&mut ls, f.line as u64);
            let n = crate::text::to_chars(ls.as_str()).len();
            let pipe = tint_exec(34, "|", use_color);
            let span: u64 = if f.end_col > f.col {
                (f.end_col - f.col) as u64
            } else {
                1
            };
            let indent: u64 = if f.col > 0 {
                (f.col - 1) as u64
            } else {
                0
            };
            let mut raw = String::new();
            let mut k: u64 = 0;
            while k < span
                invariant
                    k <= span,
                    raw@ == Seq::new(k as nat, |_i: int| '^'),
                decreases span - k,
            {
                push_char(&mut raw, '^');
                k = k + 1;
                assert(raw@ =~= Seq::new(k as nat, |_i: int| '^'));
            }
            let carets = if use_color {
                sev_colored_carets(raw.as_str(), f.severity)
            } else {
                raw
            };
            let mut pad = String::new();
            push_spaces(&mut pad, n as u64);
            let mut ind = String::new();
            push_spaces(&mut ind, indent);
            assert(pad@ =~= spaces(n as int));
            assert(ind@ =~= spaces(indent as int));
            let mut s = tint_exec(34, ls.as_str(), use_color);
            push_str(&mut s, " ");
            push_str(&mut s, pipe.as_str());
            push_str(&mut s, " ");
            push_str(&mut s, src.as_str());
            push_str(&mut s, "\n");
            push_str(&mut s, pad.as_str());
            push_str(&mut s, " ");
            push_str(&mut s, pipe.as_str());
            push_str(&mut s, " ");
            push_str(&mut s, ind.as_str());
            push_str(&mut s, carets.as_str());
            push_str(&mut s, "\n");
            push_str(out, s.as_str());
        },
        None => {
            assert(out@ =~= old(out)@ + excerpt(*f, use_color));
        },
    }
}

fn push_help_line(out: &mut String, f: &Finding, use_color: bool, n: usize)
    requires
        n == dec(f.line as nat).len(),
    ensures
        final(out)@ == old(out)@ + help_line(*f, use_color),
{
    let ghost start = out@;
    match help_for_code(f.code.as_str()) {
        Some(h) => {
            push_spaces(out, n as u64);
            push_str(out, " = ");
            if use_color {
                let y = yellow("help");
                let b = bold(y.as_str());
                push_str(out, b.as_str());
            } else {
                push_str(out, "help");
            }
            push_str(out, ": ");
            if use_color {
                let w = white(h);
                let b = bold(w.as_str());
                push_str(out, b.as_str());
            } else {
                push_str(out, h);
            }
            push_str(out, "\n");
            assert(out@ =~= start + help_line(*f, use_color));
        },
        None => {},
    }
}

fn full_block_exec(f: &Finding, use_color: bool) -> (s: String)
    ensures
        s@ == full_block(*f, use_color),
{
    let mut ls = String::new();
    push_dec(&mut ls, f.line as u64);
    let n = crate::text::to_chars(ls.as_str()).len();
    let mut s = sev_colored_code(f.code.as_str(), f.severity, use_color);
    push_str(&mut s, ": ");
    let m = if use_color {
        bold(f.message.as_str())
    } else {
        to_owned(f.message.as_str())
    };
    push_str(&mut s, m.as_str());
    push_str(&mut s, "\n");
    let arrow = tint_exec(34, "-->", use_color);
    let pipe = tint_exec(34, "|", use_color);
    let mut pad = String::new();
    push_spaces(&mut pad, n as u64);
    push_str(&mut s, pad.as_str());
    push_str(&mut s, " ");
    push_str(&mut s, arrow.as_str());
    push_str(&mut s, " ");
    push_str(&mut s, f.rel_path.as_str());
    push_str(&mut s, ":");
    push_str(&mut s, ls.as_str());
    push_str(&mut s, ":");
    push_dec(&mut s, f.col as u64);
    push_str(&mut s, "\n");
    push_str(&mut s, pad.as_str());
    push_str(&mut s, " ");
    push_str(&mut s, pipe.as_str());
    push_str(&mut s, "\n");
    let mut ex = String::new();
    push_excerpt(&mut ex, f, use_color);
    assert(ex@ =~= excerpt(*f, use_color));
    push_str(&mut s, ex.as_str());
    push_str(&mut s, pad.as_str());
    push_str(&mut s, " ");
    push_str(&mut s, pipe.as_str());
    push_str(&mut s, "\n");
    let mut hl = String::new();
    push_help_line(&mut hl, f, use_color, n);
    assert(hl@ =~= help_line(*f, use_color));
    push_str(&mut s, hl.as_str());
    push_str(&mut s, pad.as_str());
    push_str(&mut s, " = ");
    let note = if use_color {
        let y = yellow("note");
        bold(y.as_str())
    } else {
        to_owned("note")
    };
    push_str(&mut s, note.as_str());
    push_str(&mut s, ": disable with `# noqa: ");
    push_str(&mut s, f.code.as_str());
    push_str(&mut s, "` or in [tool.sqlalchemy-lsp]\n");
    push_str(&mut s, "\n");
    s
}

/// The full reporter: a rustc-style block per finding, then the summary.
pub fn render_full(findings: &[Finding], files_checked: usize, fix_result: Option<FixResult>, use_color: bool) -> (s: String)
    ensures
        s@ == full_blocks(findings@, use_color) + summary_text(findings@, files_checked as nat, fix_result, use_color),
{
    let mut out = String::new();
    let mut i: usize = 0;
    while i < findings.len()
        invariant
            i <= findings@.len(),
            out@ == full_blocks(findings@.take(i as int), use_color),
        decreases findings@.len() - i,
    {
        proof {
            assert(findings@.take(i + 1).drop_last() =~= findings@.take(i as int));
        }
        let b = full_block_exec(&findings[i], use_color);
        push_str(&mut out, b.as_str());
        i = i + 1;
    }
    assert(findings@.take(findings@.len() as int) =~= findings@);
    push_summary(&mut out, findings, files_checked, fix_result, use_color);
    out
}

// ── Grouped ──────────────────────────────────────────────────────────────────

/// The findings ordered by file path, each file's findings in their order.
pub open spec fn by_path(f: Seq<Finding>) -> Seq<Finding> {
    sorted_order(f.map_values(|x: Finding| skey(x.rel_path@))).map_values(|i: int| f[i])
}

/// One finding under its file header.
pub open spec fn grouped_item(f: Finding, color: bool) -> Seq<char> {
    "  "@ + dec(f.line as nat) + ":"@ + dec(f.col as nat) + ": "@ + code_text(f.code@, f.severity, color)
        + " "@ + f.message@ + "\n"@
}

/// A file header, bold when colouring.
pub open spec fn grouped_header(path: Seq<char>, color: bool) -> Seq<char> {
    (if color {
        styled("1"@, path)
    } else {
        path
    }) + "\n"@
}

/// Findings already ordered by path: a header before each new path.
pub open spec fn grouped_lines(sf: Seq<Finding>, color: bool) -> Seq<char>
    decreases sf.len(),
{
    if sf.len() == 0 {
        Seq::empty()
    } else {
        let n = sf.len();
        grouped_lines(sf.drop_last(), color) + (if n == 1 || sf[n - 2].rel_path@ != sf[n - 1].rel_path@ {
            grouped_header(sf[n - 1].rel_path@, color)
        } else {
            Seq::<char>::empty()
        }) + grouped_item(sf[n - 1], color)
    }
}

fn grouped_item_exec(f: &Finding, use_color: bool) -> (s: String)
    ensures
        s@ == grouped_item(*f, use_color),
{
    let mut s = to_owned("  ");
    push_dec(&mut s, f.line as u64);
    push_str(&mut s, ":");
    push_dec(&mut s, f.col as u64);
    push_str(&mut s, ": ");
    let c = sev_colored_code(f.code.as_str(), f.severity, use_color);
    push_str(&mut s, c.as_str());
    push_str(&mut s, " ");
    push_str(&mut s, f.message.as_str());
    push_str(&mut s, "\n");
    s
}

fn findings_by_path(findings: &[Finding]) -> (r: Vec<&Finding>)
    ensures
        r@.map_values(|x: &Finding| *x) == by_path(findings@),
{
    let ghost ks = findings@.map_values(|x: Finding| skey(x.rel_path@));
    let mut keys: Vec<Vec<u32>> = Vec::new();
    let mut i: usize = 0;
    while i < findings.len()
        invariant
            i <= findings@.len(),
            ks == findings@.map_values(|x: Finding| skey(x.rel_path@)),
            keys@.len() == i,
            forall|k: int| 0 <= k < i ==> #[trigger] keys@[k]@ == ks[k],
        decreases findings@.len() - i,
    {
        keys.push(str_key(findings[i].rel_path.as_str()));
        i = i + 1;
    }
    assert(kviews(keys@) =~= ks);
    let order = sort_order(&keys);
    let ghost so = sorted_order(ks);
    let mut out: Vec<&Finding> = Vec::new();
    let mut j: usize = 0;
    while j < order.len()
        invariant
            j <= order@.len(),
            order@.len() == findings@.len(),
            forall|k: int| 0 <= k < order@.len() ==> (#[trigger] order@[k]) < findings@.len(),
            out@.len() == j,
            forall|k: int| 0 <= k < j ==> *(#[trigger] out@[k]) == findings@[order@[k] as int],
        decreases order@.len() - j,
    {
        out.push(&findings[order[j]]);
        j = j + 1;
    }
    proof {
        assert(order@.map_values(|i: usize| i as int) == so);
        assert forall|k: int| 0 <= k < out@.len() implies out@.map_values(|x: &Finding| *x)[k]
            == by_path(findings@)[k] by {
            assert(so[k] == order@[k] as int);
        }
        assert(out@.map_values(|x: &Finding| *x) =~= by_path(findings@));
    }
    out
}

/// The grouped reporter: findings under a header per file, files in path
/// order, then the summary.
pub fn render_grouped(findings: &[Finding], files_checked: usize, fix_result: Option<FixResult>, use_color: bool) -> (s: String)
    ensures
        s@ == grouped_lines(by_path(findings@), use_color) + summary_text(findings@, files_checked as nat, fix_result, use_color),
{
    let sf = findings_by_path(findings);
    let ghost sv = sf@.map_values(|x: &Finding| *x);
    let mut out = String::new();
    let mut i: usize = 0;
    while i < sf.len()
        invariant
            i <= sf@.len(),
            sv == sf@.map_values(|x: &Finding| *x),
            out@ == grouped_lines(sv.take(i as int), use_color),
        decreases sf@.len() - i,
    {
        proof {
            assert(sv.take(i + 1).drop_last() =~= sv.take(i as int));
        }
        let f = sf[i];
        let new_file = i == 0 || !str_eq(sf[i - 1].rel_path.as_str(), f.rel_path.as_str());
        let ghost s0 = out@;
        if new_file {
            if use_color {
                let h = bold(f.rel_path.as_str());
                push_str(&mut out, h.as_str());
            } else {
                push_str(&mut out, f.rel_path.as_str());
            }
            push_str(&mut out, "\n");
        }
        let ghost s1 = out@;
        proof {
            let t = sv.take(i + 1);
            assert(t[i as int] == *f);
            if i > 0 {
                assert(t[i - 1] == sv[i - 1]);
            }
            assert(s1 =~= s0 + (if i + 1 == 1 || t[i - 1].rel_path@ != t[i as int].rel_path@ {
                grouped_header(t[i as int].rel_path@, use_color)
            } else {
                Seq::<char>::empty()
            }));
        }
        let item = grouped_item_exec(f, use_color);
        push_str(&mut out, item.as_str());
        i = i + 1;
    }
    assert(sv.take(sv.len() as int) =~= sv);
    push_summary(&mut out, findings, files_checked, fix_result, use_color);
    out
}

// ── JUnit ────────────────────────────────────────────────────────────────────

/// One character of XML text, escaped: `&`, `<`, `>` and `"` as entities.
pub open spec fn xml_char(c: char) -> Seq<char> {
    if c == '&' {
        "&amp;"@
    } else if c == '<' {
        "&lt;"@
    } else if c == '>' {
        "&gt;"@
    } else if c == '"' {
        "&quot;"@
    } else {
        seq![c]
    }
}

/// Text escaped for an XML attribute or element.
pub open spec fn xml_text(s: Seq<char>) -> Seq<char>
    decreases s.len(),
{
    if s.len() == 0 {
        Seq::empty()
    } else {
        xml_text(s.drop_last()) + xml_char(s.last())
    }
}

/// Escape text for XML.
pub fn escape_xml(s: &str) -> (r: String)
    ensures
        r@ == xml_text(s@),
{
    let cs = crate::text::to_chars(s);
    let mut out = String::new();
    let mut i: usize = 0;
    while i < cs.len()
        invariant
            i <= cs@.len(),
            cs@ == s@,
            out@ == xml_text(cs@.take(i as int)),
        decreases cs@.len() - i,
    {
        proof {
            assert(cs@.take(i + 1).drop_last() =~= cs@.take(i as int));
        }
        let c = cs[i];
        if c == '&' {
            push_str(&mut out, "&amp;");
        } else if c == '<' {
            push_str(&mut out, "&lt;");
        } else if c == '>' {
            push_str(&mut out, "&gt;");
        } else if c == '"' {
            push_str(&mut out, "&quot;");
        } else {
            push_char(&mut out, c);
            assert(out@ =~= xml_text(cs@.take(i as int)) + seq![c]);
        }
        i = i + 1;
    }
    assert(cs@.take(cs@.len() as int) =~= cs@);
    out
}

/// A path as a JUnit class name: `/` and `\\` become `.`.
pub open spec fn class_name(p: Seq<char>) -> Seq<char> {
    p.map_values(|c: char| if c == '/' || c == '\\' { '.' } else { c })
}

fn class_name_exec(p: &str) -> (r: String)
    ensures
        r@ == class_name(p@),
{
    let cs = crate::text::to_chars(p);
    let mut out = String::new();
    let mut i: usize = 0;
    while i < cs.len()
        invariant
            i <= cs@.len(),
            cs@ == p@,
            out@ == class_name(cs@.take(i as int)),
        decreases cs@.len() - i,
    {
        let c = cs[i];
        push_char(&mut out, if c == '/' || c == '\\' { '.' } else { c });
        i = i + 1;
        assert(out@ =~= class_name(cs@.take(i as int)));
    }
    assert(cs@.take(cs@.len() as int) =~= cs@);
    out
}

/// The test case of one finding.
pub open spec fn junit_case(f: Finding) -> Seq<char> {
    "  <testcase classname=\""@ + class_name(f.rel_path@) + "\" name=\""@ + f.code@ + "\">\n"@
        + "    <failure message=\""@ + xml_text(f.message@) + "\" type=\""@ + f.code@ + "\">"@
        + f.code@ + ": "@ + f.rel_path@ + ":"@ + dec(f.line as nat) + ": "@ + xml_text(f.message@)
        + "</failure>\n"@ + "  </testcase>\n"@
}

pub open spec fn junit_cases(f: Seq<Finding>) -> Seq<char>
    decreases f.len(),
{
    if f.len() == 0 {
        Seq::empty()
    } else {
        junit_cases(f.drop_last()) + junit_case(f.last())
    }
}

/// The JUnit XML document: one failing test case per finding.
pub open spec fn junit_text(f: Seq<Finding>) -> Seq<char> {
    "<?xml version=\"1.0\" encoding=\"UTF-8\"?>\n"@ + "<testsuite name=\"sqlalchemy-lsp\" tests=\""@
        + dec(f.len()) + "\" failures=\""@ + dec(f.len()) + "\">\n"@ + junit_cases(f)
        + "</testsuite>\n"@
}

fn junit_case_exec(f: &Finding) -> (s: String)
    ensures
        s@ == junit_case(*f),
{
    let cn = class_name_exec(f.rel_path.as_str());
    let msg = escape_xml(f.message.as_str());
    let mut s = to_owned("  <testcase classname=\"");
    push_str(&mut s, cn.as_str());
    push_str(&mut s, "\" name=\"");
    push_str(&mut s, f.code.as_str());
    push_str(&mut s, "\">\n");
    push_str(&mut s, "    <failure message=\"");
    push_str(&mut s, msg.as_str());
    push_str(&mut s, "\" type=\"");
    push_str(&mut s, f.code.as_str());
    push_str(&mut s, "\">");
    push_str(&mut s, f.code.as_str());
    push_str(&mut s, ": ");
    push_str(&mut s, f.rel_path.as_str());
    push_str(&mut s, ":");
    push_dec(&mut s, f.line as u64);
    push_str(&mut s, ": ");
    push_str(&mut s, msg.as_str());
    push_str(&mut s, "</failure>\n");
    push_str(&mut s, "  </testcase>\n");
    s
}

/// The JUnit reporter.
pub fn render_junit(findings: &[Finding]) -> (s: String)
    ensures
        s@ == junit_text(findings@),
{
    let n = findings.len();
    let mut out = to_owned("<?xml version=\"1.0\" encoding=\"UTF-8\"?>\n");
    push_str(&mut out, "<testsuite name=\"sqlalchemy-lsp\" tests=\"");
    push_dec(&mut out, n as u64);
    push_str(&mut out, "\" failures=\"");
    push_dec(&mut out, n as u64);
    push_str(&mut out, "\">\n");
    let mut cases = String::new();
    let mut i: usize = 0;
    while i < n
        invariant
            i <= n,
            n == findings@.len(),
            cases@ == junit_cases(findings@.take(i as int)),
        decreases n - i,
    {
        proof {
            assert(findings@.take(i + 1).drop_last() =~= findings@.take(i as int));
        }
        let c = junit_case_exec(&findings[i]);
        push_str(&mut cases, c.as_str());
        i = i + 1;
    }
    assert(findings@.take(n as int) =~= findings@);
    push_str(&mut out, cases.as_str());
    push_str(&mut out, "</testsuite>\n");
    out
}

// ── GitLab fingerprints ──────────────────────────────────────────────────────

/// The 64-bit FNV-1a hash of some bytes.
pub open spec fn fnv(bytes: Seq<u8>) -> u64
    decreases bytes.len(),
{
    if bytes.len() == 0 {
        0xcbf29ce484222325u64
    } else {
        vstd::wrapping::u64_specs::wrapping_mul(
            fnv(bytes.drop_last()) ^ (bytes.last() as u64),
            0x100000001b3u64,
        )
    }
}

/// The text a fingerprint hashes: `path:code:line`.
pub open spec fn fingerprint_key(path: Seq<char>, code: Seq<char>, line: u32) -> Seq<char> {
    path + ":"@ + code + ":"@ + dec(line as nat)
}

/// A stable (not cryptographic) fingerprint of a finding: FNV-1a of the
/// UTF-8 bytes of `path:code:line`.
pub fn md5_fingerprint(path: &str, code: &str, line: u32) -> (h: u64)
    ensures
        h == fnv(vstd::utf8::encode_utf8(fingerprint_key(path@, code@, line))),
{
    let mut key = to_owned(path);
    push_str(&mut key, ":");
    push_str(&mut key, code);
    push_str(&mut key, ":");
    push_dec(&mut key, line as u64);
    let bytes = key.as_str().as_bytes();
    let ghost bs = bytes@;
    let mut h: u64 = 0xcbf29ce484222325;
    let mut i: usize = 0;
    while i < bytes.len()
        invariant
            i <= bs.len(),
            bs == bytes@,
            h == fnv(bs.take(i as int)),
        decreases bs.len() - i,
    {
        proof {
            assert(bs.take(i + 1).drop_last() =~= bs.take(i as int));
        }
        h = (h ^ (bytes[i] as u64)).wrapping_mul(0x100000001b3);
        i = i + 1;
    }
    assert(bs.take(bs.len() as int) =~= bs);
    h
}

/// A lower-case hex digit.
pub open spec fn hex_digit(d: int) -> char {
    seq!['0', '1', '2', '3', '4', '5', '6', '7', '8', '9', 'a', 'b', 'c', 'd', 'e', 'f'][d]
}

/// The lower-case hexadecimal text of `n`, no leading zeros (`{:x}`).
pub open spec fn hex(n: nat) -> Seq<char>
    decreases n,
{
    if n < 16 {
        seq![hex_digit(n as int)]
    } else {
        hex(n / 16).push(hex_digit((n % 16) as int))
    }
}

fn hex_digit_exec(d: u64) -> (c: char)
    requires
        d < 16,
    ensures
        c == hex_digit(d as int),
{
    let digits = ['0', '1', '2', '3', '4', '5', '6', '7', '8', '9', 'a', 'b', 'c', 'd', 'e', 'f'];
    assert(digits@ =~= seq!['0', '1', '2', '3', '4', '5', '6', '7', '8', '9', 'a', 'b', 'c', 'd', 'e', 'f']);
    digits[d as usize]
}

fn push_hex(s: &mut String, n: u64)
    ensures
        final(s)@ == old(s)@ + hex(n as nat),
    decreases n,
{
    if n >= 16 {
        push_hex(s, n / 16);
        push_char(s, hex_digit_exec(n % 16));
    } else {
        push_char(s, hex_digit_exec(n));
    }
}

/// The GitLab code-quality fingerprint of a finding, in hex.
pub fn gitlab_fingerprint(path: &str, code: &str, line: u32) -> (s: String)
    ensures
        s@ == hex(fnv(vstd::utf8::encode_utf8(fingerprint_key(path@, code@, line))) as nat),
{
    let h = md5_fingerprint(path, code, line);
    let mut s = String::new();
    push_hex(&mut s, h);
    assert(s@ =~= hex(h as nat));
    s
}

/// The GitLab severity of a finding: errors `critical`, infos and hints
/// `info`, warnings `minor`.
pub fn gitlab_severity(sev: Severity) -> (r: &'static str)
    ensures
        r@ == match sev {
            Severity::Error => "critical"@,
            Severity::Info => "info"@,
            Severity::Hint => "info"@,
            Severity::Warning => "minor"@,
        },
{
    match sev {
        Severity::Error => "critical",
        Severity::Info => "info",
        Severity::Hint => "info",
        Severity::Warning => "minor",
    }
}

/// The `fix.applicability` of a finding in JSON output, none when unfixable.
pub fn fix_applicability(k: FixKind) -> (r: Option<&'static str>)
    ensures
        match k {
            FixKind::Safe => r is Some && r->0@ == "safe"@,
            FixKind::Unsafe => r is Some && r->0@ == "unsafe"@,
            FixKind::NoFix => r is None,
        },
{
    match k {
        FixKind::Safe => Some("safe"),
        FixKind::Unsafe => Some("unsafe"),
        FixKind::NoFix => None,
    }
}

// ── Dispatch ─────────────────────────────────────────────────────────────────

/// The output of a text reporter; the JSON reporters (`json`,
/// `json-lines`, `gitlab`) are serialised elsewhere.
pub open spec fn text_output(
    f: Seq<Finding>,
    reporter: Reporter,
    files_checked: nat,
    fix: Option<FixResult>,
    color: bool,
) -> Option<Seq<char>> {
    match reporter {
        Reporter::Concise => Some(lines_of(f, 0, color) + summary_text(f, files_checked, fix, color)),
        Reporter::Pylint => Some(lines_of(f, 1, color) + summary_text(f, files_checked, fix, color)),
        Reporter::Full => Some(full_blocks(f, color) + summary_text(f, files_checked, fix, color)),
        Reporter::Grouped => Some(grouped_lines(by_path(f), color) + summary_text(f, files_checked, fix, color)),
        Reporter::Github => Some(lines_of(f, 2, false)),
        Reporter::Junit => Some(junit_text(f)),
        _ => None,
    }
}

/// Render findings with a text reporter; `None` for the JSON reporters.
pub fn render_text(
    findings: &[Finding],
    reporter: Reporter,
    files_checked: usize,
    fix_result: Option<FixResult>,
    use_color: bool,
) -> (r: Option<String>)
    ensures
        match text_output(findings@, reporter, files_checked as nat, fix_result, use_color) {
            Some(t) => r is Some && r->0@ == t,
            None => r is None,
        },
{
    match reporter {
        Reporter::Concise => Some(render_concise(findings, files_checked, fix_result, use_color)),
        Reporter::Pylint => Some(render_pylint(findings, files_checked, fix_result, use_color)),
        Reporter::Full => Some(render_full(findings, files_checked, fix_result, use_color)),
        Reporter::Grouped => Some(render_grouped(findings, files_checked, fix_result, use_color)),
        Reporter::Github => Some(render_github(findings)),
        Reporter::Junit => Some(render_junit(findings)),
        _ => None,
    }
}

/// Machine reporters never print the human summary: their output is the
/// same whatever the file count, fix result and colour setting, which only
/// the summary reads, and the JSON ones have no text at all.
pub proof fn law_machine_reporters_no_summary(
    f: Seq<Finding>,
    reporter: Reporter,
    n1: nat,
    n2: nat,
    fix1: Option<FixResult>,
    fix2: Option<FixResult>,
    c1: bool,
    c2: bool,
)
    requires
        reporter == Reporter::Json || reporter == Reporter::JsonLines || reporter == Reporter::Github
            || reporter == Reporter::Gitlab || reporter == Reporter::Junit,
    ensures
        text_output(f, reporter, n1, fix1, c1) == text_output(f, reporter, n2, fix2, c2),
        (reporter == Reporter::Json || reporter == Reporter::JsonLines || reporter == Reporter::Gitlab)
            ==> text_output(f, reporter, n1, fix1, c1) is None,
{
}


// ── Summary phrases ──────────────────────────────────────────────────────────

/// The phrases that only the human summary prints.
pub open spec fn summary_phrase(w: Seq<char>) -> bool {
    w == "Found"@ || w == "All checks passed"@ || w == "fixable with"@
}

/// A finding whose code, message and path do not hold `w`.
pub open spec fn finding_free(f: Finding, w: Seq<char>) -> bool {
    !contains(f.code@, w) && !contains(f.message@, w) && !contains(f.rel_path@, w)
}

proof fn lemma_summary_phrase(w: Seq<char>)
    requires
        summary_phrase(w),
    ensures
        phrase_word(w),
        w[0] == 'F' ==> w[1] == 'o',
        w[0] == 'A' ==> w[1] == 'l',
        w[0] == 'f' ==> w[1] == 'i' && w.len() == 12,
        w[0] == 'F' || w[0] == 'A' || w[0] == 'f',
{
    reveal_strlit("Found");
    reveal_strlit("All checks passed");
    reveal_strlit("fixable with");
}

/// Every end of `t` that begins `w`, short of all of `w`, also ends `s`.
pub open spec fn tails_follow(t: Seq<char>, s: Seq<char>, w: Seq<char>) -> bool {
    forall|k: int|
        0 < k < w.len() && k <= t.len() && #[trigger] suffix(t, k) == w.subrange(0, k) ==> k
            <= s.len() && suffix(s, k) == w.subrange(0, k)
}

/// The last `k` characters of `t`.
pub open spec fn suffix(t: Seq<char>, k: int) -> Seq<char> {
    t.subrange(t.len() - k, t.len() as int)
}

/// Escaping for XML brings no phrase into a text that lacks it: an
/// entity starts with `&` and ends with `;`, which no phrase holds.
proof fn lemma_xml_free(s: Seq<char>, w: Seq<char>)
    requires
        phrase_word(w),
        !contains(s, w),
    ensures
        !contains(xml_text(s), w),
        tails_follow(xml_text(s), s, w),
    decreases s.len(),
{
    let n = w.len() as int;
    if s.len() == 0 {
        assert(xml_text(s) =~= Seq::<char>::empty());
    } else {
        let p = s.drop_last();
        let c = s.last();
        if contains(p, w) {
            let i = choose|i: int| occurs_at(p, w, i);
            assert(s.subrange(i, i + n) =~= p.subrange(i, i + n));
            assert(occurs_at(s, w, i));
        }
        lemma_xml_free(p, w);
        let t = xml_text(p);
        let e = xml_char(c);
        assert(xml_text(s) == t + e);
        lemma_foreign_char(w, '&');
        lemma_foreign_char(w, ';');
        if c == '&' || c == '<' || c == '>' || c == '"' {
            reveal_strlit("&amp;");
            reveal_strlit("&lt;");
            reveal_strlit("&gt;");
            reveal_strlit("&quot;");
            assert(e[0] == '&' && e.last() == ';' && 4 <= e.len() <= 6);
            if contains(e, w) {
                let i = choose|i: int| occurs_at(e, w, i);
                assert(w[0] == e.subrange(i, i + n)[0]);
                if i == 0 {
                    assert(w.contains(w[0]));
                } else {
                    assert(w[n - 1] == e.subrange(i, i + n)[n - 1]);
                    assert(w[n - 1] == e.last());
                    assert(w.contains(w[n - 1]));
                }
            }
            lemma_concat_free(t, e, w);
            assert forall|k: int|
                0 < k < w.len() && k <= (t + e).len() && #[trigger] suffix(t + e, k) == w.subrange(
                    0,
                    k,
                ) implies k <= s.len() && suffix(s, k) == w.subrange(0, k) by {
                assert(suffix(t + e, k)[k - 1] == e.last());
                assert(w.subrange(0, k)[k - 1] == w[k - 1]);
                assert(w.contains(w[k - 1]));
            }
        } else {
            assert(e =~= seq![c]);
            if contains(t + e, w) {
                let i = choose|i: int| occurs_at(t + e, w, i);
                if i + n <= t.len() {
                    assert(t.subrange(i, i + n) =~= (t + e).subrange(i, i + n));
                    assert(occurs_at(t, w, i));
                } else {
                    let k = n - 1;
                    assert(suffix(t, k) =~= (t + e).subrange(i, i + n).subrange(0, k));
                    assert(suffix(t, k) == w.subrange(0, k));
                    assert(k <= p.len() && suffix(p, k) == w.subrange(0, k));
                    assert(c == (t + e).subrange(i, i + n)[n - 1]);
                    let j = p.len() - k;
                    assert(s.subrange(j, j + n) =~= suffix(p, k).push(c));
                    assert(w =~= w.subrange(0, k).push(w[n - 1]));
                    assert(occurs_at(s, w, j));
                }
            }
            assert forall|k: int|
                0 < k < w.len() && k <= (t + e).len() && #[trigger] suffix(t + e, k) == w.subrange(
                    0,
                    k,
                ) implies k <= s.len() && suffix(s, k) == w.subrange(0, k) by {
                assert(suffix(t + e, k)[k - 1] == c);
                assert(w.subrange(0, k)[k - 1] == w[k - 1]);
                if k == 1 {
                    assert(suffix(s, k) =~= seq![c]);
                    assert(w.subrange(0, k) =~= seq![w[0]]);
                } else {
                    assert(suffix(t, k - 1) =~= suffix(t + e, k).subrange(0, k - 1));
                    assert(suffix(t, k - 1) == w.subrange(0, k - 1));
                    assert(k - 1 <= p.len() && suffix(p, k - 1) == w.subrange(0, k - 1));
                    assert(suffix(s, k) =~= suffix(p, k - 1).push(c));
                    assert(w.subrange(0, k) =~= w.subrange(0, k - 1).push(w[k - 1]));
                }
            }
        }
    }
}

/// Turning slashes into dots brings no phrase into a path that lacks
/// it.
proof fn lemma_class_name_free(p: Seq<char>, w: Seq<char>)
    requires
        phrase_word(w),
        !contains(p, w),
    ensures
        !contains(class_name(p), w),
{
    if contains(class_name(p), w) {
        let n = w.len() as int;
        let i = choose|i: int| occurs_at(class_name(p), w, i);
        assert forall|j: int| 0 <= j < n implies p.subrange(i, i + n)[j] == w[j] by {
            assert(w[j] == class_name(p).subrange(i, i + n)[j]);
            assert(phrase_char(w[j]));
        }
        assert(p.subrange(i, i + n) =~= w);
        assert(occurs_at(p, w, i));
    }
}

/// A GitHub annotation line holds no summary phrase that its finding's
/// code, message and path lack.
proof fn lemma_github_line_free(f: Finding, w: Seq<char>)
    requires
        summary_phrase(w),
        finding_free(f, w),
    ensures
        !contains(github_line(f), w),
        github_line(f).len() > 0,
        github_line(f)[0] == ':',
{
    lemma_summary_phrase(w);
    reveal_strlit("::");
    reveal_strlit("error");
    reveal_strlit("warning");
    reveal_strlit(" title=sqlalchemy-lsp (");
    reveal_strlit("),file=");
    reveal_strlit(",line=");
    reveal_strlit(",col=");
    reveal_strlit("\n");
    let h = "::"@ + (if f.severity == Severity::Error {
        "error"@
    } else {
        "warning"@
    }) + " title=sqlalchemy-lsp ("@;
    if f.severity == Severity::Error {
        lemma_pair_free("::"@ + "error"@ + " title=sqlalchemy-lsp ("@, w);
    } else {
        lemma_pair_free("::"@ + "warning"@ + " title=sqlalchemy-lsp ("@, w);
    }
    if w[0] == 'f' {
        lemma_short_free("),file="@, w);
    } else {
        lemma_pair_free("),file="@, w);
    }
    lemma_pair_free(",line="@, w);
    lemma_pair_free(",col="@, w);
    lemma_pair_free("::"@, w);
    lemma_pair_free("\n"@, w);
    lemma_dec_free(f.line as nat, w);
    lemma_dec_free(f.col as nat, w);
    lemma_foreign_char(w, '(');
    lemma_foreign_char(w, ')');
    lemma_foreign_char(w, '=');
    lemma_foreign_char(w, ',');
    lemma_foreign_char(w, ':');
    lemma_foreign_char(w, '\n');
    let s1 = h + f.code@;
    lemma_concat_free(h, f.code@, w);
    let s2 = s1 + "),file="@;
    lemma_concat_free(s1, "),file="@, w);
    let s3 = s2 + f.rel_path@;
    lemma_concat_free(s2, f.rel_path@, w);
    let s4 = s3 + ",line="@;
    lemma_concat_free(s3, ",line="@, w);
    let s5 = s4 + dec(f.line as nat);
    lemma_concat_free(s4, dec(f.line as nat), w);
    let s6 = s5 + ",col="@;
    lemma_concat_free(s5, ",col="@, w);
    let s7 = s6 + dec(f.col as nat);
    lemma_concat_free(s6, dec(f.col as nat), w);
    let s8 = s7 + "::"@;
    lemma_concat_free(s7, "::"@, w);
    let s9 = s8 + f.message@;
    lemma_concat_free(s8, f.message@, w);
    lemma_concat_free(s9, "\n"@, w);
    assert(github_line(f) == s9 + "\n"@);
}

/// The GitHub reporter's lines hold no summary phrase that every finding
/// lacks.
proof fn lemma_github_lines_free(f: Seq<Finding>, w: Seq<char>)
    requires
        summary_phrase(w),
        forall|i: int| 0 <= i < f.len() ==> finding_free(#[trigger] f[i], w),
    ensures
        !contains(lines_of(f, 2, false), w),
    decreases f.len(),
{
    lemma_summary_phrase(w);
    if f.len() == 0 {
        assert(lines_of(f, 2, false) =~= Seq::<char>::empty());
    } else {
        lemma_github_lines_free(f.drop_last(), w);
        assert(finding_free(f[f.len() - 1], w));
        lemma_github_line_free(f.last(), w);
        lemma_foreign_char(w, ':');
        lemma_concat_free(lines_of(f.drop_last(), 2, false), github_line(f.last()), w);
    }
}

/// A JUnit test case holds no summary phrase that its finding's code,
/// message and path lack.
proof fn lemma_junit_case_free(f: Finding, w: Seq<char>)
    requires
        summary_phrase(w),
        finding_free(f, w),
    ensures
        !contains(junit_case(f), w),
        junit_case(f).len() > 0,
        junit_case(f).last() == '\n',
{
    lemma_summary_phrase(w);
    reveal_strlit("  <testcase classname=\"");
    reveal_strlit("\" name=\"");
    reveal_strlit("\">\n");
    reveal_strlit("    <failure message=\"");
    reveal_strlit("\" type=\"");
    reveal_strlit("\">");
    reveal_strlit(": ");
    reveal_strlit(":");
    reveal_strlit("</failure>\n");
    reveal_strlit("  </testcase>\n");
    lemma_pair_free("  <testcase classname=\""@, w);
    lemma_pair_free("\" name=\""@, w);
    lemma_pair_free("\">\n"@, w);
    lemma_pair_free("    <failure message=\""@, w);
    lemma_pair_free("\" type=\""@, w);
    lemma_pair_free("\">"@, w);
    lemma_pair_free(": "@, w);
    lemma_short_free(":"@, w);
    lemma_pair_free("</failure>\n"@, w);
    lemma_pair_free("  </testcase>\n"@, w);
    lemma_class_name_free(f.rel_path@, w);
    lemma_xml_free(f.message@, w);
    lemma_dec_free(f.line as nat, w);
    lemma_foreign_char(w, '"');
    lemma_foreign_char(w, '>');
    lemma_foreign_char(w, '<');
    lemma_foreign_char(w, ':');
    lemma_foreign_char(w, '\n');
    let code = f.code@;
    let path = f.rel_path@;
    let msg = xml_text(f.message@);
    let s1 = "  <testcase classname=\""@ + class_name(path);
    lemma_concat_free("  <testcase classname=\""@, class_name(path), w);
    let s2 = s1 + "\" name=\""@;
    lemma_concat_free(s1, "\" name=\""@, w);
    let s3 = s2 + code;
    lemma_concat_free(s2, code, w);
    let s4 = s3 + "\">\n"@;
    lemma_concat_free(s3, "\">\n"@, w);
    let s5 = s4 + "    <failure message=\""@;
    lemma_concat_free(s4, "    <failure message=\""@, w);
    let s6 = s5 + msg;
    lemma_concat_free(s5, msg, w);
    let s7 = s6 + "\" type=\""@;
    lemma_concat_free(s6, "\" type=\""@, w);
    let s8 = s7 + code;
    lemma_concat_free(s7, code, w);
    let s9 = s8 + "\">"@;
    lemma_concat_free(s8, "\">"@, w);
    let s10 = s9 + code;
    lemma_concat_free(s9, code, w);
    let s11 = s10 + ": "@;
    lemma_concat_free(s10, ": "@, w);
    let s12 = s11 + path;
    lemma_concat_free(s11, path, w);
    let s13 = s12 + ":"@;
    lemma_concat_free(s12, ":"@, w);
    let s14 = s13 + dec(f.line as nat);
    lemma_concat_free(s13, dec(f.line as nat), w);
    let s15 = s14 + ": "@;
    lemma_concat_free(s14, ": "@, w);
    let s16 = s15 + msg;
    lemma_concat_free(s15, msg, w);
    let s17 = s16 + "</failure>\n"@;
    lemma_concat_free(s16, "</failure>\n"@, w);
    lemma_concat_free(s17, "  </testcase>\n"@, w);
    assert(junit_case(f) == s17 + "  </testcase>\n"@);
}

/// The JUnit test cases hold no summary phrase that every finding lacks.
proof fn lemma_junit_cases_free(f: Seq<Finding>, w: Seq<char>)
    requires
        summary_phrase(w),
        forall|i: int| 0 <= i < f.len() ==> finding_free(#[trigger] f[i], w),
    ensures
        !contains(junit_cases(f), w),
        f.len() > 0 ==> junit_cases(f).len() > 0 && junit_cases(f).last() == '\n',
    decreases f.len(),
{
    lemma_summary_phrase(w);
    if f.len() == 0 {
        assert(junit_cases(f) =~= Seq::<char>::empty());
    } else {
        lemma_junit_cases_free(f.drop_last(), w);
        assert(finding_free(f[f.len() - 1], w));
        lemma_junit_case_free(f.last(), w);
        lemma_foreign_char(w, '\n');
        lemma_concat_free(junit_cases(f.drop_last()), junit_case(f.last()), w);
    }
}

/// The JUnit document holds no summary phrase that every finding lacks.
proof fn lemma_junit_text_free(f: Seq<Finding>, w: Seq<char>)
    requires
        summary_phrase(w),
        forall|i: int| 0 <= i < f.len() ==> finding_free(#[trigger] f[i], w),
    ensures
        !contains(junit_text(f), w),
{
    lemma_summary_phrase(w);
    reveal_strlit("<?xml version=\"1.0\" encoding=\"UTF-8\"?>\n");
    reveal_strlit("<testsuite name=\"sqlalchemy-lsp\" tests=\"");
    reveal_strlit("\" failures=\"");
    reveal_strlit("\">\n");
    reveal_strlit("</testsuite>\n");
    let k1 = "<?xml version=\"1.0\" encoding=\"UTF-8\"?>\n"@;
    let k2 = "<testsuite name=\"sqlalchemy-lsp\" tests=\""@;
    let k3 = "\" failures=\""@;
    let k4 = "\">\n"@;
    let k5 = "</testsuite>\n"@;
    lemma_pair_free(k1, w);
    lemma_pair_free(k2, w);
    lemma_pair_free(k3, w);
    lemma_pair_free(k4, w);
    lemma_pair_free(k5, w);
    lemma_dec_free(f.len(), w);
    lemma_junit_cases_free(f, w);
    lemma_foreign_char(w, '"');
    lemma_foreign_char(w, '<');
    lemma_foreign_char(w, '\n');
    let d = dec(f.len());
    lemma_concat_free(k1, k2, w);
    lemma_concat_free(k1 + k2, d, w);
    lemma_concat_free(k1 + k2 + d, k3, w);
    lemma_concat_free(k1 + k2 + d + k3, d, w);
    lemma_concat_free(k1 + k2 + d + k3 + d, k4, w);
    lemma_concat_free(k1 + k2 + d + k3 + d + k4, junit_cases(f), w);
    lemma_concat_free(k1 + k2 + d + k3 + d + k4 + junit_cases(f), k5, w);
}

/// Machine reporters never print the human summary: where no finding's
/// code, message or path holds "Found", "All checks passed" or "fixable
/// with", their output holds none of them either, whatever the file count,
/// fix result and colour setting (the JSON ones are not text reporters).
pub proof fn law_machine_reporters_no_summary_phrase(
    f: Seq<Finding>,
    reporter: Reporter,
    files_checked: nat,
    fix: Option<FixResult>,
    color: bool,
    w: Seq<char>,
)
    requires
        reporter == Reporter::Json || reporter == Reporter::JsonLines || reporter == Reporter::Github
            || reporter == Reporter::Gitlab || reporter == Reporter::Junit,
        summary_phrase(w),
        forall|i: int| 0 <= i < f.len() ==> finding_free(#[trigger] f[i], w),
    ensures
        match text_output(f, reporter, files_checked, fix, color) {
            Some(t) => !contains(t, w),
            None => true,
        },
{
    if reporter == Reporter::Github {
        lemma_github_lines_free(f, w);
    } else if reporter == Reporter::Junit {
        lemma_junit_text_free(f, w);
    }
}

} // verus!
