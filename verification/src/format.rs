//! The linter's output: findings, the reporters that render them, and the
//! summary lines printed after them.
use vstd::prelude::*;

use crate::text::str_eq;
use crate::types::{FixKind, Severity};

verus! {

/// The output formats of the `check` command.
#[derive(Debug, Clone, Copy, PartialEq, Eq, Structural)]
pub enum Reporter {
    Concise,
    Full,
    Json,
    JsonLines,
    Grouped,
    Github,
    Gitlab,
    Junit,
    Pylint,
}

impl Reporter {
    /// Formats meant for machines get no colour and no summary.
    pub fn is_machine(&self) -> (r: bool)
        ensures
            r == (*self == Reporter::Json || *self == Reporter::JsonLines || *self
                == Reporter::Github || *self == Reporter::Gitlab || *self == Reporter::Junit),
    {
        match self {
            Reporter::Json | Reporter::JsonLines | Reporter::Github | Reporter::Gitlab
            | Reporter::Junit => true,
            _ => false,
        }
    }
}

/// One finding as the linter reports it (1-based line and column).
#[derive(Debug, Clone)]
pub struct Finding {
    pub rel_path: String,
    pub code: String,
    pub message: String,
    pub severity: Severity,
    pub line: u32,
    pub col: u32,
    pub end_line: u32,
    pub end_col: u32,
    pub fix_kind: FixKind,
    pub source_line: Option<String>,
}

/// A finding as values.
pub struct FindingV {
    pub rel_path: Seq<char>,
    pub code: Seq<char>,
    pub message: Seq<char>,
    pub severity: Severity,
    pub line: u32,
    pub col: u32,
    pub end_line: u32,
    pub end_col: u32,
    pub fix_kind: FixKind,
    pub source_line: Option<Seq<char>>,
}

impl View for Finding {
    type V = FindingV;

    open spec fn view(&self) -> FindingV {
        FindingV {
            rel_path: self.rel_path@,
            code: self.code@,
            message: self.message@,
            severity: self.severity,
            line: self.line,
            col: self.col,
            end_line: self.end_line,
            end_col: self.end_col,
            fix_kind: self.fix_kind,
            source_line: match self.source_line {
                Some(s) => Some(s@),
                None => None,
            },
        }
    }
}

/// The values of a list of findings.
pub open spec fn fviews(v: Seq<Finding>) -> Seq<FindingV> {
    v.map_values(|f: Finding| f@)
}

/// A copy of a finding.
pub fn copy_finding(f: &Finding) -> (r: Finding)
    ensures
        r@ == f@,
{
    Finding {
        rel_path: f.rel_path.clone(),
        code: f.code.clone(),
        message: f.message.clone(),
        severity: f.severity,
        line: f.line,
        col: f.col,
        end_line: f.end_line,
        end_col: f.end_col,
        fix_kind: f.fix_kind,
        source_line: match &f.source_line {
            Some(s) => Some(s.clone()),
            None => None,
        },
    }
}

/// The word a severity is reported as.
pub open spec fn severity_word(s: Severity) -> Seq<char> {
    match s {
        Severity::Error => "error"@,
        Severity::Warning => "warning"@,
        Severity::Info => "info"@,
        Severity::Hint => "hint"@,
    }
}

impl Finding {
    pub fn severity_str(&self) -> (r: &'static str)
        ensures
            r@ == severity_word(self.severity),
    {
        match self.severity {
            Severity::Error => "error",
            Severity::Warning => "warning",
            Severity::Info => "info",
            Severity::Hint => "hint",
        }
    }
}

/// What `--fix` did.
#[derive(Debug, Default, Clone, Copy)]
pub struct FixResult {
    pub fixed: usize,
    pub remaining: usize,
    pub unsafe_fixable: usize,
}

/// How many findings have severity `s`.
pub open spec fn count_sev(f: Seq<Finding>, s: Severity) -> nat
    decreases f.len(),
{
    if f.len() == 0 {
        0
    } else {
        count_sev(f.drop_last(), s) + if f.last().severity == s { 1nat } else { 0nat }
    }
}

/// Counts of errors, warnings, infos and hints.
pub fn count_by_severity(findings: &[Finding]) -> (r: (usize, usize, usize, usize))
    ensures
        r.0 == count_sev(findings@, Severity::Error),
        r.1 == count_sev(findings@, Severity::Warning),
        r.2 == count_sev(findings@, Severity::Info),
        r.3 == count_sev(findings@, Severity::Hint),
{
    let mut e: usize = 0;
    let mut w: usize = 0;
    let mut n: usize = 0;
    let mut h: usize = 0;
    let mut i: usize = 0;
    while i < findings.len()
        invariant
            i <= findings@.len(),
            e == count_sev(findings@.take(i as int), Severity::Error),
            w == count_sev(findings@.take(i as int), Severity::Warning),
            n == count_sev(findings@.take(i as int), Severity::Info),
            h == count_sev(findings@.take(i as int), Severity::Hint),
            e + w + n + h == i,
        decreases findings@.len() - i,
    {
        proof {
            assert(findings@.take(i + 1).drop_last() =~= findings@.take(i as int));
        }
        match findings[i].severity {
            Severity::Error => e = e + 1,
            Severity::Warning => w = w + 1,
            Severity::Info => n = n + 1,
            Severity::Hint => h = h + 1,
        }
        i = i + 1;
    }
    assert(findings@.take(findings@.len() as int) =~= findings@);
    (e, w, n, h)
}

/// The help line the full reporter prints for a code, if any.
pub open spec fn help_text(code: Seq<char>) -> Option<Seq<char>> {
    if code == "SQLA-W101"@ {
        Some("add `__tablename__ = \"table_name\"` to the class body"@)
    } else if code == "SQLA-W303"@ {
        Some("align the column type with the FK target, or change the target"@)
    } else if code == "SQLA-W402"@ {
        Some("update `back_populates` to match the attribute name on the other side"@)
    } else if code == "SQLA-W403"@ {
        Some("add a matching `back_populates` on the target model"@)
    } else if code == "SQLA-W409"@ {
        Some("valid cascade values: all, save-update, merge, expunge, delete, delete-orphan"@)
    } else {
        None
    }
}

pub fn help_for_code(code: &str) -> (r: Option<&'static str>)
    ensures
        match r {
            Some(t) => help_text(code@) == Some(t@),
            None => help_text(code@).is_none(),
        },
{
    if str_eq(code, "SQLA-W101") {
        Some("add `__tablename__ = \"table_name\"` to the class body")
    } else if str_eq(code, "SQLA-W303") {
        Some("align the column type with the FK target, or change the target")
    } else if str_eq(code, "SQLA-W402") {
        Some("update `back_populates` to match the attribute name on the other side")
    } else if str_eq(code, "SQLA-W403") {
        Some("add a matching `back_populates` on the target model")
    } else if str_eq(code, "SQLA-W409") {
        Some("valid cascade values: all, save-update, merge, expunge, delete, delete-orphan")
    } else {
        None
    }
}

} // verus!
