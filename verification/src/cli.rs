//! The command-line surface: the arguments of each subcommand, the checks
//! made on them before any work, and the exit status.
use vstd::prelude::*;

use crate::check::{is_valid_filter_token, valid_filter_token};
use crate::format::Reporter;

verus! {

/// Arguments of `check`.
#[derive(Debug, Clone)]
pub struct CheckArgs {
    /// Files or directories to check (default: current directory).
    pub paths: Vec<String>,
    /// Codes, class tokens (`SQLA-3xx`) or presets to enable.
    pub select: Vec<String>,
    /// Codes, class tokens or presets to disable.
    pub ignore: Vec<String>,
    pub reporter: Reporter,
    /// Apply safe fixes to disk.
    pub fix: bool,
    /// Also apply unsafe fixes (needs `fix`).
    pub apply_unsafe: bool,
    /// Exit 0 even when findings remain.
    pub exit_zero: bool,
}

/// Arguments of `schema`.
#[derive(Debug, Clone)]
pub struct SchemaArgs {
    pub paths: Vec<String>,
}

/// Arguments of `stats`.
#[derive(Debug, Clone)]
pub struct StatsArgs {
    pub paths: Vec<String>,
    /// `text` or `json`.
    pub format: String,
}

/// Why `check` refuses its arguments (exit status 2).
#[derive(Debug, Clone, PartialEq, Eq)]
pub enum UsageError {
    /// `--unsafe` without `--fix`.
    UnsafeWithoutFix,
    /// A `--select` or `--ignore` token that names no code, class or preset.
    UnknownToken(String),
}

/// The select tokens, then the ignore tokens.
pub open spec fn filter_tokens(args: CheckArgs) -> Seq<Seq<char>> {
    args.select@.map_values(|s: String| s@) + args.ignore@.map_values(|s: String| s@)
}

/// The first invalid token, if any.
pub open spec fn first_invalid(toks: Seq<Seq<char>>, i: int) -> Option<Seq<char>>
    decreases toks.len() - i,
{
    if i < 0 || i >= toks.len() {
        None
    } else if !valid_filter_token(toks[i]) {
        Some(toks[i])
    } else {
        first_invalid(toks, i + 1)
    }
}

/// Validate `check`'s arguments before any work: `--unsafe` needs `--fix`,
/// then every token must be valid (the first bad one is reported).
pub fn validate_check_args(args: &CheckArgs) -> (r: Result<(), UsageError>)
    ensures
        args.apply_unsafe && !args.fix ==> r == Err::<(), UsageError>(UsageError::UnsafeWithoutFix),
        !(args.apply_unsafe && !args.fix) ==> match first_invalid(filter_tokens(*args), 0) {
            None => r is Ok,
            Some(t) => r matches Err(UsageError::UnknownToken(s)) && s@ == t,
        },
{
    if args.apply_unsafe && !args.fix {
        return Err(UsageError::UnsafeWithoutFix);
    }
    let ghost toks = filter_tokens(*args);
    let ghost ns = args.select@.len();
    let mut i: usize = 0;
    while i < args.select.len()
        invariant
            i <= args.select@.len(),
            toks == filter_tokens(*args),
            !(args.apply_unsafe && !args.fix),
            ns == args.select@.len(),
            first_invalid(toks, 0) == first_invalid(toks, i as int),
        decreases args.select@.len() - i,
    {
        assert(toks[i as int] == args.select@[i as int]@);
        if !is_valid_filter_token(args.select[i].as_str()) {
            return Err(UsageError::UnknownToken(args.select[i].clone()));
        }
        i = i + 1;
    }
    let mut j: usize = 0;
    while j < args.ignore.len()
        invariant
            j <= args.ignore@.len(),
            toks == filter_tokens(*args),
            !(args.apply_unsafe && !args.fix),
            ns == args.select@.len(),
            first_invalid(toks, 0) == first_invalid(toks, ns + j),
        decreases args.ignore@.len() - j,
    {
        assert(toks[ns + j] == args.ignore@[j as int]@);
        if !is_valid_filter_token(args.ignore[j].as_str()) {
            return Err(UsageError::UnknownToken(args.ignore[j].clone()));
        }
        j = j + 1;
    }
    Ok(())
}

/// The exit status of a `check` run: 0 when asked to, or when nothing
/// remains; 1 otherwise.
pub fn check_exit_code(exit_zero: bool, remaining: usize) -> (r: i32)
    ensures
        r == (if exit_zero || remaining == 0 {
            0i32
        } else {
            1i32
        }),
{
    if exit_zero || remaining == 0 {
        0
    } else {
        1
    }
}

} // verus!
