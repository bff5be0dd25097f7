//! Terminal colours for the linter's text reporters, drawn by `owo_colors`.
use owo_colors::OwoColorize;
use vstd::prelude::*;

verus! {

/// The ANSI select-graphic-rendition sequence with parameter `p`.
pub open spec fn sgr(p: Seq<char>) -> Seq<char> {
    "\x1b["@ + p + "m"@
}

/// Text in a foreground colour: the colour's code, the text, the default
/// foreground (`\x1b[39m`).
pub open spec fn fg(p: Seq<char>, s: Seq<char>) -> Seq<char> {
    sgr(p) + s + sgr("39"@)
}

/// Text in a style (bold `1`, dimmed `2`), then a full reset (`\x1b[0m`).
pub open spec fn styled(p: Seq<char>, s: Seq<char>) -> Seq<char> {
    sgr(p) + s + sgr("0"@)
}

/// `owo_colors::OwoColorize::red`, displayed: the red foreground code 31
/// around the text.
#[verifier::external_body]
pub(crate) fn red(s: &str) -> (r: String)
    ensures
        r@ == fg("31"@, s@),
{
    s.red().to_string()
}

/// `owo_colors::OwoColorize::yellow`, displayed: code 33 around the text.
#[verifier::external_body]
pub(crate) fn yellow(s: &str) -> (r: String)
    ensures
        r@ == fg("33"@, s@),
{
    s.yellow().to_string()
}

/// `owo_colors::OwoColorize::blue`, displayed: code 34 around the text.
#[verifier::external_body]
pub(crate) fn blue(s: &str) -> (r: String)
    ensures
        r@ == fg("34"@, s@),
{
    s.blue().to_string()
}

/// `owo_colors::OwoColorize::white`, displayed: code 37 around the text.
#[verifier::external_body]
pub(crate) fn white(s: &str) -> (r: String)
    ensures
        r@ == fg("37"@, s@),
{
    s.white().to_string()
}

/// `owo_colors::OwoColorize::bold`, displayed: `\x1b[1m`, the text, `\x1b[0m`.
#[verifier::external_body]
pub(crate) fn bold(s: &str) -> (r: String)
    ensures
        r@ == styled("1"@, s@),
{
    s.bold().to_string()
}

/// `owo_colors::OwoColorize::dimmed`, displayed: `\x1b[2m`, the text, `\x1b[0m`.
#[verifier::external_body]
pub(crate) fn dimmed(s: &str) -> (r: String)
    ensures
        r@ == styled("2"@, s@),
{
    s.dimmed().to_string()
}

} // verus!
