//! Configuration layers and their merge, diagnostic-code class tokens, and
//! `# noqa` suppression markers.
use vstd::prelude::*;
use vstd::utf8::encode_utf8;

use crate::diagnostics::{dviews, LspDiagnostic};
use crate::strmap::{key_index, map_of, StrMap};
use crate::text::{
    chars_eq, contains, find, find_exec, from_chars, is_ws, lemma_find_props, lines, lines_exec, occurs_at, split, trim, trim_end,
    slice_vec, split_trim_nonempty, split_trim_nonempty_exec, starts_with, starts_with_exec,
    str_contains, str_eq, to_chars, to_owned, trim_start, trim_start_char, trim_start_exec,
};
use crate::types::{join, views, Severity};

verus! {

// ── Raw config types ─────────────────────────────────────────────────────────

/// The preset selection used when none is given.
pub fn default_select() -> (v: Vec<String>)
    ensures
        views(v@) == seq!["recommended"@],
{
    let mut v: Vec<String> = Vec::new();
    v.push(to_owned("recommended"));
    assert(views(v@) =~= seq!["recommended"@]);
    v
}

/// The `[diagnostics]` table.
#[derive(Clone, Debug)]
pub struct DiagnosticsConfig {
    pub select: Vec<String>,
    pub ignore: Vec<String>,
    pub severity: StrMap<String>,
}

impl Default for DiagnosticsConfig {
    fn default() -> (r: Self)
        ensures
            views(r.select@) == seq!["recommended"@],
            r.ignore@.len() == 0,
            r.severity@ == Map::<Seq<char>, String>::empty(),
    {
        DiagnosticsConfig { select: default_select(), ignore: Vec::new(), severity: StrMap::new() }
    }
}

/// One configuration layer.
#[derive(Clone, Debug)]
pub struct Config {
    pub model_paths: Vec<String>,
    pub alembic_path: Option<String>,
    pub target_dialect: Option<String>,
    pub diagnostics: DiagnosticsConfig,
    pub log_level: Option<String>,
    pub log_file: Option<String>,
}

impl Default for Config {
    fn default() -> (r: Self)
        ensures
            r.model_paths@.len() == 0,
            r.alembic_path.is_none(),
            r.target_dialect.is_none(),
            r.log_level.is_none(),
            r.log_file.is_none(),
            views(r.diagnostics.select@) == seq!["recommended"@],
            r.diagnostics.ignore@.len() == 0,
            r.diagnostics.severity@ == Map::<Seq<char>, String>::empty(),
    {
        Config {
            model_paths: Vec::new(),
            alembic_path: None,
            target_dialect: None,
            diagnostics: DiagnosticsConfig::default(),
            log_level: None,
            log_file: None,
        }
    }
}

/// The overlay's value when it has one, else the base's.
pub open spec fn pick(base: Option<String>, overlay: Option<String>) -> Option<String> {
    if overlay.is_some() {
        overlay
    } else {
        base
    }
}

impl Config {
    /// Merge two layers with per-key precedence: `overlay` wins per scalar key,
    /// list keys accumulate, map keys merge (overlay wins per entry); `select`
    /// is replaced only when the overlay's differs from the default.
    pub fn merge(self, overlay: Config) -> (r: Config)
        ensures
            r.alembic_path == pick(self.alembic_path, overlay.alembic_path),
            r.target_dialect == pick(self.target_dialect, overlay.target_dialect),
            r.log_level == pick(self.log_level, overlay.log_level),
            r.log_file == pick(self.log_file, overlay.log_file),
            r.model_paths@ == self.model_paths@ + overlay.model_paths@,
            views(overlay.diagnostics.select@) != seq!["recommended"@] ==> r.diagnostics.select
                == overlay.diagnostics.select,
            views(overlay.diagnostics.select@) == seq!["recommended"@] ==> r.diagnostics.select
                == self.diagnostics.select,
            r.diagnostics.ignore@ == self.diagnostics.ignore@ + overlay.diagnostics.ignore@,
            r.diagnostics.severity@ == self.diagnostics.severity@.union_prefer_right(
                overlay.diagnostics.severity@,
            ),
    {
        let mut base = self;
        let mut overlay = overlay;
        if overlay.alembic_path.is_some() {
            base.alembic_path = overlay.alembic_path;
        }
        if overlay.target_dialect.is_some() {
            base.target_dialect = overlay.target_dialect;
        }
        if overlay.log_level.is_some() {
            base.log_level = overlay.log_level;
        }
        if overlay.log_file.is_some() {
            base.log_file = overlay.log_file;
        }
        base.model_paths.append(&mut overlay.model_paths);
        let default = default_select();
        if !strings_eq(&overlay.diagnostics.select, &default) {
            base.diagnostics.select = overlay.diagnostics.select;
        }
        base.diagnostics.ignore.append(&mut overlay.diagnostics.ignore);
        let ghost start = base.diagnostics.severity@;
        let ghost b0 = base;
        let entries = overlay.diagnostics.severity.entries();
        let ghost s = entries@;
        let mut i: usize = 0;
        while i < entries.len()
            invariant
                i <= entries@.len(),
                base.alembic_path == b0.alembic_path,
                base.target_dialect == b0.target_dialect,
                base.log_level == b0.log_level,
                base.log_file == b0.log_file,
                base.model_paths == b0.model_paths,
                base.diagnostics.select == b0.diagnostics.select,
                base.diagnostics.ignore == b0.diagnostics.ignore,
                s == entries@,
                base.diagnostics.severity@ == start.union_prefer_right(map_of(s.take(i as int))),
            decreases entries@.len() - i,
        {
            let k = entries[i].0.clone();
            let v = entries[i].1.clone();
            base.diagnostics.severity.insert(k, v);
            proof {
                assert(s.take(i + 1).drop_last() =~= s.take(i as int));
                assert(base.diagnostics.severity@ =~= start.union_prefer_right(
                    map_of(s.take(i + 1)),
                ));
            }
            i = i + 1;
        }
        proof {
            assert(s.take(i as int) =~= s);
            overlay.diagnostics.severity.lemma_seq();
        }
        base
    }
}

/// Whether two string lists hold the same strings in the same order.
pub fn strings_eq(a: &Vec<String>, b: &Vec<String>) -> (r: bool)
    ensures
        r == (views(a@) == views(b@)),
{
    if a.len() != b.len() {
        return false;
    }
    let mut i: usize = 0;
    while i < a.len()
        invariant
            a@.len() == b@.len(),
            i <= a@.len(),
            forall|j: int| 0 <= j < i ==> a@[j]@ == b@[j]@,
        decreases a@.len() - i,
    {
        if !str_eq(a[i].as_str(), b[i].as_str()) {
            assert(views(a@)[i as int] != views(b@)[i as int]);
            return false;
        }
        i = i + 1;
    }
    assert(views(a@) =~= views(b@));
    true
}

// ── Code parsing ─────────────────────────────────────────────────────────────

/// Length in bytes of the UTF-8 encoding (`str::len`).
pub open spec fn byte_len(s: Seq<char>) -> nat {
    encode_utf8(s).len()
}

/// Whether `code` (`SQLA-<SEV><digit><NN>`) belongs to the class `token`
/// names (`SQLA-<digit>xx`): the code's class digit is the token's.
pub open spec fn class_token_match(code: Seq<char>, token: Seq<char>) -> bool {
    let pre = "SQLA-"@;
    let code_rest = code.skip(5);
    let tok_rest = token.skip(5);
    &&& starts_with(code, pre)
    &&& starts_with(token, pre)
    &&& byte_len(tok_rest) == 3
    &&& ends_with_xx(tok_rest)
    &&& byte_len(code_rest) == 4
    &&& tok_rest.len() >= 1
    &&& code_rest.len() >= 2
    &&& tok_rest[0] == code_rest[1]
}

/// `s` ends with `xx`.
pub open spec fn ends_with_xx(s: Seq<char>) -> bool {
    crate::text::ends_with(s, "xx"@)
}

/// Whether the UTF-8 encoding of `s` is `k` bytes long.
fn byte_len_is(s: &[char], k: usize) -> (r: bool)
    ensures
        r == (byte_len(s@) == k),
{
    proof {
        crate::text::lemma_encode_len(s@);
    }
    crate::text::utf8_width_is(s, k)
}

/// Returns `true` if `code` belongs to the group identified by `token`
/// (e.g. `"SQLA-W303"` matches `"SQLA-3xx"`).
pub fn code_matches_class_token(code: &str, token: &str) -> (r: bool)
    ensures
        r == class_token_match(code@, token@),
{
    proof {
        reveal_strlit("SQLA-");
    }
    let c = to_chars(code);
    let t = to_chars(token);
    let pre = to_chars("SQLA-");
    if !starts_with_exec(c.as_slice(), pre.as_slice()) || !starts_with_exec(t.as_slice(), pre.as_slice()) {
        return false;
    }
    let code_rest = slice_vec(c.as_slice(), 5, c.len());
    let tok_rest = slice_vec(t.as_slice(), 5, t.len());
    assert(code_rest@ == code@.skip(5));
    assert(tok_rest@ == token@.skip(5));
    if !byte_len_is(code_rest.as_slice(), 4) || code_rest.len() < 2 {
        return false;
    }
    let xx = to_chars("xx");
    byte_len_is(tok_rest.as_slice(), 3) && crate::text::ends_with_exec(tok_rest.as_slice(), xx.as_slice())
        && tok_rest.len() >= 1 && tok_rest[0] == code_rest[1]
}

// ── Noqa suppression ─────────────────────────────────────────────────────────

/// An inline `# noqa` marker parsed from a source line.
#[derive(Clone, Debug)]
pub enum NoqaMarker {
    /// `# noqa` — suppresses all SQLA findings on this line.
    Bare,
    /// `# noqa: file` — suppresses all SQLA findings in the whole file.
    File,
    /// `# noqa: SQLA-W303, SQLA-W402` — suppresses only the listed codes.
    Codes(Vec<String>),
}

/// What a marker denotes, codes taken as characters.
pub enum NoqaView {
    Bare,
    File,
    Codes(Seq<Seq<char>>),
}

impl View for NoqaMarker {
    type V = NoqaView;

    open spec fn view(&self) -> NoqaView {
        match self {
            NoqaMarker::Bare => NoqaView::Bare,
            NoqaMarker::File => NoqaView::File,
            NoqaMarker::Codes(c) => NoqaView::Codes(views(c@)),
        }
    }
}

/// The marker a source line carries, if any.
pub open spec fn noqa_of(line: Seq<char>) -> Option<NoqaView> {
    let idx = find(line, "# noqa"@);
    let after = trim_start_char(line.skip(idx + 6), ' ');
    let rest = trim_start(after.drop_first());
    let codes = split_trim_nonempty(rest, ',');
    if idx < 0 {
        None
    } else if after.len() == 0 || after[0] == '\n' || after[0] == '\r' {
        Some(NoqaView::Bare)
    } else if after[0] != ':' {
        None
    } else if rest == "file"@ {
        Some(NoqaView::File)
    } else if codes.len() == 0 {
        None
    } else {
        Some(NoqaView::Codes(codes))
    }
}

/// Whether a marker suppresses `code`: bare and file markers suppress the
/// `SQLA-` namespace only; a code list suppresses exactly its codes.
pub open spec fn noqa_suppresses_code(m: NoqaView, code: Seq<char>) -> bool {
    match m {
        NoqaView::Bare => starts_with(code, "SQLA-"@),
        NoqaView::File => starts_with(code, "SQLA-"@),
        NoqaView::Codes(codes) => codes.contains(code),
    }
}

impl NoqaMarker {
    /// Parse a source line for a `# noqa` marker.
    pub fn parse(line: &str) -> (r: Option<Self>)
        ensures
            match r {
                Some(m) => noqa_of(line@) == Some(m@),
                None => noqa_of(line@).is_none(),
            },
    {
        let cs = to_chars(line);
        let pat = to_chars("# noqa");
        let idx = match find_exec(cs.as_slice(), pat.as_slice()) {
            Some(i) => i,
            None => return None,
        };
        proof {
            lemma_find_props(cs@, pat@);
            reveal_strlit("# noqa");
        }
        let n = cs.len();
        let tail = slice_vec(cs.as_slice(), idx + 6, n);
        assert(tail@ == line@.skip(idx + 6));
        let after = trim_start_spaces(tail.as_slice());
        if after.len() == 0 || after[0] == '\n' || after[0] == '\r' {
            return Some(NoqaMarker::Bare);
        }
        if after[0] != ':' {
            return None;
        }
        let m = after.len();
        let colon_rest = slice_vec(after.as_slice(), 1, m);
        assert(colon_rest@ == after@.drop_first());
        let rest = trim_start_exec(colon_rest.as_slice());
        let file = to_chars("file");
        if chars_eq(rest.as_slice(), file.as_slice()) {
            return Some(NoqaMarker::File);
        }
        let pieces = split_trim_nonempty_exec(rest.as_slice(), ',');
        if pieces.len() == 0 {
            return None;
        }
        let mut codes: Vec<String> = Vec::new();
        let mut i: usize = 0;
        while i < pieces.len()
            invariant
                i <= pieces@.len(),
                codes@.len() == i,
                forall|k: int| 0 <= k < i ==> #[trigger] codes@[k]@ == pieces@[k]@,
            decreases pieces@.len() - i,
        {
            codes.push(from_chars(pieces[i].as_slice()));
            i = i + 1;
        }
        assert(views(codes@) =~= split_trim_nonempty(rest@, ','));
        Some(NoqaMarker::Codes(codes))
    }

    /// Returns `true` if this marker suppresses `code`.
    pub fn suppresses(&self, code: &str) -> (r: bool)
        ensures
            r == noqa_suppresses_code(self@, code@),
    {
        match self {
            NoqaMarker::Bare | NoqaMarker::File => crate::text::str_starts_with(code, "SQLA-"),
            NoqaMarker::Codes(codes) => {
                assert(self@ == NoqaView::Codes(views(codes@)));
                let mut i: usize = 0;
                while i < codes.len()
                    invariant
                        i <= codes@.len(),
                        self@ == NoqaView::Codes(views(codes@)),
                        forall|j: int| 0 <= j < i ==> codes@[j]@ != code@,
                    decreases codes@.len() - i,
                {
                    if str_eq(codes[i].as_str(), code) {
                        assert(views(codes@)[i as int] == code@);
                        assert(views(codes@).contains(code@));
                        return true;
                    }
                    i = i + 1;
                }
                assert(!views(codes@).contains(code@)) by {
                    if views(codes@).contains(code@) {
                        let k = choose|k: int|
                            0 <= k < views(codes@).len() && views(codes@)[k] == code@;
                        assert(codes@[k]@ == code@);
                    }
                }
                false
            },
        }
    }
}

pub proof fn lemma_trim_start_char_skip_spaces(s: Seq<char>, i: int)
    requires
        0 <= i <= s.len(),
        forall|j: int| 0 <= j < i ==> s[j] == ' ',
    ensures
        trim_start_char(s, ' ') == trim_start_char(s.skip(i), ' '),
{
    crate::text::lemma_trim_start_char_skip(s, ' ', i);
}

/// Leading spaces removed (`trim_start_matches(' ')`).
fn trim_start_spaces(s: &[char]) -> (r: Vec<char>)
    ensures
        r@ == trim_start_char(s@, ' '),
{
    let mut i: usize = 0;
    while i < s.len() && s[i] == ' '
        invariant
            i <= s@.len(),
            forall|j: int| 0 <= j < i ==> s@[j] == ' ',
        decreases s@.len() - i,
    {
        i = i + 1;
    }
    proof {
        lemma_trim_start_char_skip_spaces(s@, i as int);
        if i < s@.len() {
            assert(s@.skip(i as int)[0] == s@[i as int]);
        }
    }
    let r = slice_vec(s, i, s.len());
    assert(r@ == s@.skip(i as int));
    r
}

// ── Diagnostic filtering ─────────────────────────────────────────────────────

/// Whether a code is ignored by an `ignore` list: exact codes or class tokens.
pub open spec fn ignored(ignore: Seq<Seq<char>>, code: Seq<char>) -> bool {
    exists|i: int| 0 <= i < ignore.len() && (ignore[i] == code || class_token_match(code, ignore[i]))
}

/// Whether `code` is ignored by the configured list.
fn is_ignored(ignore: &Vec<String>, code: &str) -> (r: bool)
    ensures
        r == ignored(views(ignore@), code@),
{
    let mut i: usize = 0;
    while i < ignore.len()
        invariant
            i <= ignore@.len(),
            forall|j: int|
                0 <= j < i ==> !(ignore@[j]@ == code@ || class_token_match(code@, ignore@[j]@)),
        decreases ignore@.len() - i,
    {
        if str_eq(ignore[i].as_str(), code) || code_matches_class_token(code, ignore[i].as_str()) {
            assert(views(ignore@)[i as int] == ignore@[i as int]@);
            return true;
        }
        i = i + 1;
    }
    assert(!ignored(views(ignore@), code@)) by {
        if ignored(views(ignore@), code@) {
            let k = choose|k: int|
                0 <= k < views(ignore@).len() && (views(ignore@)[k] == code@ || class_token_match(
                    code@,
                    views(ignore@)[k],
                ));
            assert(views(ignore@)[k] == ignore@[k]@);
        }
    }
    false
}

/// The diagnostics an ignore list keeps, in order.
pub open spec fn kept_by_ignore(diags: Seq<LspDiagnostic>, ignore: Seq<Seq<char>>) -> Seq<LspDiagnostic> {
    diags.filter(|d: LspDiagnostic| !ignored(ignore, d.code@))
}

/// The severity a `[diagnostics.severity]` value names, if any.
pub open spec fn severity_named(n: Seq<char>) -> Option<Severity> {
    if n == "error"@ {
        Some(Severity::Error)
    } else if n == "warning"@ {
        Some(Severity::Warning)
    } else if n == "info"@ || n == "information"@ {
        Some(Severity::Info)
    } else if n == "hint"@ {
        Some(Severity::Hint)
    } else {
        None
    }
}

/// The severity named by a configured value.
pub fn parse_severity(n: &str) -> (r: Option<Severity>)
    ensures
        r == severity_named(n@),
{
    if str_eq(n, "error") {
        Some(Severity::Error)
    } else if str_eq(n, "warning") {
        Some(Severity::Warning)
    } else if str_eq(n, "info") || str_eq(n, "information") {
        Some(Severity::Info)
    } else if str_eq(n, "hint") {
        Some(Severity::Hint)
    } else {
        None
    }
}

/// A diagnostic with the severity the configuration gives its code, where
/// it names one.
pub open spec fn with_severity(d: LspDiagnostic, sev: Map<Seq<char>, String>) -> LspDiagnostic {
    if sev.contains_key(d.code@) && severity_named(sev[d.code@]@) is Some {
        LspDiagnostic { severity: severity_named(sev[d.code@]@)->0, ..d }
    } else {
        d
    }
}

/// What the configuration lets through: the diagnostics no `ignore` entry
/// matches, in order, each with its code's configured severity.
pub open spec fn filtered(diags: Seq<LspDiagnostic>, c: DiagnosticsConfig) -> Seq<LspDiagnostic> {
    kept_by_ignore(diags, views(c.ignore@)).map_values(|d: LspDiagnostic| with_severity(d, c.severity@))
}

/// Remove diagnostics whose code matches any entry in `diag_config.ignore`
/// (exact codes such as `"SQLA-W303"`, or class tokens such as `"SQLA-3xx"`),
/// and give each remaining one the severity `diag_config.severity` sets for
/// its code.
pub fn filter_diagnostics(diags: Vec<LspDiagnostic>, diag_config: &DiagnosticsConfig) -> (r: Vec<
    LspDiagnostic,
>)
    ensures
        r@ == filtered(diags@, *diag_config),
{
    let ghost pred = |d: LspDiagnostic| !ignored(views(diag_config.ignore@), d.code@);
    let ghost f = |d: LspDiagnostic| with_severity(d, diag_config.severity@);
    let mut out: Vec<LspDiagnostic> = Vec::new();
    let ghost all = diags@;
    for d in it: diags
        invariant
            it.seq() == all,
            out@ == all.take(it.index() as int).filter(pred).map_values(f),
            pred == (|d: LspDiagnostic| !ignored(views(diag_config.ignore@), d.code@)),
            f == (|d: LspDiagnostic| with_severity(d, diag_config.severity@)),
    {
        proof {
            let i = it.index() as int;
            assert(all.take(i + 1) =~= all.take(i).push(all[i]));
            all.take(i).lemma_filter_push(all[i], pred);
        }
        if !is_ignored(&diag_config.ignore, d.code.as_str()) {
            let mut d = d;
            let ghost d0 = d;
            match diag_config.severity.get(d.code.as_str()) {
                Some(v) => match parse_severity(v.as_str()) {
                    Some(sv) => {
                        d.severity = sv;
                    },
                    None => {},
                },
                None => {},
            }
            proof {
                assert(d == f(d0));
            }
            let ghost before = out@;
            out.push(d);
            proof {
                let i = it.index() as int;
                assert(all.take(i + 1).filter(pred) == all.take(i).filter(pred).push(d0));
                assert(all.take(i + 1).filter(pred).map_values(f) =~= before.push(d));
            }
        } else {
            proof {
                let i = it.index() as int;
                assert(all.take(i + 1).filter(pred) == all.take(i).filter(pred));
            }
        }
    }
    assert(all.take(all.len() as int) =~= all);
    out
}

/// Whether some line of the file carries `# noqa: file`.
pub open spec fn has_file_marker(ls: Seq<Seq<char>>) -> bool {
    exists|i: int| 0 <= i < ls.len() && noqa_of(ls[i]) == Some(NoqaView::File)
}

/// Whether the `# noqa` markers of a file's lines `ls` suppress `code` on
/// line `l` (0-based): a `# noqa: file` marker anywhere covers what a file
/// marker covers, and the marker on line `l` covers what it covers.
pub open spec fn noqa_suppresses_at(ls: Seq<Seq<char>>, l: int, code: Seq<char>) -> bool {
    ||| has_file_marker(ls) && noqa_suppresses_code(NoqaView::File, code)
    ||| 0 <= l < ls.len() && noqa_of(ls[l]).is_some() && noqa_suppresses_code(noqa_of(ls[l]).unwrap(), code)
}

/// Whether the markers of the file suppress the diagnostic.
pub open spec fn noqa_drops(ls: Seq<Seq<char>>, d: LspDiagnostic) -> bool {
    noqa_suppresses_at(ls, d.range.start_line as int, d.code@)
}

/// The diagnostics that survive the `# noqa` markers of `source`.
pub open spec fn noqa_kept(diags: Seq<LspDiagnostic>, source: Seq<char>) -> Seq<LspDiagnostic> {
    if !contains(source, "# noqa"@) {
        diags
    } else {
        diags.filter(|d: LspDiagnostic| !noqa_drops(lines(source), d))
    }
}

/// The markers of a file, line by line, as parsed by `NoqaMarker::parse`.
pub open spec fn markers_of(ms: Seq<Option<NoqaMarker>>, ls: Seq<Seq<char>>) -> bool {
    &&& ms.len() == ls.len()
    &&& forall|k: int|
        0 <= k < ms.len() ==> match #[trigger] ms[k] {
            Some(m) => noqa_of(ls[k]) == Some(m@),
            None => noqa_of(ls[k]).is_none(),
        }
}

/// The marker of each line of `source`, and whether any is a file marker.
pub fn line_markers(source: &str) -> (r: (Vec<Option<NoqaMarker>>, bool))
    ensures
        markers_of(r.0@, lines(source@)),
        r.1 == has_file_marker(lines(source@)),
{
    let ls = lines_exec(source);
    let ghost lv = lines(source@);
    let mut markers: Vec<Option<NoqaMarker>> = Vec::new();
    let mut file = false;
    let mut j: usize = 0;
    while j < ls.len()
        invariant
            j <= ls@.len(),
            lv == lines(source@),
            ls@.len() == lv.len(),
            forall|k: int| 0 <= k < ls@.len() ==> #[trigger] ls@[k]@ == lv[k],
            markers_of(markers@, lv.take(j as int)),
            file == exists|k: int| 0 <= k < j && noqa_of(lv[k]) == Some(NoqaView::File),
        decreases ls@.len() - j,
    {
        let line = from_chars(ls[j].as_slice());
        assert(line@ == lv[j as int]);
        let m = NoqaMarker::parse(line.as_str());
        if let Some(NoqaMarker::File) = m {
            file = true;
        }
        proof {
            if noqa_of(lv[j as int]) == Some(NoqaView::File) {
                assert(m matches Some(NoqaMarker::File));
            }
        }
        markers.push(m);
        j = j + 1;
    }
    assert(lv.take(ls@.len() as int) =~= lv);
    (markers, file)
}

/// Whether the parsed markers suppress `code` on line `l`.
pub(crate) fn suppressed_at(
    markers: &Vec<Option<NoqaMarker>>,
    file: bool,
    l: usize,
    code: &str,
    Ghost(ls): Ghost<Seq<Seq<char>>>,
) -> (r: bool)
    requires
        markers_of(markers@, ls),
        file == has_file_marker(ls),
    ensures
        r == noqa_suppresses_at(ls, l as int, code@),
{
    proof {
        reveal_strlit("SQLA-");
    }
    if file && crate::text::str_starts_with(code, "SQLA-") {
        return true;
    }
    if l < markers.len() {
        match &markers[l] {
            Some(m) => m.suppresses(code),
            None => false,
        }
    } else {
        false
    }
}

/// Remove diagnostics suppressed by `# noqa` comments in `source`.
pub fn apply_noqa_to_diagnostics(diags: Vec<LspDiagnostic>, source: &str) -> (r: Vec<LspDiagnostic>)
    ensures
        r@ == noqa_kept(diags@, source@),
{
    if !str_contains(source, "# noqa") {
        return diags;
    }
    let (markers, file) = line_markers(source);
    let ghost lv = lines(source@);
    let ghost pred = |d: LspDiagnostic| !noqa_drops(lv, d);
    let mut out: Vec<LspDiagnostic> = Vec::new();
    let ghost all = diags@;
    for d in it: diags
        invariant
            it.seq() == all,
            out@ == all.take(it.index() as int).filter(pred),
            pred == (|d: LspDiagnostic| !noqa_drops(lv, d)),
            markers_of(markers@, lv),
            file == has_file_marker(lv),
    {
        proof {
            let i = it.index() as int;
            assert(all.take(i + 1) =~= all.take(i).push(all[i]));
            all.take(i).lemma_filter_push(all[i], pred);
        }
        let l = d.range.start_line as usize;
        if !suppressed_at(&markers, file, l, d.code.as_str(), Ghost(lv)) {
            out.push(d);
        }
    }
    assert(all.take(all.len() as int) =~= all);
    out
}


/// A code the configuration ignores is never reported: every diagnostic
/// that survives the filter has a code no `ignore` entry matches.
pub proof fn law_ignored_codes_never_reported(diags: Seq<LspDiagnostic>, c: DiagnosticsConfig, i: int)
    requires
        0 <= i < filtered(diags, c).len(),
    ensures
        !ignored(views(c.ignore@), filtered(diags, c)[i].code@),
{
    diags.lemma_filter_pred(|d: LspDiagnostic| !ignored(views(c.ignore@), d.code@), i);
}

/// A configured severity override is applied: every surviving diagnostic
/// whose code has a valid `[diagnostics.severity]` entry carries that
/// severity, and the rest keep theirs.
pub proof fn law_severity_override_applied(diags: Seq<LspDiagnostic>, c: DiagnosticsConfig, i: int)
    requires
        0 <= i < filtered(diags, c).len(),
    ensures
        filtered(diags, c)[i].code@ == kept_by_ignore(diags, views(c.ignore@))[i].code@,
        c.severity@.contains_key(filtered(diags, c)[i].code@) && severity_named(
            c.severity@[filtered(diags, c)[i].code@]@,
        ) is Some ==> filtered(diags, c)[i].severity == severity_named(
            c.severity@[filtered(diags, c)[i].code@]@,
        )->0,
        !(c.severity@.contains_key(filtered(diags, c)[i].code@) && severity_named(
            c.severity@[filtered(diags, c)[i].code@]@,
        ) is Some) ==> filtered(diags, c)[i].severity == kept_by_ignore(diags, views(c.ignore@))[i].severity,
{
}

/// A `# noqa: file` marker anywhere in a file suppresses every `SQLA-*`
/// finding: none survives.
pub proof fn law_file_marker_suppresses_all(diags: Seq<LspDiagnostic>, source: Seq<char>, i: int)
    requires
        contains(source, "# noqa"@),
        has_file_marker(lines(source)),
        0 <= i < noqa_kept(diags, source).len(),
    ensures
        !starts_with(noqa_kept(diags, source)[i].code@, "SQLA-"@),
{
    diags.lemma_filter_pred(|d: LspDiagnostic| !noqa_drops(lines(source), d), i);
}

/// In a file with markers, no finding on a line whose marker suppresses
/// its code is reported.
pub proof fn law_noqa_line_suppresses(diags: Seq<LspDiagnostic>, source: Seq<char>, i: int)
    requires
        contains(source, "# noqa"@),
        0 <= i < noqa_kept(diags, source).len(),
    ensures
        !noqa_drops(lines(source), noqa_kept(diags, source)[i]),
{
    diags.lemma_filter_pred(|d: LspDiagnostic| !noqa_drops(lines(source), d), i);
}

/// A file without any `# noqa` keeps every finding.
pub proof fn law_no_marker_keeps_all(diags: Seq<LspDiagnostic>, source: Seq<char>)
    requires
        !contains(source, "# noqa"@),
    ensures
        noqa_kept(diags, source) == diags,
{
}

// ── Writing a code list and reading it back ─────────────────────────────────

/// An item of a comma-separated list (a code in a `# noqa:` comment, an
/// argument of a column type): not empty, no comma, no whitespace at either
/// end.
pub open spec fn plain_code(c: Seq<char>) -> bool {
    &&& c.len() > 0
    &&& !is_ws(c[0])
    &&& !is_ws(c.last())
    &&& forall|j: int| 0 <= j < c.len() ==> c[j] != ','
}

pub(crate) proof fn lemma_join_cons(cs: Seq<Seq<char>>, sep: Seq<char>)
    requires
        cs.len() >= 2,
    ensures
        join(cs, sep) == cs[0] + sep + join(cs.drop_first(), sep),
    decreases cs.len(),
{
    if cs.len() == 2 {
        assert(cs.drop_first() =~= seq![cs[1]]);
        assert(join(cs.drop_last(), sep) == cs[0]);
    } else {
        lemma_join_cons(cs.drop_last(), sep);
        assert(cs.drop_last().drop_first() =~= cs.drop_first().drop_last());
        assert(cs.drop_first().last() == cs.last());
        assert(join(cs, sep) =~= cs[0] + sep + join(cs.drop_first(), sep));
    }
}

/// Where the first `c` of `a + [c] + b` is, when `a` holds none.
pub(crate) proof fn lemma_find_char_at(a: Seq<char>, c: char, b: Seq<char>)
    requires
        forall|j: int| 0 <= j < a.len() ==> a[j] != c,
    ensures
        find(a + seq![c] + b, seq![c]) == a.len(),
{
    let s = a + seq![c] + b;
    let pat = seq![c];
    assert(occurs_at(s, pat, a.len() as int)) by {
        assert(s.subrange(a.len() as int, a.len() + 1int) =~= pat);
    }
    lemma_find_props(s, pat);
    let f = find(s, pat);
    if f != a.len() {
        if 0 <= f < a.len() {
            assert(s.subrange(f, f + 1)[0] == s[f]);
        } else {
            assert(contains(s, pat));
        }
    }
}

pub(crate) proof fn lemma_find_char_none(a: Seq<char>, c: char)
    requires
        forall|j: int| 0 <= j < a.len() ==> a[j] != c,
    ensures
        find(a, seq![c]) == -1,
{
    lemma_find_props(a, seq![c]);
    let f = find(a, seq![c]);
    if f >= 0 {
        assert(a.subrange(f, f + 1)[0] == a[f]);
    }
}

pub(crate) proof fn lemma_join_no_comma(cs: Seq<Seq<char>>)
    requires
        forall|i: int| 0 <= i < cs.len() ==> plain_code(#[trigger] cs[i]),
        cs.len() >= 1,
    ensures
        cs.len() == 1 ==> join(cs, ", "@) == cs[0],
        join(cs, ", "@).len() > 0,
        join(cs, ", "@)[0] == cs[0][0],
        join(cs, ", "@).last() == cs.last().last(),
        cs.len() >= 2 ==> join(cs, ", "@).contains(','),
{
    reveal_strlit(", ");
    if cs.len() >= 2 {
        lemma_join_cons(cs, ", "@);
        let j = join(cs, ", "@);
        assert(plain_code(cs[0]));
        assert(j[cs[0].len() as int] == ',');
    } else {
        assert(plain_code(cs[0]));
    }
}

/// Splitting a joined list at its commas gives its codes, each after the
/// first led by the space the join put there.
pub(crate) proof fn lemma_split_join(cs: Seq<Seq<char>>, lead: Seq<char>)
    requires
        cs.len() >= 1,
        forall|i: int| 0 <= i < cs.len() ==> plain_code(#[trigger] cs[i]),
        forall|j: int| 0 <= j < lead.len() ==> lead[j] != ',',
    ensures
        split(lead + join(cs, ", "@), ',') == Seq::new(
            cs.len(),
            |i: int| if i == 0 { lead + cs[0] } else { " "@ + cs[i] },
        ),
    decreases cs.len(),
{
    reveal_strlit(", ");
    reveal_strlit(" ");
    let want = Seq::new(cs.len(), |i: int| if i == 0 { lead + cs[0] } else { " "@ + cs[i] });
    assert(plain_code(cs[0]));
    if cs.len() == 1 {
        let s = lead + cs[0];
        assert(join(cs, ", "@) == cs[0]);
        lemma_find_char_none(s, ',');
        assert(split(s, ',') =~= want);
    } else {
        lemma_join_cons(cs, ", "@);
        let tail = cs.drop_first();
        let a = lead + cs[0];
        let b = " "@ + join(tail, ", "@);
        let s = lead + join(cs, ", "@);
        assert(s =~= a + seq![','] + b);
        lemma_find_char_at(a, ',', b);
        assert(s.take(a.len() as int) =~= a);
        assert(s.skip(a.len() + 1int) =~= b);
        assert forall|i: int| 0 <= i < tail.len() implies plain_code(#[trigger] tail[i]) by {
            assert(tail[i] == cs[i + 1]);
        }
        lemma_split_join(tail, " "@);
        assert(split(s, ',') =~= want);
    }
}

pub(crate) proof fn lemma_trim_plain(lead: Seq<char>, c: Seq<char>)
    requires
        plain_code(c),
        lead == Seq::<char>::empty() || lead == " "@,
    ensures
        trim(lead + c) == c,
{
    reveal_strlit(" ");
    let s = lead + c;
    if lead.len() == 1 {
        assert(s.drop_first() =~= c);
        assert(is_ws(s[0]));
    } else {
        assert(s =~= c);
    }
    assert(trim_start(c) == c);
    assert(trim_end(c) == c);
}

pub(crate) proof fn lemma_filter_all(s: Seq<Seq<char>>)
    requires
        forall|i: int| 0 <= i < s.len() ==> (#[trigger] s[i]).len() > 0,
    ensures
        s.filter(|p: Seq<char>| p.len() > 0) == s,
    decreases s.len(),
{
    let f = |p: Seq<char>| p.len() > 0;
    if s.len() > 0 {
        let d = s.drop_last();
        assert forall|i: int| 0 <= i < d.len() implies (#[trigger] d[i]).len() > 0 by {
            assert(d[i] == s[i]);
        }
        lemma_filter_all(d);
        d.lemma_filter_push(s.last(), f);
        assert(d.push(s.last()) =~= s);
    } else {
        assert(s.filter(f) =~= s);
    }
}

/// Writing codes into a `# noqa:` comment and reading the line back gives
/// the same codes: for text `p` without a marker and a non-empty list of
/// plain codes (other than the single word `file`), the line
/// `p# noqa: c1, c2, ...` carries the marker for exactly those codes.
pub proof fn law_noqa_codes_round_trip(p: Seq<char>, cs: Seq<Seq<char>>)
    requires
        !contains(p, "# noqa"@),
        cs.len() >= 1,
        forall|i: int| 0 <= i < cs.len() ==> plain_code(#[trigger] cs[i]),
        cs != seq!["file"@],
    ensures
        noqa_of(p + "# noqa: "@ + join(cs, ", "@)) == Some(NoqaView::Codes(cs)),
{
    reveal_strlit("# noqa: ");
    reveal_strlit("# noqa");
    reveal_strlit("file");
    reveal_strlit(" ");
    let pat = "# noqa"@;
    let j = join(cs, ", "@);
    let line = p + "# noqa: "@ + j;
    let n = p.len() as int;
    assert(occurs_at(line, pat, n)) by {
        assert(line.subrange(n, n + 6) =~= pat);
    }
    lemma_find_props(line, pat);
    let f = find(line, pat);
    if f != n {
        if 0 <= f < n {
            if f + 6 <= n {
                assert(line.subrange(f, f + 6) =~= p.subrange(f, f + 6));
                assert(occurs_at(p, pat, f));
                assert(contains(p, pat));
            } else {
                let k = n - f;
                assert(line.subrange(f, f + 6)[k] == line[n]);
                assert(line[n] == '#');
                assert(pat[k] != '#');
            }
        } else {
            assert(contains(line, pat));
        }
    }
    assert(f == n);
    let tail = line.skip(n + 6);
    assert(tail =~= ":"@ + " "@ + j) by {
        reveal_strlit(":");
    }
    reveal_strlit(":");
    assert(trim_start_char(tail, ' ') == tail);
    lemma_join_no_comma(cs);
    assert(tail.drop_first() =~= " "@ + j);
    assert(trim_start(" "@ + j) == trim_start(j)) by {
        assert((" "@ + j).drop_first() =~= j);
        assert(is_ws((" "@ + j)[0]));
    }
    assert(plain_code(cs[0]));
    assert(trim_start(j) == j);
    let rest = trim_start(tail.drop_first());
    assert(rest == j);
    if rest == "file"@ {
        if cs.len() == 1 {
            assert(cs =~= seq!["file"@]);
        } else {
            let k = choose|k: int| 0 <= k < j.len() && j[k] == ',';
            assert("file"@[k] == ',');
        }
    }
    lemma_split_join(cs, Seq::<char>::empty());
    assert(Seq::<char>::empty() + j =~= j);
    let parts = split(j, ',');
    let trimmed = parts.map_values(|q: Seq<char>| trim(q));
    assert forall|i: int| 0 <= i < cs.len() implies #[trigger] trimmed[i] == cs[i] by {
        assert(plain_code(cs[i]));
        if i == 0 {
            lemma_trim_plain(Seq::<char>::empty(), cs[0]);
        } else {
            lemma_trim_plain(" "@, cs[i]);
        }
    }
    assert(trimmed =~= cs);
    assert forall|i: int| 0 <= i < cs.len() implies (#[trigger] cs[i]).len() > 0 by {
        assert(plain_code(cs[i]));
    }
    lemma_filter_all(cs);
}

} // verus!
