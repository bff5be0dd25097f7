//! The server's decisions on editor and file-system events: which files a
//! workspace scan reads, what a watched-file event does, which text a save
//! indexes, whether a scheduled relink is still current, and what a pull
//! for diagnostics answers.
use vstd::prelude::*;

use crate::diagnostics::{copy_diags, LspDiagnostic};
use crate::state::WorkspaceState;
use crate::text::{rfind, rfind_exec, starts_with, str_eq, str_starts_with, to_chars};

verus! {

/// A directory a workspace scan skips: hidden ones, Python caches and
/// `node_modules`.
pub open spec fn skipped_dir(name: Seq<char>) -> bool {
    starts_with(name, "."@) || name == "__pycache__"@ || name == "node_modules"@
}

pub fn skip_dir(name: &str) -> (r: bool)
    ensures
        r == skipped_dir(name@),
{
    str_starts_with(name, ".") || str_eq(name, "__pycache__") || str_eq(name, "node_modules")
}

/// A file name whose extension is `py`: the part after its last dot, when
/// that dot is not its first character.
pub open spec fn python_file(name: Seq<char>) -> bool {
    let k = rfind(name, "."@);
    k > 0 && name.skip(k + 1) == "py"@
}

pub fn is_python_file(name: &str) -> (r: bool)
    ensures
        r == python_file(name@),
{
    let cs = to_chars(name);
    let dot = to_chars(".");
    match rfind_exec(cs.as_slice(), dot.as_slice()) {
        Some(k) => {
            if k == 0 {
                return false;
            }
            proof {
                reveal_strlit(".");
                crate::text::lemma_last_upto_props(cs@, dot@, cs@.len() - dot@.len());
                assert(dot@ == "."@);
                assert(dot@.len() == 1);
                assert(crate::text::occurs_at(cs@, dot@, k as int));
                assert(k < cs@.len());
            }
            assert(k < cs.len());
            let k1: usize = k + 1;
            let ext = crate::text::slice_vec(cs.as_slice(), k1, cs.len());
            assert(ext@ =~= cs@.skip(k + 1));
            crate::text::chars_eq(ext.as_slice(), to_chars("py").as_slice())
        },
        None => false,
    }
}

/// A change the file watcher reports.
#[derive(Debug, Clone, Copy, PartialEq, Eq, Structural)]
pub enum FileEvent {
    Created,
    Changed,
    Deleted,
}

/// What the server does on a watched-file event.
#[derive(Debug, Clone, Copy, PartialEq, Eq, Structural)]
pub enum WatchAction {
    /// The file is open in the editor, whose buffer takes precedence.
    Ignore,
    /// Read the file from disk and index it.
    Reindex,
    /// Drop the file's facts and publish no diagnostics for it.
    Remove,
}

pub open spec fn watch_action_spec(open: bool, ev: FileEvent) -> WatchAction {
    if open {
        WatchAction::Ignore
    } else if ev == FileEvent::Deleted {
        WatchAction::Remove
    } else {
        WatchAction::Reindex
    }
}

pub fn watch_action(state: &WorkspaceState, uri: &str, ev: FileEvent) -> (r: WatchAction)
    ensures
        r == watch_action_spec(state.open_uris@.contains_key(uri@), ev),
{
    if state.open_uris.contains_key(uri) {
        WatchAction::Ignore
    } else if ev == FileEvent::Deleted {
        WatchAction::Remove
    } else {
        WatchAction::Reindex
    }
}

/// The text a save indexes: the text sent with it, else the stored source.
pub fn save_source(text: Option<String>, state: &WorkspaceState, uri: &str) -> (r: Option<String>)
    ensures
        match text {
            Some(t) => r == Some(t),
            None => if state.file_sources@.contains_key(uri@) {
                r is Some && r->0@ == state.file_sources@[uri@]@
            } else {
                r is None
            },
        },
{
    match text {
        Some(t) => Some(t),
        None => match state.file_sources.get(uri) {
            Some(s) => Some(s.clone()),
            None => None,
        },
    }
}

/// A scheduled relink runs only if no change came after it was scheduled.
pub fn relink_is_current(generation: u64, target: u64) -> (r: bool)
    ensures
        r == (generation == target),
{
    generation == target
}

/// What a pull for a file's diagnostics answers: the stored ones, or none.
pub fn pull_diagnostics(state: &WorkspaceState, uri: &str) -> (r: Vec<LspDiagnostic>)
    ensures
        r@ == (if state.diagnostics@.contains_key(uri@) {
            state.diagnostics@[uri@]@
        } else {
            Seq::empty()
        }),
{
    match state.diagnostics.get(uri) {
        Some(d) => copy_diags(d),
        None => Vec::new(),
    }
}

/// UTF-8 positions are used when the client offers them.
pub fn negotiate_utf8(encodings: &Vec<String>) -> (r: bool)
    ensures
        r == exists|i: int| 0 <= i < encodings@.len() && #[trigger] encodings@[i]@ == "utf-8"@,
{
    let mut i: usize = 0;
    while i < encodings.len()
        invariant
            i <= encodings@.len(),
            forall|k: int| 0 <= k < i ==> #[trigger] encodings@[k]@ != "utf-8"@,
        decreases encodings@.len() - i,
    {
        if str_eq(encodings[i].as_str(), "utf-8") {
            return true;
        }
        i = i + 1;
    }
    false
}

} // verus!
