//! Workspace symbols: each Alembic revision, found by its id or message.
use vstd::prelude::*;

use crate::alembic::{DownRevision, MigrationFile};
use crate::rename::{cat_map, lemma_cat_map_take};
use crate::state::WorkspaceState;
use crate::text::{contains, lowercase, str_contains, to_lowercase};
use crate::types::Range;

verus! {

/// One workspace symbol (always of the event kind).
#[derive(Debug, Clone)]
pub struct SymbolInfo {
    pub name: String,
    pub uri: String,
    pub range: Range,
    /// The single parent revision, if there is exactly one.
    pub container_name: Option<String>,
}

/// A symbol with its strings taken as characters.
pub struct SymbolV {
    pub name: Seq<char>,
    pub uri: Seq<char>,
    pub range: Range,
    pub container: Option<Seq<char>>,
}

impl View for SymbolInfo {
    type V = SymbolV;

    open spec fn view(&self) -> SymbolV {
        SymbolV {
            name: self.name@,
            uri: self.uri@,
            range: self.range,
            container: match self.container_name {
                Some(c) => Some(c@),
                None => None,
            },
        }
    }
}

pub open spec fn symviews(s: Seq<SymbolInfo>) -> Seq<SymbolV> {
    s.map_values(|x: SymbolInfo| x@)
}

pub open spec fn opt_view(o: Option<String>) -> Option<Seq<char>> {
    match o {
        Some(s) => Some(s@),
        None => None,
    }
}

/// `revision · message`, or the revision alone without a message.
pub open spec fn symbol_name_spec(revision: Seq<char>, message: Option<Seq<char>>) -> Seq<char> {
    match message {
        Some(m) => if m.len() > 0 {
            revision + " · "@ + m
        } else {
            revision
        },
        None => revision,
    }
}

/// An empty query takes every revision; otherwise the lower-cased query
/// must occur in the lower-cased id or message.
pub open spec fn query_matches(q: Seq<char>, revision: Seq<char>, message: Option<Seq<char>>) -> bool {
    q.len() == 0 || contains(lowercase(revision), q) || (match message {
        Some(m) => contains(lowercase(m), q),
        None => false,
    })
}

/// The symbol of one migration file, if it has a revision the query matches.
pub open spec fn file_symbol(q: Seq<char>, e: (String, MigrationFile)) -> Seq<SymbolV> {
    let mf = e.1;
    match mf.revision {
        None => Seq::empty(),
        Some(rev) => if query_matches(q, rev@, opt_view(mf.message)) {
            seq![
                SymbolV {
                    name: symbol_name_spec(rev@, opt_view(mf.message)),
                    uri: e.0@,
                    range: match mf.revision_range {
                        Some(r) => r,
                        None => Range { start_line: 0, start_col: 0, end_line: 0, end_col: 0 },
                    },
                    container: match mf.down_revision {
                        DownRevision::Single(s) => Some(s@),
                        _ => None,
                    },
                },
            ]
        } else {
            Seq::empty()
        },
    }
}

pub open spec fn file_symbol_f(q: Seq<char>) -> spec_fn((String, MigrationFile)) -> Seq<SymbolV> {
    |e: (String, MigrationFile)| file_symbol(q, e)
}

/// Build a symbol name from revision id and optional message.
fn symbol_name(revision: &str, message: Option<&str>) -> (r: String)
    ensures
        r@ == symbol_name_spec(
            revision@,
            match message {
                Some(m) => Some(m@),
                None => None,
            },
        ),
{
    match message {
        Some(msg) => {
            if msg.unicode_len() > 0 {
                proof {
                    vstd::string::axiom_str_literal_len(" · ");
                }
                crate::text::concat3(revision, " · ", msg)
            } else {
                crate::text::to_owned(revision)
            }
        },
        None => crate::text::to_owned(revision),
    }
}

/// The revisions of the workspace whose id or message contains the query
/// (case-insensitively), in index order.
pub fn provide_symbols(query: &str, state: &WorkspaceState) -> (r: Vec<SymbolInfo>)
    ensures
        symviews(r@) == cat_map(state.migration_files.seq(), file_symbol_f(lowercase(query@))),
{
    let q = to_lowercase(query);
    let ents = state.migration_files.entries();
    let ghost f = file_symbol_f(q@);
    let mut out: Vec<SymbolInfo> = Vec::new();
    let mut i: usize = 0;
    while i < ents.len()
        invariant
            i <= ents@.len(),
            ents@ == state.migration_files.seq(),
            q@ == lowercase(query@),
            f == file_symbol_f(q@),
            symviews(out@) == cat_map(ents@.take(i as int), f),
        decreases ents@.len() - i,
    {
        proof {
            lemma_cat_map_take(ents@, f, i as int);
        }
        let ghost before = symviews(out@);
        let e = &ents[i];
        let mf = &e.1;
        if let Some(rev) = &mf.revision {
            let msg: Option<&str> = match &mf.message {
                Some(m) => Some(m.as_str()),
                None => None,
            };
            let keep = if q.as_str().unicode_len() == 0 {
                true
            } else {
                let rl = to_lowercase(rev.as_str());
                let id_match = str_contains(rl.as_str(), q.as_str());
                let msg_match = match msg {
                    Some(m) => {
                        let ml = to_lowercase(m);
                        str_contains(ml.as_str(), q.as_str())
                    },
                    None => false,
                };
                id_match || msg_match
            };
            if keep {
                let range = match mf.revision_range {
                    Some(r) => r,
                    None => Range { start_line: 0, start_col: 0, end_line: 0, end_col: 0 },
                };
                let container = match &mf.down_revision {
                    DownRevision::Single(s) => Some(s.clone()),
                    _ => None,
                };
                out.push(
                    SymbolInfo {
                        name: symbol_name(rev.as_str(), msg),
                        uri: e.0.clone(),
                        range,
                        container_name: container,
                    },
                );
                assert(symviews(out@) =~= before + f(ents@[i as int]));
            } else {
                assert(f(ents@[i as int]) =~= Seq::<SymbolV>::empty());
                assert(symviews(out@) =~= before + f(ents@[i as int]));
            }
        } else {
            assert(f(ents@[i as int]) =~= Seq::<SymbolV>::empty());
            assert(symviews(out@) =~= before + f(ents@[i as int]));
        }
        i = i + 1;
    }
    assert(ents@.take(ents@.len() as int) =~= ents@);
    out
}


/// Every workspace symbol answered for a query names a revision whose id or
/// message contains the query (ignoring case), or the query is empty.
pub proof fn law_symbols_match_query(q: Seq<char>, e: (String, MigrationFile))
    requires
        file_symbol(q, e).len() > 0,
    ensures
        e.1.revision is Some,
        query_matches(q, e.1.revision->0@, opt_view(e.1.message)),
        file_symbol(q, e)[0].name == symbol_name_spec(e.1.revision->0@, opt_view(e.1.message)),
{
}

} // verus!
