//! The workspace index: per-file model and migration facts plus the reverse
//! indexes (model name, table name, revision id) every feature looks up.
use vstd::prelude::*;

use crate::alembic::MigrationFile;
use crate::diagnostics::LspDiagnostic;
use crate::strmap::StrMap;
use crate::syntax::SyntaxNode;
use crate::types::{Model, ModelLocation};

verus! {

/// The workspace index, keyed by file URI and by name.
#[derive(Debug)]
pub struct WorkspaceState {
    pub file_models: StrMap<Vec<Model>>,
    pub model_index: StrMap<ModelLocation>,
    pub table_index: StrMap<String>,
    pub file_sources: StrMap<String>,
    /// The syntax tree of each indexed file.
    pub parse_trees: StrMap<SyntaxNode>,
    pub migration_files: StrMap<MigrationFile>,
    pub revision_index: StrMap<String>,
    /// Published diagnostics per file.
    pub diagnostics: StrMap<Vec<LspDiagnostic>>,
    /// Files open in the editor, whose unsaved text overrides the disk.
    pub open_uris: StrMap<()>,
}

/// `m` with the names of `models` removed.
pub open spec fn remove_names(m: Map<Seq<char>, ModelLocation>, models: Seq<Model>) -> Map<
    Seq<char>,
    ModelLocation,
>
    decreases models.len(),
{
    if models.len() == 0 {
        m
    } else {
        remove_names(m, models.drop_last()).remove(models.last().name@)
    }
}

/// `t` with the table names of `models` removed.
pub open spec fn remove_tables(t: Map<Seq<char>, String>, models: Seq<Model>) -> Map<Seq<char>, String>
    decreases models.len(),
{
    if models.len() == 0 {
        t
    } else {
        let r = remove_tables(t, models.drop_last());
        match models.last().table_name {
            Some(name) => r.remove(name@),
            None => r,
        }
    }
}

/// `m` with each of `models` (in order) pointing at its location in `uri`.
pub open spec fn add_names(m: Map<Seq<char>, ModelLocation>, models: Seq<Model>, uri: String) -> Map<
    Seq<char>,
    ModelLocation,
>
    decreases models.len(),
{
    if models.len() == 0 {
        m
    } else {
        add_names(m, models.drop_last(), uri).insert(
            models.last().name@,
            ModelLocation {
                uri: uri,
                model_name: models.last().name,
                range: models.last().name_range,
            },
        )
    }
}

/// `t` with each of `models` that names a table (in order) owning it.
pub open spec fn add_tables(t: Map<Seq<char>, String>, models: Seq<Model>) -> Map<Seq<char>, String>
    decreases models.len(),
{
    if models.len() == 0 {
        t
    } else {
        let r = add_tables(t, models.drop_last());
        match models.last().table_name {
            Some(name) => r.insert(name@, models.last().name),
            None => r,
        }
    }
}

/// The models a file had indexed before, if any.
pub open spec fn old_models(fm: Map<Seq<char>, Vec<Model>>, uri: Seq<char>) -> Seq<Model> {
    if fm.contains_key(uri) {
        fm[uri]@
    } else {
        Seq::empty()
    }
}

impl WorkspaceState {
    /// An empty index.
    pub fn new() -> (s: Self)
        ensures
            s.file_models@ == Map::<Seq<char>, Vec<Model>>::empty(),
            s.model_index@ == Map::<Seq<char>, ModelLocation>::empty(),
            s.table_index@ == Map::<Seq<char>, String>::empty(),
            s.file_sources@ == Map::<Seq<char>, String>::empty(),
            s.parse_trees@ == Map::<Seq<char>, SyntaxNode>::empty(),
            s.migration_files@ == Map::<Seq<char>, MigrationFile>::empty(),
            s.revision_index@ == Map::<Seq<char>, String>::empty(),
            s.diagnostics@ == Map::<Seq<char>, Vec<LspDiagnostic>>::empty(),
            s.open_uris@ == Map::<Seq<char>, ()>::empty(),
    {
        WorkspaceState {
            file_models: StrMap::new(),
            model_index: StrMap::new(),
            table_index: StrMap::new(),
            file_sources: StrMap::new(),
            parse_trees: StrMap::new(),
            migration_files: StrMap::new(),
            revision_index: StrMap::new(),
            diagnostics: StrMap::new(),
            open_uris: StrMap::new(),
        }
    }

    /// Removes the reverse-index entries of a file's previous models.
    fn purge_models(&mut self, uri: &str)
        ensures
            final(self).model_index@ == remove_names(
                old(self).model_index@,
                old_models(old(self).file_models@, uri@),
            ),
            final(self).table_index@ == remove_tables(
                old(self).table_index@,
                old_models(old(self).file_models@, uri@),
            ),
            final(self).file_models@ == old(self).file_models@,
            final(self).file_sources@ == old(self).file_sources@,
            final(self).parse_trees@ == old(self).parse_trees@,
            final(self).migration_files@ == old(self).migration_files@,
            final(self).revision_index@ == old(self).revision_index@,
            final(self).diagnostics@ == old(self).diagnostics@,
            final(self).open_uris@ == old(self).open_uris@,
    {
        if let Some(prev) = self.file_models.get(uri) {
            let mut i: usize = 0;
            while i < prev.len()
                invariant
                    i <= prev@.len(),
                    prev@ == old_models(self.file_models@, uri@),
                    self.model_index@ == remove_names(
                        old(self).model_index@,
                        prev@.take(i as int),
                    ),
                    self.table_index@ == remove_tables(
                        old(self).table_index@,
                        prev@.take(i as int),
                    ),
                    self.file_models@ == old(self).file_models@,
                    self.file_sources@ == old(self).file_sources@,
                    self.parse_trees@ == old(self).parse_trees@,
                    self.migration_files@ == old(self).migration_files@,
                    self.revision_index@ == old(self).revision_index@,
                    self.diagnostics@ == old(self).diagnostics@,
                    self.open_uris@ == old(self).open_uris@,
                decreases prev@.len() - i,
            {
                proof {
                    assert(prev@.take(i + 1).drop_last() =~= prev@.take(i as int));
                }
                self.model_index.remove(prev[i].name.as_str());
                if let Some(table) = &prev[i].table_name {
                    self.table_index.remove(table.as_str());
                }
                i = i + 1;
            }
            assert(prev@.take(prev@.len() as int) =~= prev@);
        }
    }

    /// Replace a file's model facts atomically: purge old reverse-index entries,
    /// insert new ones, then swap the per-file record.
    pub fn update_file(&mut self, uri: &String, models: Vec<Model>)
        ensures
            final(self).model_index@ == add_names(
                remove_names(old(self).model_index@, old_models(old(self).file_models@, uri@)),
                models@,
                *uri,
            ),
            final(self).table_index@ == add_tables(
                remove_tables(old(self).table_index@, old_models(old(self).file_models@, uri@)),
                models@,
            ),
            final(self).file_models@ == old(self).file_models@.insert(uri@, models),
            final(self).file_sources@ == old(self).file_sources@,
            final(self).parse_trees@ == old(self).parse_trees@,
            final(self).migration_files@ == old(self).migration_files@,
            final(self).revision_index@ == old(self).revision_index@,
            final(self).diagnostics@ == old(self).diagnostics@,
            final(self).open_uris@ == old(self).open_uris@,
    {
        self.purge_models(uri.as_str());
        let ghost mi = self.model_index@;
        let ghost ti = self.table_index@;
        let u = uri.clone();
        let mut i: usize = 0;
        while i < models.len()
            invariant
                i <= models@.len(),
                u == *uri,
                self.model_index@ == add_names(mi, models@.take(i as int), u),
                self.table_index@ == add_tables(ti, models@.take(i as int)),
                self.file_models@ == old(self).file_models@,
                self.file_sources@ == old(self).file_sources@,
                self.parse_trees@ == old(self).parse_trees@,
                self.migration_files@ == old(self).migration_files@,
                self.revision_index@ == old(self).revision_index@,
                self.diagnostics@ == old(self).diagnostics@,
                self.open_uris@ == old(self).open_uris@,
            decreases models@.len() - i,
        {
            proof {
                assert(models@.take(i + 1).drop_last() =~= models@.take(i as int));
            }
            let loc = ModelLocation {
                uri: u.clone(),
                model_name: models[i].name.clone(),
                range: models[i].name_range,
            };
            self.model_index.insert(models[i].name.clone(), loc);
            if let Some(table) = &models[i].table_name {
                self.table_index.insert(table.clone(), models[i].name.clone());
            }
            i = i + 1;
        }
        assert(models@.take(models@.len() as int) =~= models@);
        self.file_models.insert(u, models);
    }

    /// Replace a file's migration facts atomically, keeping `revision_index` in sync.
    pub fn update_migration(&mut self, uri: &String, mf: MigrationFile)
        ensures
            final(self).revision_index@ == (if mf.revision.is_some() {
                old_revision_removed(old(self).revision_index@, old(self).migration_files@, uri@).insert(
                    mf.revision.unwrap()@,
                    *uri,
                )
            } else {
                old_revision_removed(old(self).revision_index@, old(self).migration_files@, uri@)
            }),
            final(self).migration_files@ == old(self).migration_files@.insert(uri@, mf),
            final(self).file_models@ == old(self).file_models@,
            final(self).model_index@ == old(self).model_index@,
            final(self).table_index@ == old(self).table_index@,
            final(self).file_sources@ == old(self).file_sources@,
            final(self).parse_trees@ == old(self).parse_trees@,
            final(self).diagnostics@ == old(self).diagnostics@,
            final(self).open_uris@ == old(self).open_uris@,
    {
        if let Some(prev) = self.migration_files.get(uri.as_str()) {
            if let Some(rev) = &prev.revision {
                self.revision_index.remove(rev.as_str());
            }
        }
        if let Some(rev) = &mf.revision {
            self.revision_index.insert(rev.clone(), uri.clone());
        }
        self.migration_files.insert(uri.clone(), mf);
    }

    /// Remove a file's facts from every map and clear its diagnostics entry.
    pub fn remove_file(&mut self, uri: &str)
        ensures
            final(self).file_models@ == old(self).file_models@.remove(uri@),
            final(self).model_index@ == remove_names(
                old(self).model_index@,
                old_models(old(self).file_models@, uri@),
            ),
            final(self).table_index@ == remove_tables(
                old(self).table_index@,
                old_models(old(self).file_models@, uri@),
            ),
            final(self).file_sources@ == old(self).file_sources@.remove(uri@),
            final(self).parse_trees@ == old(self).parse_trees@.remove(uri@),
            final(self).migration_files@ == old(self).migration_files@.remove(uri@),
            final(self).revision_index@ == old_revision_removed(
                old(self).revision_index@,
                old(self).migration_files@,
                uri@,
            ),
            final(self).diagnostics@ == old(self).diagnostics@.remove(uri@),
            final(self).open_uris@ == old(self).open_uris@,
    {
        self.purge_models(uri);
        self.file_models.remove(uri);
        self.file_sources.remove(uri);
        self.parse_trees.remove(uri);
        if let Some(mf) = self.migration_files.remove(uri) {
            if let Some(rev) = &mf.revision {
                self.revision_index.remove(rev.as_str());
            }
        }
        self.diagnostics.remove(uri);
    }
}

impl Default for WorkspaceState {
    fn default() -> (s: Self)
        ensures
            s.file_models@ == Map::<Seq<char>, Vec<Model>>::empty(),
            s.model_index@ == Map::<Seq<char>, ModelLocation>::empty(),
            s.table_index@ == Map::<Seq<char>, String>::empty(),
            s.file_sources@ == Map::<Seq<char>, String>::empty(),
            s.parse_trees@ == Map::<Seq<char>, SyntaxNode>::empty(),
            s.migration_files@ == Map::<Seq<char>, MigrationFile>::empty(),
            s.revision_index@ == Map::<Seq<char>, String>::empty(),
            s.diagnostics@ == Map::<Seq<char>, Vec<LspDiagnostic>>::empty(),
            s.open_uris@ == Map::<Seq<char>, ()>::empty(),
    {
        WorkspaceState::new()
    }
}

/// The revision index without the revision a file's previous migration had.
pub open spec fn old_revision_removed(
    ri: Map<Seq<char>, String>,
    mfs: Map<Seq<char>, MigrationFile>,
    uri: Seq<char>,
) -> Map<Seq<char>, String> {
    if mfs.contains_key(uri) && mfs[uri].revision.is_some() {
        ri.remove(mfs[uri].revision.unwrap()@)
    } else {
        ri
    }
}

/// The location `add_names` gives a model of file `uri`.
pub open spec fn loc_of(m: Model, uri: String) -> ModelLocation {
    ModelLocation { uri: uri, model_name: m.name, range: m.name_range }
}

/// After indexing `models`, a model no later model shadows is found by its name.
pub proof fn lemma_add_names_finds(
    m: Map<Seq<char>, ModelLocation>,
    models: Seq<Model>,
    uri: String,
    i: int,
)
    requires
        0 <= i < models.len(),
        forall|j: int| i < j < models.len() ==> models[j].name@ != models[i].name@,
    ensures
        add_names(m, models, uri).contains_key(models[i].name@),
        add_names(m, models, uri)[models[i].name@] == loc_of(models[i], uri),
    decreases models.len(),
{
    if i < models.len() - 1 {
        lemma_add_names_finds(m, models.drop_last(), uri, i);
    }
}

/// Indexing `models` only adds their names: any other key keeps its entry.
pub proof fn lemma_add_names_other(
    m: Map<Seq<char>, ModelLocation>,
    models: Seq<Model>,
    uri: String,
    k: Seq<char>,
)
    requires
        forall|j: int| 0 <= j < models.len() ==> models[j].name@ != k,
    ensures
        add_names(m, models, uri).contains_key(k) == m.contains_key(k),
        m.contains_key(k) ==> add_names(m, models, uri)[k] == m[k],
    decreases models.len(),
{
    if models.len() > 0 {
        lemma_add_names_other(m, models.drop_last(), uri, k);
    }
}

/// Purging `models` removes every one of their names.
pub proof fn lemma_remove_names_gone(m: Map<Seq<char>, ModelLocation>, models: Seq<Model>, i: int)
    requires
        0 <= i < models.len(),
    ensures
        !remove_names(m, models).contains_key(models[i].name@),
    decreases models.len(),
{
    if i < models.len() - 1 {
        lemma_remove_names_gone(m, models.drop_last(), i);
    }
}

/// After indexing `models`, a model that names a table and no later model
/// claims that table owns it.
pub proof fn lemma_add_tables_finds(t: Map<Seq<char>, String>, models: Seq<Model>, i: int)
    requires
        0 <= i < models.len(),
        models[i].table_name.is_some(),
        forall|j: int|
            i < j < models.len() && #[trigger] models[j].table_name.is_some() ==> models[j].table_name.unwrap()@
                != models[i].table_name.unwrap()@,
    ensures
        add_tables(t, models).contains_key(models[i].table_name.unwrap()@),
        add_tables(t, models)[models[i].table_name.unwrap()@] == models[i].name,
    decreases models.len(),
{
    if i < models.len() - 1 {
        lemma_add_tables_finds(t, models.drop_last(), i);
    }
}

/// Purging `models` removes every table they named.
pub proof fn lemma_remove_tables_gone(t: Map<Seq<char>, String>, models: Seq<Model>, i: int)
    requires
        0 <= i < models.len(),
        models[i].table_name.is_some(),
    ensures
        !remove_tables(t, models).contains_key(models[i].table_name.unwrap()@),
    decreases models.len(),
{
    if i < models.len() - 1 {
        lemma_remove_tables_gone(t, models.drop_last(), i);
    }
}

/// Law of `update_file`: every new model (not shadowed by a later one of
/// the same name) is indexed at the updated file, and a previous model of
/// the file whose name no new model reuses is gone from the index.
pub proof fn law_update_file_reindexes(
    before: Map<Seq<char>, ModelLocation>,
    old: Seq<Model>,
    models: Seq<Model>,
    uri: String,
)
    ensures
        forall|i: int|
            0 <= i < models.len() && (forall|j: int| i < j < models.len() ==> models[j].name@ != models[i].name@)
                ==> #[trigger] add_names(remove_names(before, old), models, uri).contains_key(models[i].name@)
                && add_names(remove_names(before, old), models, uri)[models[i].name@] == loc_of(
                models[i],
                uri,
            ),
        forall|i: int|
            0 <= i < old.len() && (forall|j: int| 0 <= j < models.len() ==> models[j].name@ != old[i].name@)
                ==> !#[trigger] add_names(remove_names(before, old), models, uri).contains_key(old[i].name@),
{
    assert forall|i: int|
        0 <= i < models.len() && (forall|j: int| i < j < models.len() ==> models[j].name@ != models[i].name@)
        implies #[trigger] add_names(remove_names(before, old), models, uri).contains_key(models[i].name@)
        && add_names(remove_names(before, old), models, uri)[models[i].name@] == loc_of(models[i], uri) by {
        lemma_add_names_finds(remove_names(before, old), models, uri, i);
    }
    assert forall|i: int|
        0 <= i < old.len() && (forall|j: int| 0 <= j < models.len() ==> models[j].name@ != old[i].name@)
        implies !#[trigger] add_names(remove_names(before, old), models, uri).contains_key(old[i].name@) by {
        lemma_remove_names_gone(before, old, i);
        lemma_add_names_other(remove_names(before, old), models, uri, old[i].name@);
    }
}


/// Law of `remove_file`: once a file is removed, none of its models' names
/// nor their tables resolve through the indexes, and its migration's
/// revision is gone.
pub proof fn law_remove_file_forgets(st: WorkspaceState, uri: Seq<char>, i: int)
    requires
        0 <= i < old_models(st.file_models@, uri).len(),
    ensures
        !remove_names(st.model_index@, old_models(st.file_models@, uri)).contains_key(
            old_models(st.file_models@, uri)[i].name@,
        ),
        old_models(st.file_models@, uri)[i].table_name.is_some() ==> !remove_tables(
            st.table_index@,
            old_models(st.file_models@, uri),
        ).contains_key(old_models(st.file_models@, uri)[i].table_name.unwrap()@),
        st.migration_files@.contains_key(uri) && st.migration_files@[uri].revision.is_some() ==> !old_revision_removed(
            st.revision_index@,
            st.migration_files@,
            uri,
        ).contains_key(st.migration_files@[uri].revision.unwrap()@),
{
    lemma_remove_names_gone(st.model_index@, old_models(st.file_models@, uri), i);
    if old_models(st.file_models@, uri)[i].table_name.is_some() {
        lemma_remove_tables_gone(st.table_index@, old_models(st.file_models@, uri), i);
    }
}

} // verus!
