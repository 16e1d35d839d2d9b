use vstd::prelude::*;

use crate::config::{texts, Config};
use crate::error::StoreError;
use crate::import::{import_edits, pair_texts};
use crate::laws::matches_config;
use crate::model::Catalog;
use crate::plan::names;
use crate::sqlite::is_alphanumeric;
use crate::store::{reconciled, stores_all, Database, ReconcileWarning, FOLDER_NAME_LEN};

verus! {

/// The live configuration and the store, held for the life of the process.
pub struct AppState {
    config: Option<Config>,
    db: Database,
}

/// `a` and `b` are the same configuration.
pub open spec fn same_config(a: Config, b: Config) -> bool {
    &&& a.folder_view() == b.folder_view()
    &&& a.save_date_view() == b.save_date_view()
    &&& a.category_views() == b.category_views()
    &&& a.tag_texts() == b.tag_texts()
}

impl AppState {
    pub closed spec fn config_view(&self) -> Option<Config> {
        self.config
    }

    pub closed spec fn db_view(&self) -> Database {
        self.db
    }

    pub fn new(config: Option<Config>, db: Database) -> (r: AppState)
        ensures
            r.config_view() == config,
            r.db_view() == db,
    {
        AppState { config, db }
    }

    pub fn config(&self) -> (r: &Option<Config>)
        ensures
            *r == self.config_view(),
    {
        &self.config
    }

    pub fn database(&self) -> (r: &Database)
        ensures
            *r == self.db_view(),
    {
        &self.db
    }

    /// The current configuration, after bringing the store in line with it,
    /// with that reconciliation's warnings. Fails when there is no
    /// configuration yet or the store is not open, and then changes nothing.
    pub fn load_config(&mut self) -> (r: Result<(Config, Vec<ReconcileWarning>), StoreError>)
        ensures
            final(self).config_view() == old(self).config_view(),
            final(self).db_view().initialized() == old(self).db_view().initialized(),
            old(self).config_view() is None ==> r == Err::<(Config, Vec<ReconcileWarning>), StoreError>(
                StoreError::NoConfigYet,
            ) && *final(self) == *old(self),
            old(self).config_view() is Some && !old(self).db_view().initialized() ==> r == Err::<
                (Config, Vec<ReconcileWarning>),
                StoreError,
            >(StoreError::NotInitialized) && *final(self) == *old(self),
            r is Ok <==> old(self).config_view() is Some && old(self).db_view().initialized(),
            r matches Ok((c, ws)) ==> old(self).config_view() matches Some(cur) && same_config(c, cur)
                && reconciled(old(self).db_view().model(), final(self).db_view().model(), &cur, ws@)
                && (ws.len() == 0 && names(cur.category_views()).no_duplicates() ==> matches_config(
                final(self).db_view().model(),
                &cur,
            )),
    {
        match &self.config {
            Some(config) => match self.db.check_config_consistency(config) {
                Ok(ws) => Ok((config.copy(), ws)),
                Err(e) => Err(e),
            },
            None => Err(StoreError::NoConfigYet),
        }
    }

    /// Opens the store at `db_path` if it is not open yet, brings it in line
    /// with `config`, and makes `config` the current configuration. When the
    /// store cannot be opened nothing changes.
    pub fn store_config(&mut self, config: Config, db_path: &str) -> (r: Result<Vec<ReconcileWarning>, StoreError>)
        ensures
            r is Ok ==> final(self).config_view() == Some(config) && final(self).db_view().initialized(),
            r matches Ok(ws) ==> exists|before: Catalog|
                #[trigger] reconciled(before, final(self).db_view().model(), &config, ws@) && (old(
                self,
            ).db_view().initialized() ==> before == old(self).db_view().model()),
            r matches Ok(ws) ==> (ws.len() == 0 && names(config.category_views()).no_duplicates()
                ==> matches_config(final(self).db_view().model(), &config)),
            r matches Err(e) ==> e is StoreUnavailable && *final(self) == *old(self),
            old(self).db_view().initialized() ==> r is Ok,
    {
        if !self.db.is_initialized() {
            self.db.open(db_path)?;
        }
        let ghost before = self.db.model();
        let ghost cg = config;
        let warnings = match self.db.check_config_consistency(&config) {
            Ok(w) => w,
            Err(e) => return Err(e),
        };
        self.config = Some(config);
        assert(reconciled(before, self.db_view().model(), &cg, warnings@));
        Ok(warnings)
    }

    /// Where an imported file goes: the managed storage root and a fresh
    /// folder name under it that no stored file uses.
    pub fn import_target(&self) -> (r: Result<(String, String), StoreError>)
        ensures
            self.config_view() is None ==> r == Err::<(String, String), StoreError>(StoreError::NoConfigYet),
            r matches Err(StoreError::NoConfigYet) ==> self.config_view() is None,
            r matches Err(StoreError::NotInitialized) ==> !self.db_view().initialized(),
            r matches Ok((root, folder)) ==> self.config_view() matches Some(c) && root@ == c.folder_view()
                && folder@.len() == FOLDER_NAME_LEN && (forall|i: int| 0 <= i < folder@.len() ==> is_alphanumeric(
                #[trigger] folder@[i])) && !self.db_view().model().files.contains_key(folder@),
    {
        match &self.config {
            Some(config) => {
                let folder = self.db.fresh_folder()?;
                Ok((config.folder().clone(), folder))
            },
            None => Err(StoreError::NoConfigYet),
        }
    }

    /// Registers a file that was copied into `folder` under its own name
    /// `name`, with its chosen tags and (category, value) pairs. Fails with
    /// `NoConfigYet`, changing nothing, when there is no configuration.
    pub fn import(&mut self, folder: &String, name: &String, tags: &Vec<String>, values: &Vec<(String, String)>) -> (r: Result<(), StoreError>)
        ensures
            final(self).config_view() == old(self).config_view(),
            old(self).config_view() is None ==> r == Err::<(), StoreError>(StoreError::NoConfigYet) && *final(self) == *old(self),
            final(self).db_view().initialized() == old(self).db_view().initialized(),
            r matches Err(e) ==> e is NoConfigYet || e is NotInitialized || e is ReferenceNotFound || e is DuplicateKey || e is Failed,
            r matches Err(StoreError::NoConfigYet) ==> old(self).config_view() is None,
            r matches Err(StoreError::NotInitialized) ==> !old(self).db_view().initialized(),
            !old(self).db_view().initialized() ==> r is Err && final(self).db_view().model() == old(self).db_view().model(),
            r is Ok ==> final(self).db_view().model() == old(self).db_view().model().apply_all(
                import_edits(folder@, name@, texts(tags@), pair_texts(values@)),
            ),
            r is Err ==> exists|k: int| 0 <= k <= import_edits(folder@, name@, texts(tags@), pair_texts(values@)).len()
                && final(self).db_view().model() == old(self).db_view().model().apply_all(
                import_edits(folder@, name@, texts(tags@), pair_texts(values@)).take(k),
            ),
            r matches Err(StoreError::ReferenceNotFound(_)) ==> final(self).db_view().model() == old(self).db_view().model()
                && !stores_all(old(self).db_view().model(), texts(tags@), pair_texts(values@)),
            !stores_all(old(self).db_view().model(), texts(tags@), pair_texts(values@))
                ==> r is Err && final(self).db_view().model() == old(self).db_view().model(),
    {
        if self.config.is_none() {
            proof {
                assert(import_edits(folder@, name@, texts(tags@), pair_texts(values@)).take(0) =~= Seq::empty());
            }
            return Err(StoreError::NoConfigYet);
        }
        self.db.register_file(folder, name, tags, values)
    }
}

} // verus!
