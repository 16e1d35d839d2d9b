use vstd::prelude::*;

use crate::config::{texts, Category, Config};
use crate::error::StoreError;
use crate::import::{import_edits, import_plan, pair_texts, References};
use crate::laws::{
    additive_safety_skipping, cascade, convergence, keeps_all, lemma_category_edits_sanctioned,
    lemma_skip_none, lemma_skip_take, lemma_skip_within, lemma_skip_wf, lemma_tag_edits_sanctioned,
    matches_config, plan_empty_when_converged, plan_sanctioned, reflects, sanctioned_frame,
    tags_converge, value_dropped,
};
use crate::model::{Catalog, Edit, Text};
use crate::plan::{
    category_sanctioned, contains_text, edits, names, reconcile_edits,
    reconcile_plan, tag_sanctioned, values_at, Change, StoreReads,
};
use crate::sqlite::{
    catalog, create_tables, stored_category_ids, is_alphanumeric, open_file, open_memory, random_alphanumeric,
    sql_associate_tag, sql_associate_value, sql_categories, sql_delete_category, sql_delete_tag,
    sql_delete_value, sql_file_tags, sql_file_values, sql_files, sql_has_file, sql_insert_category,
    sql_insert_file, sql_insert_tag, sql_insert_value, sql_tags, sql_value_pairs, sql_values,
    store_error,
};

verus! {

/// Length of the generated storage folder names.
pub const FOLDER_NAME_LEN: usize = 7;

/// How many generated folder names are tried before giving up.
pub const FOLDER_NAME_TRIES: usize = 16;

/// A stored category row.
#[derive(Debug)]
pub struct CategoryEntry {
    pub id: u32,
    pub name: String,
}

impl PartialEq for CategoryEntry {
    fn eq(&self, other: &Self) -> (r: bool)
        ensures
            r == (self.id == other.id && self.name@ == other.name@),
    {
        self.id == other.id && self.name == other.name
    }
}

impl vstd::std_specs::cmp::PartialEqSpecImpl for CategoryEntry {
    open spec fn obeys_eq_spec() -> bool {
        true
    }

    open spec fn eq_spec(&self, other: &CategoryEntry) -> bool {
        self.id == other.id && self.name@ == other.name@
    }
}

pub open spec fn entry_names(es: Seq<CategoryEntry>) -> Seq<Text> {
    es.map_values(|e: CategoryEntry| e.name@)
}

/// A read of a reconciliation that failed, or a write that the store refused,
/// with its position among the planned changes.
#[derive(Debug)]
pub enum ReconcileWarning {
    ReadFailed(StoreError),
    WriteFailed(usize, Change, StoreError),
}

impl ReconcileWarning {
    /// A failed read, or a refused write that `config` calls for.
    pub open spec fn concerns(&self, config: &Config) -> bool {
        match self {
            ReconcileWarning::ReadFailed(_) => true,
            ReconcileWarning::WriteFailed(_, c, _) => tag_sanctioned(c@, config.tag_texts())
                || category_sanctioned(c@, config.category_views()),
        }
    }

    pub open spec fn index(&self) -> int {
        match self {
            ReconcileWarning::ReadFailed(_) => -1,
            ReconcileWarning::WriteFailed(k, _, _) => *k as int,
        }
    }
}

/// The positions of the refused writes.
pub open spec fn refused(ws: Seq<ReconcileWarning>) -> Set<int> {
    Set::new(|k: int| exists|i: int| 0 <= i < ws.len() && ws[i] is WriteFailed && #[trigger] ws[i].index() == k)
}

/// `ws` reports refused writes among `es`, each with its position and
/// write, in the order they were made.
pub open spec fn reports(ws: Seq<ReconcileWarning>, es: Seq<Edit>) -> bool {
    &&& forall|i: int| 0 <= i < ws.len() ==> (#[trigger] ws[i] matches ReconcileWarning::WriteFailed(k, c, _)
        && k < es.len() && c@ == es[k as int])
    &&& forall|i: int, j: int| 0 <= i < j < ws.len() ==> #[trigger] ws[i].index() < #[trigger] ws[j].index()
}

/// A reconciliation against `config` took the store from `before` to `after`
/// with the warnings `ws`: either its reads failed and nothing was written,
/// or it planned the writes from what the store held and every write not
/// reported in `ws` took effect.
pub open spec fn reconciled(before: Catalog, after: Catalog, config: &Config, ws: Seq<ReconcileWarning>) -> bool {
    ||| ws.len() == 1 && ws[0] is ReadFailed && after == before
    ||| exists|reads: StoreReads| #[trigger] reflects(before, &reads, config) && {
        let es = reconcile_edits(&reads, config);
        reports(ws, es) && after == before.apply_skipping(es, refused(ws))
            && refusals_reported(before, es, refused(ws), es.len() as int)
    }
}

/// A write needs a row that `m` lacks: the category of a value, or the file
/// and the tag or value of a link.
pub open spec fn needs_missing(m: Catalog, e: Edit) -> bool {
    match e {
        Edit::InsertValue(c, _) => !m.categories.contains_key(c),
        Edit::AssociateTag(p, t) => !(m.files.contains_key(p) && m.tags.contains(t)),
        Edit::AssociateValue(p, c, v) => !(m.files.contains_key(p) && m.categories.contains_key(c)
            && m.categories[c].contains(v)),
        _ => false,
    }
}

/// A write that the store refuses on `m`: an insert of a row that is stored
/// already, a value under a missing category, or a link to a missing row.
pub open spec fn must_refuse(m: Catalog, e: Edit) -> bool {
    match e {
        Edit::InsertTag(t) => m.tags.contains(t),
        Edit::InsertCategory(c) => m.categories.contains_key(c),
        Edit::InsertValue(c, v) => !m.categories.contains_key(c) || m.categories[c].contains(v),
        Edit::InsertFile(p, _) => m.files.contains_key(p),
        _ => needs_missing(m, e),
    }
}

/// Every write among `es`, applied from `m` with those in `skip` refused,
/// that the store had to refuse is in `skip`.
pub open spec fn refusals_reported(m: Catalog, es: Seq<Edit>, skip: Set<int>, upto: int) -> bool {
    forall|k: int| 0 <= k < upto && #[trigger] must_refuse(m.apply_skipping(es.take(k), skip), es[k])
        ==> skip.contains(k)
}

/// `m` holds every tag of `tags` and every (category, value) pair of `values`.
pub open spec fn stores_all(m: Catalog, tags: Seq<Text>, values: Seq<(Text, Text)>) -> bool {
    &&& forall|i: int| 0 <= i < tags.len() ==> m.tags.contains(#[trigger] tags[i])
    &&& forall|i: int| 0 <= i < values.len() ==> m.categories.contains_key(#[trigger] values[i].0)
        && m.categories[values[i].0].contains(values[i].1)
}

/// Some stored category has the id `id`.
pub open spec fn has_id(m: Catalog, ids: Map<Text, int>, id: int) -> bool {
    exists|n: Text| m.categories.contains_key(n) && ids[n] == id
}

/// The schema store: one connection, opened once.
pub struct Database {
    connection: Option<rusqlite::Connection>,
}

/// A write on `old` with the outcome `ok`: on success the store became
/// `after`, on failure it is unchanged; it stays open or closed.
pub open spec fn wrote(old: Database, new: Database, ok: bool, after: Catalog) -> bool {
    &&& new.initialized() == old.initialized()
    &&& ok ==> old.initialized() && new.model() == after
    &&& !ok ==> new.model() == old.model()
}

fn copy_change(c: &Change) -> (r: Change)
    ensures
        r@ == c@,
{
    match c {
        Change::DeleteTag(t) => Change::DeleteTag(t.clone()),
        Change::InsertTag(t) => Change::InsertTag(t.clone()),
        Change::DeleteCategory(n) => Change::DeleteCategory(n.clone()),
        Change::InsertCategory(n) => Change::InsertCategory(n.clone()),
        Change::DeleteValue(n, v) => Change::DeleteValue(n.clone(), v.clone()),
        Change::InsertValue(n, v) => Change::InsertValue(n.clone(), v.clone()),
        Change::InsertFile(p, n) => Change::InsertFile(p.clone(), n.clone()),
        Change::AssociateTag(p, t) => Change::AssociateTag(p.clone(), t.clone()),
        Change::AssociateValue(p, n, v) => Change::AssociateValue(p.clone(), n.clone(), v.clone()),
    }
}

/// The category rows as entries; `None` when an id does not fit in `u32`.
pub fn entries_of(rows: &Vec<(i64, String)>) -> (r: Option<Vec<CategoryEntry>>)
    ensures
        r is None <==> exists|i: int| 0 <= i < rows.len() && !(0 <= #[trigger] rows@[i].0 <= u32::MAX),
        r matches Some(es) ==> es.len() == rows.len() && forall|i: int| 0 <= i < rows.len() ==> (
            #[trigger] es@[i]).id == rows@[i].0 && es@[i].name@ == rows@[i].1@,
{
    let mut out: Vec<CategoryEntry> = Vec::new();
    let mut i: usize = 0;
    while i < rows.len()
        invariant
            i <= rows.len(),
            out.len() == i,
            forall|j: int| 0 <= j < i ==> (#[trigger] out@[j]).id == rows@[j].0 && out@[j].name@ == rows@[j].1@,
            forall|j: int| 0 <= j < i ==> 0 <= #[trigger] rows@[j].0 <= u32::MAX,
        decreases rows.len() - i,
    {
        let id = rows[i].0;
        if id < 0 || id > u32::MAX as i64 {
            return None;
        }
        out.push(CategoryEntry { id: id as u32, name: rows[i].1.clone() });
        i += 1;
    }
    Some(out)
}

/// The id of the first entry named `name`.
pub fn find_category(entries: &Vec<CategoryEntry>, name: &String) -> (r: Option<u32>)
    ensures
        r is None <==> !entry_names(entries@).contains(name@),
        r matches Some(k) ==> exists|i: int| 0 <= i < entries.len() && #[trigger] entries@[i].name@ == name@
            && entries@[i].id == k,
{
    let mut i: usize = 0;
    while i < entries.len()
        invariant
            i <= entries.len(),
            forall|j: int| 0 <= j < i ==> entries@[j].name@ != name@,
        decreases entries.len() - i,
    {
        if entries[i].name == *name {
            assert(entry_names(entries@)[i as int] == name@);
            return Some(entries[i].id);
        }
        i += 1;
    }
    assert forall|j: int| 0 <= j < entry_names(entries@).len() implies entry_names(entries@)[j] != name@ by {
        assert(entry_names(entries@)[j] == entries@[j].name@);
    }
    None
}

/// The name of the first entry with id `id`.
pub fn find_category_name(entries: &Vec<CategoryEntry>, id: u32) -> (r: Option<String>)
    ensures
        r is None <==> forall|i: int| 0 <= i < entries.len() ==> (#[trigger] entries@[i]).id != id,
        r matches Some(n) ==> exists|i: int| 0 <= i < entries.len() && (#[trigger] entries@[i]).id == id
            && entries@[i].name@ == n@,
{
    let mut i: usize = 0;
    while i < entries.len()
        invariant
            i <= entries.len(),
            forall|j: int| 0 <= j < i ==> (#[trigger] entries@[j]).id != id,
        decreases entries.len() - i,
    {
        if entries[i].id == id {
            return Some(entries[i].name.clone());
        }
        i += 1;
    }
    None
}

impl Database {
    pub closed spec fn initialized(&self) -> bool {
        self.connection is Some
    }

    /// What the store holds (nothing while it is not open).
    pub closed spec fn model(&self) -> Catalog {
        match self.connection {
            Some(c) => catalog(c),
            None => Catalog::empty(),
        }
    }

    /// The ids of the stored categories, by name.
    pub closed spec fn category_ids(&self) -> Map<Text, int> {
        match self.connection {
            Some(c) => stored_category_ids(c),
            None => Map::empty(),
        }
    }

    /// A store that is not open yet.
    pub fn new() -> (r: Database)
        ensures
            !r.initialized(),
            r.model() == Catalog::empty(),
    {
        Database { connection: None }
    }

    /// Opens the store file at `path` and creates the tables that are missing.
    /// On failure the store is left as it was.
    pub fn open(&mut self, path: &str) -> (r: Result<(), StoreError>)
        ensures
            r is Ok ==> final(self).initialized(),
            r matches Err(e) ==> e is StoreUnavailable && *final(self) == *old(self),
    {
        match open_file(path) {
            Ok(con) => self.install(con),
            Err(e) => Err(StoreError::StoreUnavailable(store_error(e).message())),
        }
    }

    /// A store held in memory, with its tables created and no rows.
    pub fn open_in_memory() -> (r: Result<Database, StoreError>)
        ensures
            r matches Ok(db) ==> db.initialized() && db.model() == Catalog::empty(),
            r matches Err(e) ==> e is StoreUnavailable,
    {
        let mut db = Database::new();
        match open_memory() {
            Ok(con) => {
                let ghost m = catalog(con);
                match db.install(con) {
                    Ok(()) => {
                        assert(db.model() =~= Catalog::empty());
                        Ok(db)
                    },
                    Err(e) => Err(e),
                }
            },
            Err(e) => Err(StoreError::StoreUnavailable(store_error(e).message())),
        }
    }

    fn install(&mut self, con: rusqlite::Connection) -> (r: Result<(), StoreError>)
        ensures
            r is Ok ==> final(self).initialized() && final(self).model() == catalog(con),
            r matches Err(e) ==> e is StoreUnavailable && *final(self) == *old(self),
    {
        match create_tables(&con) {
            Ok(()) => {
                self.connection = Some(con);
                Ok(())
            },
            Err(e) => Err(StoreError::StoreUnavailable(store_error(e).message())),
        }
    }

    pub fn is_initialized(&self) -> (r: bool)
        ensures
            r == self.initialized(),
    {
        self.connection.is_some()
    }

    /// The stored tag names.
    pub fn get_tags(&self) -> (r: Result<Vec<String>, StoreError>)
        ensures
            !self.initialized() ==> r == Err::<Vec<String>, StoreError>(StoreError::NotInitialized),
            r matches Err(StoreError::NotInitialized) ==> !self.initialized(),
            r matches Err(e) ==> e is NotInitialized || e is DuplicateKey || e is Failed,
            r matches Ok(v) ==> texts(v@).to_set() == self.model().tags && texts(v@).no_duplicates(),
    {
        match &self.connection {
            Some(con) => match sql_tags(con) {
                Ok(v) => Ok(v),
                Err(e) => Err(store_error(e)),
            },
            None => Err(StoreError::NotInitialized),
        }
    }

    /// Deletes the tag `tag` and its file links; deleting a tag that is not
    /// stored changes nothing. Returns the number of rows deleted.
    pub fn delete_tag(&mut self, tag: &String) -> (r: Result<usize, StoreError>)
        ensures
            wrote(*old(self), *final(self), r is Ok, old(self).model().delete_tag(tag@)),
            r matches Ok(n) ==> n == if old(self).model().tags.contains(tag@) { 1usize } else { 0usize },
            !old(self).initialized() ==> r == Err::<usize, StoreError>(StoreError::NotInitialized),
            r matches Err(StoreError::NotInitialized) ==> !old(self).initialized(),
            r matches Err(e) ==> e is NotInitialized || e is DuplicateKey || e is Failed,
    {
        match &mut self.connection {
            Some(con) => match sql_delete_tag(con, tag) {
                Ok(n) => Ok(n),
                Err(e) => Err(store_error(e)),
            },
            None => Err(StoreError::NotInitialized),
        }
    }

    /// Inserts the tag `tag`; a tag that is stored already is refused.
    pub fn insert_tag(&mut self, tag: &String) -> (r: Result<usize, StoreError>)
        ensures
            wrote(*old(self), *final(self), r is Ok, old(self).model().insert_tag(tag@)),
            !old(self).initialized() ==> r == Err::<usize, StoreError>(StoreError::NotInitialized),
            r matches Err(StoreError::NotInitialized) ==> !old(self).initialized(),
            r matches Err(e) ==> e is NotInitialized || e is DuplicateKey || e is Failed,
            old(self).model().tags.contains(tag@) ==> r is Err,
    {
        match &mut self.connection {
            Some(con) => match sql_insert_tag(con, tag) {
                Ok(n) => Ok(n),
                Err(e) => Err(store_error(e)),
            },
            None => Err(StoreError::NotInitialized),
        }
    }

    /// The stored categories with their ids.
    pub fn get_categories(&self) -> (r: Result<Vec<CategoryEntry>, StoreError>)
        ensures
            !self.initialized() ==> r == Err::<Vec<CategoryEntry>, StoreError>(StoreError::NotInitialized),
            r matches Err(StoreError::NotInitialized) ==> !self.initialized(),
            r matches Err(e) ==> e is NotInitialized || e is DuplicateKey || e is Failed,
            r matches Ok(es) ==> entry_names(es@).to_set() == self.model().categories.dom()
                && entry_names(es@).no_duplicates()
                && (forall|i: int| 0 <= i < es.len() ==> self.category_ids()[#[trigger] es@[i].name@] == es@[i].id as int)
                && (forall|i: int, j: int| 0 <= i < es.len() && 0 <= j < es.len() && i != j ==> #[trigger] es@[i].id != #[trigger] es@[j].id),
    {
        let rows = match &self.connection {
            Some(con) => match sql_categories(con) {
                Ok(v) => v,
                Err(e) => return Err(store_error(e)),
            },
            None => return Err(StoreError::NotInitialized),
        };
        match entries_of(&rows) {
            Some(es) => {
                assert(entry_names(es@) =~= rows@.map_values(|e: (i64, String)| e.1@));
                assert forall|i: int| 0 <= i < es.len() implies self.category_ids()[#[trigger] es@[i].name@] == es@[i].id as int by {
                    assert(rows@[i].1@ == es@[i].name@);
                }
                assert forall|i: int, j: int| 0 <= i < es.len() && 0 <= j < es.len() && i != j implies #[trigger] es@[i].id != #[trigger] es@[j].id by {
                    assert(rows@[i].0 != rows@[j].0);
                }
                Ok(es)
            },
            None => Err(StoreError::Failed(String::from_str("category id out of range"))),
        }
    }

    /// The id of the category named `name`; `ReferenceNotFound` when none is.
    pub fn get_category_id(&self, name: &String) -> (r: Result<u32, StoreError>)
        ensures
            !self.initialized() ==> r == Err::<u32, StoreError>(StoreError::NotInitialized),
            r matches Err(StoreError::NotInitialized) ==> !self.initialized(),
            r is Ok ==> self.model().categories.contains_key(name@),
            r matches Ok(k) ==> self.category_ids()[name@] == k as int,
            r matches Err(StoreError::ReferenceNotFound(_)) ==> !self.model().categories.contains_key(name@),
    {
        let entries = match self.get_categories() {
            Ok(es) => es,
            Err(e) => return Err(e),
        };
        match find_category(&entries, name) {
            Some(id) => {
                assert(entry_names(entries@).to_set().contains(name@));
                let ghost i = choose|i: int| 0 <= i < entries.len() && #[trigger] entries@[i].name@ == name@
                    && entries@[i].id == id;
                assert(self.category_ids()[entries@[i].name@] == entries@[i].id as int);
                Ok(id)
            },
            None => {
                assert(!entry_names(entries@).to_set().contains(name@));
                Err(StoreError::ReferenceNotFound(name.clone()))
            },
        }
    }

    /// Deletes the category named `name`, its values and their file links;
    /// deleting a category that is not stored changes nothing.
    pub fn delete_category_named(&mut self, name: &String) -> (r: Result<usize, StoreError>)
        ensures
            wrote(*old(self), *final(self), r is Ok, old(self).model().delete_category(name@)),
            r matches Ok(n) ==> n == if old(self).model().categories.contains_key(name@) { 1usize } else { 0usize },
            !old(self).initialized() ==> r == Err::<usize, StoreError>(StoreError::NotInitialized),
            r matches Err(StoreError::NotInitialized) ==> !old(self).initialized(),
            r matches Err(e) ==> e is NotInitialized || e is DuplicateKey || e is Failed,
    {
        match &mut self.connection {
            Some(con) => match sql_delete_category(con, name) {
                Ok(n) => Ok(n),
                Err(e) => Err(store_error(e)),
            },
            None => Err(StoreError::NotInitialized),
        }
    }

    /// Deletes the category with id `id`, its values and their file links.
    /// Returns the number of categories deleted.
    pub fn delete_category(&mut self, id: u32) -> (r: Result<usize, StoreError>)
        ensures
            final(self).initialized() == old(self).initialized(),
            !old(self).initialized() ==> r == Err::<usize, StoreError>(StoreError::NotInitialized),
            r matches Err(StoreError::NotInitialized) ==> !old(self).initialized(),
            r is Err ==> final(self).model() == old(self).model(),
            r matches Ok(k) ==> (has_id(old(self).model(), old(self).category_ids(), id as int) ==> k == 1 && exists|n: Text|
                old(self).model().categories.contains_key(n) && old(self).category_ids()[n] == id as int
                && final(self).model() == old(self).model().delete_category(n)),
            r matches Ok(k) ==> (!has_id(old(self).model(), old(self).category_ids(), id as int) ==> k == 0
                && final(self).model() == old(self).model()),
    {
        let entries = match self.get_categories() {
            Ok(es) => es,
            Err(e) => return Err(e),
        };
        match find_category_name(&entries, id) {
            Some(name) => {
                proof {
                    let i = choose|i: int| 0 <= i < entries.len() && (#[trigger] entries@[i]).id == id
                        && entries@[i].name@ == name@;
                    assert(entry_names(entries@)[i] == name@);
                    assert(entry_names(entries@).to_set().contains(name@));
                    assert(self.category_ids()[entries@[i].name@] == entries@[i].id as int);
                }
                self.delete_category_named(&name)
            },
            None => {
                proof {
                    if has_id(self.model(), self.category_ids(), id as int) {
                        let n = choose|n: Text| self.model().categories.contains_key(n) && self.category_ids()[n] == id as int;
                        assert(entry_names(entries@).to_set().contains(n));
                        let j = choose|j: int| 0 <= j < entry_names(entries@).len() && entry_names(entries@)[j] == n;
                        assert(entries@[j].name@ == n);
                        assert(self.category_ids()[entries@[j].name@] == entries@[j].id as int);
                        assert(entries@[j].id != id);
                    }
                }
                Ok(0)
            },
        }
    }

    /// Inserts the category `name`; a stored name is refused.
    pub fn insert_category(&mut self, name: &String) -> (r: Result<usize, StoreError>)
        ensures
            wrote(*old(self), *final(self), r is Ok, old(self).model().insert_category(name@)),
            !old(self).initialized() ==> r == Err::<usize, StoreError>(StoreError::NotInitialized),
            r matches Err(StoreError::NotInitialized) ==> !old(self).initialized(),
            r matches Err(e) ==> e is NotInitialized || e is DuplicateKey || e is Failed,
            old(self).model().categories.contains_key(name@) ==> r is Err,
    {
        match &mut self.connection {
            Some(con) => match sql_insert_category(con, name) {
                Ok(n) => Ok(n),
                Err(e) => Err(store_error(e)),
            },
            None => Err(StoreError::NotInitialized),
        }
    }

    /// The stored values of the category named `name` (none if it is not stored).
    pub fn get_values(&self, name: &String) -> (r: Result<Vec<String>, StoreError>)
        ensures
            !self.initialized() ==> r == Err::<Vec<String>, StoreError>(StoreError::NotInitialized),
            r matches Err(StoreError::NotInitialized) ==> !self.initialized(),
            r matches Ok(v) ==> texts(v@).no_duplicates(),
            r matches Ok(v) ==> texts(v@).to_set() == if self.model().categories.contains_key(name@) {
                self.model().categories[name@]
            } else {
                Set::<Text>::empty()
            },
    {
        match &self.connection {
            Some(con) => match sql_values(con, name) {
                Ok(v) => Ok(v),
                Err(e) => Err(store_error(e)),
            },
            None => Err(StoreError::NotInitialized),
        }
    }

    /// Deletes `value` of the category `category`, and its file links.
    pub fn delete_value(&mut self, category: &String, value: &String) -> (r: Result<usize, StoreError>)
        ensures
            wrote(*old(self), *final(self), r is Ok, old(self).model().delete_value(category@, value@)),
            r matches Ok(n) ==> n == if old(self).model().categories.contains_key(category@)
                && old(self).model().categories[category@].contains(value@) { 1usize } else { 0usize },
            !old(self).initialized() ==> r == Err::<usize, StoreError>(StoreError::NotInitialized),
            r matches Err(StoreError::NotInitialized) ==> !old(self).initialized(),
            r matches Err(e) ==> e is NotInitialized || e is DuplicateKey || e is Failed,
    {
        match &mut self.connection {
            Some(con) => match sql_delete_value(con, category, value) {
                Ok(n) => Ok(n),
                Err(e) => Err(store_error(e)),
            },
            None => Err(StoreError::NotInitialized),
        }
    }

    /// Inserts `value` under the category `category`, which must be stored;
    /// a stored pair is refused.
    pub fn insert_value(&mut self, category: &String, value: &String) -> (r: Result<usize, StoreError>)
        ensures
            wrote(*old(self), *final(self), r is Ok, old(self).model().insert_value(category@, value@)),
            !old(self).initialized() ==> r == Err::<usize, StoreError>(StoreError::NotInitialized),
            r matches Err(StoreError::NotInitialized) ==> !old(self).initialized(),
            r matches Err(e) ==> e is NotInitialized || e is DuplicateKey || e is Failed || e is ReferenceNotFound,
            r matches Err(StoreError::ReferenceNotFound(_)) ==> !old(self).model().categories.contains_key(category@),
            old(self).initialized() && !old(self).model().categories.contains_key(category@) ==> r is Err,
            old(self).model().categories.contains_key(category@) && old(self).model().categories[category@].contains(value@) ==> r is Err,
    {
        match &mut self.connection {
            Some(con) => match sql_insert_value(con, category, value) {
                Ok(n) => if n == 0 {
                    Err(StoreError::ReferenceNotFound(category.clone()))
                } else {
                    Ok(n)
                },
                Err(e) => Err(store_error(e)),
            },
            None => Err(StoreError::NotInitialized),
        }
    }

    /// Inserts the file row: `relative_path` is its storage folder, `name`
    /// the file's own name. A stored path is refused.
    pub fn store_file(&mut self, relative_path: &String, name: &String) -> (r: Result<(), StoreError>)
        ensures
            wrote(*old(self), *final(self), r is Ok, old(self).model().insert_file(relative_path@, name@)),
            !old(self).initialized() ==> r == Err::<(), StoreError>(StoreError::NotInitialized),
            r matches Err(StoreError::NotInitialized) ==> !old(self).initialized(),
            r matches Err(e) ==> e is NotInitialized || e is DuplicateKey || e is Failed,
            old(self).model().files.contains_key(relative_path@) ==> r is Err,
    {
        match &mut self.connection {
            Some(con) => match sql_insert_file(con, relative_path, name) {
                Ok(_) => Ok(()),
                Err(e) => Err(store_error(e)),
            },
            None => Err(StoreError::NotInitialized),
        }
    }

    /// Links the file stored under `path` to the tag `tag`; both must exist.
    pub fn associate_tag_with_file(&mut self, path: &String, tag: &String) -> (r: Result<(), StoreError>)
        ensures
            wrote(*old(self), *final(self), r is Ok, old(self).model().associate_tag(path@, tag@)),
            !old(self).initialized() ==> r == Err::<(), StoreError>(StoreError::NotInitialized),
            r matches Err(StoreError::NotInitialized) ==> !old(self).initialized(),
            r matches Err(e) ==> e is NotInitialized || e is DuplicateKey || e is Failed || e is ReferenceNotFound,
            r matches Err(StoreError::ReferenceNotFound(_)) ==> needs_missing(old(self).model(), Edit::AssociateTag(path@, tag@)),
            old(self).initialized() && needs_missing(old(self).model(), Edit::AssociateTag(path@, tag@)) ==> r is Err,
    {
        match &mut self.connection {
            Some(con) => match sql_associate_tag(con, path, tag) {
                Ok(n) => if n == 0 {
                    Err(StoreError::ReferenceNotFound(tag.clone()))
                } else {
                    Ok(())
                },
                Err(e) => Err(store_error(e)),
            },
            None => Err(StoreError::NotInitialized),
        }
    }

    /// Links the file stored under `path` to `value` of `category`; all must exist.
    pub fn associate_value_with_file(&mut self, path: &String, category: &String, value: &String) -> (r: Result<(), StoreError>)
        ensures
            wrote(*old(self), *final(self), r is Ok, old(self).model().associate_value(path@, category@, value@)),
            !old(self).initialized() ==> r == Err::<(), StoreError>(StoreError::NotInitialized),
            r matches Err(StoreError::NotInitialized) ==> !old(self).initialized(),
            r matches Err(e) ==> e is NotInitialized || e is DuplicateKey || e is Failed || e is ReferenceNotFound,
            r matches Err(StoreError::ReferenceNotFound(_)) ==> needs_missing(
                old(self).model(),
                Edit::AssociateValue(path@, category@, value@),
            ),
            old(self).initialized() && needs_missing(old(self).model(), Edit::AssociateValue(path@, category@, value@)) ==> r is Err,
    {
        match &mut self.connection {
            Some(con) => match sql_associate_value(con, path, category, value) {
                Ok(n) => if n == 0 {
                    Err(StoreError::ReferenceNotFound(value.clone()))
                } else {
                    Ok(())
                },
                Err(e) => Err(store_error(e)),
            },
            None => Err(StoreError::NotInitialized),
        }
    }

    /// The storage paths of the stored files.
    pub fn get_files(&self) -> (r: Result<Vec<String>, StoreError>)
        ensures
            !self.initialized() ==> r == Err::<Vec<String>, StoreError>(StoreError::NotInitialized),
            r matches Err(StoreError::NotInitialized) ==> !self.initialized(),
            r matches Ok(v) ==> texts(v@).to_set() == self.model().files.dom() && texts(v@).no_duplicates(),
    {
        match &self.connection {
            Some(con) => match sql_files(con) {
                Ok(v) => Ok(v),
                Err(e) => Err(store_error(e)),
            },
            None => Err(StoreError::NotInitialized),
        }
    }

    /// The tags linked to the file stored under `path`.
    pub fn get_file_tags(&self, path: &String) -> (r: Result<Vec<String>, StoreError>)
        ensures
            !self.initialized() ==> r == Err::<Vec<String>, StoreError>(StoreError::NotInitialized),
            r matches Err(StoreError::NotInitialized) ==> !self.initialized(),
            r matches Ok(v) ==> forall|t: Text| #[trigger] texts(v@).contains(t) <==> self.model().file_tags.contains((path@, t)),
    {
        match &self.connection {
            Some(con) => match sql_file_tags(con, path) {
                Ok(v) => Ok(v),
                Err(e) => Err(store_error(e)),
            },
            None => Err(StoreError::NotInitialized),
        }
    }

    /// The (category, value) pairs linked to the file stored under `path`.
    pub fn get_file_values(&self, path: &String) -> (r: Result<Vec<(String, String)>, StoreError>)
        ensures
            !self.initialized() ==> r == Err::<Vec<(String, String)>, StoreError>(StoreError::NotInitialized),
            r matches Err(StoreError::NotInitialized) ==> !self.initialized(),
            r matches Ok(v) ==> forall|c: Text, x: Text| #[trigger] pair_texts(v@).contains((c, x))
                <==> self.model().file_values.contains((path@, c, x)),
    {
        match &self.connection {
            Some(con) => match sql_file_values(con, path) {
                Ok(v) => Ok(v),
                Err(e) => Err(store_error(e)),
            },
            None => Err(StoreError::NotInitialized),
        }
    }

    /// Performs one change against the store.
    pub fn apply_change(&mut self, change: &Change) -> (r: Result<(), StoreError>)
        ensures
            wrote(*old(self), *final(self), r is Ok, old(self).model().apply(change@)),
            !old(self).initialized() ==> r == Err::<(), StoreError>(StoreError::NotInitialized),
            r matches Err(StoreError::NotInitialized) ==> !old(self).initialized(),
            r matches Err(e) ==> e is NotInitialized || e is DuplicateKey || e is Failed || e is ReferenceNotFound,
            r matches Err(StoreError::ReferenceNotFound(_)) ==> needs_missing(old(self).model(), change@),
            old(self).initialized() && must_refuse(old(self).model(), change@) ==> r is Err,
    {
        match change {
            Change::DeleteTag(t) => {
                self.delete_tag(t)?;
            },
            Change::InsertTag(t) => {
                self.insert_tag(t)?;
            },
            Change::DeleteCategory(n) => {
                self.delete_category_named(n)?;
            },
            Change::InsertCategory(n) => {
                self.insert_category(n)?;
            },
            Change::DeleteValue(n, v) => {
                self.delete_value(n, v)?;
            },
            Change::InsertValue(n, v) => {
                self.insert_value(n, v)?;
            },
            Change::InsertFile(p, n) => self.store_file(p, n)?,
            Change::AssociateTag(p, t) => self.associate_tag_with_file(p, t)?,
            Change::AssociateValue(p, n, v) => self.associate_value_with_file(p, n, v)?,
        }
        Ok(())
    }

    /// Performs every change in order, going on past refused ones. The
    /// warnings are exactly the refused changes, in order, each with its
    /// position; every other change took effect.
    pub fn apply_changes(&mut self, changes: &Vec<Change>) -> (r: Vec<ReconcileWarning>)
        ensures
            final(self).initialized() == old(self).initialized(),
            reports(r@, edits(changes@)),
            final(self).model() == old(self).model().apply_skipping(edits(changes@), refused(r@)),
            old(self).initialized() ==> refusals_reported(old(self).model(), edits(changes@), refused(r@), changes.len() as int),
    {
        let ghost start = self.model();
        let ghost es = edits(changes@);
        let mut out: Vec<ReconcileWarning> = Vec::new();
        let mut i: usize = 0;
        while i < changes.len()
            invariant
                i <= changes.len(),
                es == edits(changes@),
                self.initialized() == old(self).initialized(),
                reports(out@, es),
                forall|j: int| 0 <= j < out.len() ==> (#[trigger] out@[j]).index() < i,
                self.model() == start.apply_skipping(es.take(i as int), refused(out@)),
                start == old(self).model(),
                old(self).initialized() ==> refusals_reported(start, es, refused(out@), i as int),
            decreases changes.len() - i,
        {
            let ghost before = out@;
            proof {
                lemma_skip_take(start, es, refused(before), i as int);
                assert(!refused(before).contains(i as int));
            }
            let ghost cur = self.model();
            match self.apply_change(&changes[i]) {
                Ok(()) => {
                    proof {
                        assert(es[i as int] == changes@[i as int]@);
                        if old(self).initialized() {
                            assert forall|k: int| 0 <= k < i + 1 && #[trigger] must_refuse(
                                start.apply_skipping(es.take(k), refused(out@)),
                                es[k],
                            ) implies refused(out@).contains(k) by {
                                if k == i {
                                    assert(!must_refuse(cur, changes@[i as int]@));
                                }
                            }
                        }
                    }
                },
                Err(e) => {
                    let c = copy_change(&changes[i]);
                    out.push(ReconcileWarning::WriteFailed(i, c, e));
                    proof {
                        assert(refused(out@) =~= refused(before).insert(i as int)) by {
                            assert forall|k: int| refused(out@).contains(k) implies refused(before).insert(i as int).contains(k) by {
                                let j = choose|j: int| 0 <= j < out@.len() && out@[j] is WriteFailed && #[trigger] out@[j].index() == k;
                                if j < before.len() {
                                    assert(out@[j] == before[j]);
                                }
                            }
                            assert forall|k: int| refused(before).insert(i as int).contains(k) implies refused(out@).contains(k) by {
                                if k == i as int {
                                    assert(out@[before.len() as int].index() == k);
                                } else {
                                    let j = choose|j: int| 0 <= j < before.len() && before[j] is WriteFailed && #[trigger] before[j].index() == k;
                                    assert(out@[j] == before[j]);
                                }
                            }
                        }
                        lemma_skip_take(start, es, refused(out@), i as int);
                        lemma_skip_within(start, es.take(i as int), refused(out@), refused(before));
                        if old(self).initialized() {
                            assert forall|k: int| 0 <= k < i + 1 && #[trigger] must_refuse(
                                start.apply_skipping(es.take(k), refused(out@)),
                                es[k],
                            ) implies refused(out@).contains(k) by {
                                if k < i {
                                    lemma_skip_within(start, es.take(k), refused(out@), refused(before));
                                    assert(refused(before).contains(k));
                                }
                            }
                        }
                        assert forall|a: int, b: int| 0 <= a < b < out.len() implies #[trigger] out@[a].index() < #[trigger] out@[b].index() by {
                            if b < before.len() {
                                assert(out@[a] == before[a] && out@[b] == before[b]);
                            } else {
                                assert(out@[a] == before[a]);
                            }
                        }
                        assert forall|j: int| 0 <= j < out.len() implies (#[trigger] out@[j] matches ReconcileWarning::WriteFailed(k, c, _)
                            && k < es.len() && c@ == es[k as int]) by {
                            if j < before.len() {
                                assert(out@[j] == before[j]);
                            }
                        }
                    }
                },
            }
            proof {
                assert forall|j: int| 0 <= j < out.len() implies (#[trigger] out@[j]).index() < i + 1 by {
                    if j < before.len() {
                        assert(out@[j] == before[j]);
                    }
                }
            }
            i += 1;
        }
        assert(es.take(changes.len() as int) =~= es);
        out
    }

    /// The names of the stored categories.
    fn category_names(&self) -> (r: Result<Vec<String>, StoreError>)
        ensures
            !self.initialized() ==> r is Err,
            r matches Ok(v) ==> texts(v@).to_set() == self.model().categories.dom(),
    {
        let entries = self.get_categories()?;
        let mut names: Vec<String> = Vec::new();
        let mut i: usize = 0;
        while i < entries.len()
            invariant
                i <= entries.len(),
                texts(names@) == entry_names(entries@).take(i as int),
            decreases entries.len() - i,
        {
            let ghost n0 = names@;
            names.push(entries[i].name.clone());
            assert(texts(names@) =~= texts(n0).push(entries@[i as int].name@));
            assert(entry_names(entries@).take(i as int + 1) =~= entry_names(entries@).take(i as int).push(
                entries@[i as int].name@,
            ));
            i += 1;
        }
        assert(entry_names(entries@).take(entries.len() as int) =~= entry_names(entries@));
        Ok(names)
    }

    /// What the store holds for a reconciliation against `config`: its tags,
    /// its category names, and the values of each configured category.
    pub fn read_state(&self, config: &Config) -> (r: Result<StoreReads, StoreError>)
        ensures
            !self.initialized() ==> r is Err,
            r matches Ok(reads) ==> reflects(self.model(), &reads, config) && reads.values.len()
                == config.category_views().len(),
    {
        let tags = self.get_tags()?;
        let categories = self.category_names()?;
        let cats = config.categories();
        let ghost want = config.category_views();
        let mut values: Vec<Vec<String>> = Vec::new();
        let mut k: usize = 0;
        while k < cats.len()
            invariant
                k <= cats.len(),
                values.len() == k,
                cats@.map_values(|c: Category| c@) == want,
                texts(categories@).to_set() == self.model().categories.dom(),
                forall|j: int| 0 <= j < k && self.model().categories.contains_key(#[trigger] want[j].0)
                    ==> texts(values@[j]@).to_set() == self.model().categories[want[j].0],
            decreases cats.len() - k,
        {
            assert(want[k as int] == cats@[k as int]@);
            if contains_text(&categories, &cats[k].name) {
                let v = self.get_values(&cats[k].name)?;
                values.push(v);
            } else {
                assert(!texts(categories@).to_set().contains(cats@[k as int].name@));
                values.push(Vec::new());
            }
            k += 1;
        }
        let reads = StoreReads { tags, categories, values };
        proof {
            assert forall|i: int| 0 <= i < want.len() && self.model().categories.contains_key(#[trigger] want[i].0)
                implies self.model().categories[want[i].0] == values_at(reads.value_texts(), i).to_set() by {
                assert(reads.value_texts()[i] == texts(values@[i]@));
            }
        }
        Ok(reads)
    }

    /// Makes the stored tags, categories and values match `config`: reads
    /// what the store holds, plans the changes, and performs them, going on
    /// past refused ones. When a read fails nothing is written and the one
    /// warning says so; otherwise the warnings are exactly the refused
    /// changes, in order.
    pub fn check_config_consistency(&mut self, config: &Config) -> (r: Result<Vec<ReconcileWarning>, StoreError>)
        ensures
            final(self).initialized() == old(self).initialized(),
            r is Err <==> !old(self).initialized(),
            r matches Err(e) ==> e is NotInitialized && *final(self) == *old(self),
            r matches Ok(ws) ==> reconciled(old(self).model(), final(self).model(), config, ws@),
            r matches Ok(ws) ==> forall|i: int| 0 <= i < ws.len() ==> (#[trigger] ws[i]).concerns(config),
            r matches Ok(ws) ==> (ws.len() == 0 && names(config.category_views()).no_duplicates()
                ==> matches_config(final(self).model(), config)),
            r matches Ok(ws) ==> (ws.len() == 0 ==> final(self).model().tags == config.tag_texts().to_set()),
            r is Ok ==> final(self).model().files == old(self).model().files
                && final(self).model().file_tags.subset_of(old(self).model().file_tags)
                && final(self).model().file_values.subset_of(old(self).model().file_values),
            r is Ok ==> forall|a: (Text, Text)| #[trigger] old(self).model().file_tags.contains(a)
                && !final(self).model().file_tags.contains(a) ==> !config.tag_texts().contains(a.1),
            r is Ok ==> forall|a: (Text, Text, Text)| #[trigger] old(self).model().file_values.contains(a)
                && !final(self).model().file_values.contains(a) ==> value_dropped(a.1, a.2, config.category_views()),
            r matches Ok(ws) ==> (ws.len() == 0 && old(self).model().wf() ==> forall|c: Text|
                old(self).model().categories.contains_key(c) && !names(config.category_views()).contains(c)
                ==> !(#[trigger] final(self).model().categories.contains_key(c)) && forall|p: Text, v: Text|
                !final(self).model().file_values.contains((p, c, v))),
            r is Ok && keeps_all(old(self).model(), config) ==> final(self).model().files == old(self).model().files
                && final(self).model().file_tags == old(self).model().file_tags
                && final(self).model().file_values == old(self).model().file_values,
            r is Ok && old(self).model().wf() ==> final(self).model().wf(),
            r matches Ok(ws) ==> (matches_config(old(self).model(), config) ==> final(self).model() == old(self).model()
                && forall|i: int| 0 <= i < ws.len() ==> (#[trigger] ws[i]) is ReadFailed),
    {
        if !self.is_initialized() {
            return Err(StoreError::NotInitialized);
        }
        let reads = match self.read_state(config) {
            Ok(reads) => reads,
            Err(e) => return Ok(vec![ReconcileWarning::ReadFailed(e)]),
        };
        let ghost m = self.model();
        let changes = reconcile_plan(&reads, config);
        let ws = self.apply_changes(&changes);
        proof {
            let es = reconcile_edits(&reads, config);
            assert(reflects(m, &reads, config));
            assert(reconciled(m, self.model(), config, ws@));
            if m.wf() {
                lemma_skip_wf(m, es, refused(ws@));
            }
            additive_safety_skipping_if(m, reads, *config, refused(ws@));
            plan_sanctioned(reads, *config);
            sanctioned_frame(m, es, refused(ws@), config.tag_texts(), config.category_views());
            if ws.len() == 0 {
                assert(refused(ws@) =~= Set::<int>::empty());
                lemma_skip_none(m, es);
                tags_converge(m, reads, *config);
                if names(config.category_views()).no_duplicates() {
                    convergence(m, reads, *config);
                }
                if m.wf() {
                    assert forall|c: Text| m.categories.contains_key(c) && !names(config.category_views()).contains(c)
                        implies !(#[trigger] self.model().categories.contains_key(c)) && forall|p: Text, v: Text|
                        !self.model().file_values.contains((p, c, v)) by {
                        cascade(m, reads, *config, c);
                    }
                }
            }
            if matches_config(m, config) {
                plan_empty_when_converged(m, reads, *config);
                assert(es.len() == 0);
                if ws.len() > 0 {
                    assert(ws@[0] matches ReconcileWarning::WriteFailed(k, _, _) && k < es.len());
                }
                assert(ws.len() == 0);
            }
            lemma_tag_edits_sanctioned(texts(reads.tags@), config.tag_texts());
            lemma_category_edits_sanctioned(texts(reads.categories@), reads.value_texts(), config.category_views());
            assert forall|i: int| 0 <= i < ws.len() implies (#[trigger] ws@[i]).concerns(config) by {
                if let ReconcileWarning::WriteFailed(k, c, _) = ws@[i] {
                    let t = crate::plan::tag_edits(texts(reads.tags@), config.tag_texts());
                    let g = crate::plan::category_edits(texts(reads.categories@), reads.value_texts(), config.category_views());
                    assert(es == t + g);
                    if (k as int) < t.len() {
                        assert(es[k as int] == t[k as int]);
                    } else {
                        assert(es[k as int] == g[k as int - t.len()]);
                    }
                }
            }
        }
        Ok(ws)
    }

    /// The tags and (category, value) pairs that are stored.
    pub fn get_references(&self) -> (r: Result<References, StoreError>)
        ensures
            !self.initialized() ==> r == Err::<References, StoreError>(StoreError::NotInitialized),
            r matches Err(StoreError::NotInitialized) ==> !self.initialized(),
            r matches Err(e) ==> e is NotInitialized || e is DuplicateKey || e is Failed,
            r matches Ok(refs) ==> texts(refs.tags@).to_set() == self.model().tags && forall|c: Text, x: Text|
                #[trigger] pair_texts(refs.values@).contains((c, x)) <==> self.model().categories.contains_key(c)
                && self.model().categories[c].contains(x),
    {
        let tags = match self.get_tags() {
            Ok(t) => t,
            Err(e) => return Err(e),
        };
        let values = match &self.connection {
            Some(con) => match sql_value_pairs(con) {
                Ok(v) => v,
                Err(e) => return Err(store_error(e)),
            },
            None => return Err(StoreError::NotInitialized),
        };
        Ok(References { tags, values })
    }

    /// Registers a file copied into the storage folder `folder` under its own
    /// name `name`, with its chosen tags and (category, value) pairs. Every
    /// chosen reference is checked first: where one is missing, nothing is
    /// written and `ReferenceNotFound` names it. Stops at the first refused write.
    pub fn register_file(
        &mut self,
        folder: &String,
        name: &String,
        tags: &Vec<String>,
        values: &Vec<(String, String)>,
    ) -> (r: Result<(), StoreError>)
        ensures
            final(self).initialized() == old(self).initialized(),
            !old(self).initialized() ==> r == Err::<(), StoreError>(StoreError::NotInitialized),
            r matches Err(StoreError::NotInitialized) ==> !old(self).initialized(),
            r matches Err(e) ==> e is NotInitialized || e is ReferenceNotFound || e is DuplicateKey || e is Failed,
            r is Ok ==> final(self).model() == old(self).model().apply_all(
                import_edits(folder@, name@, texts(tags@), pair_texts(values@)),
            ),
            r matches Err(StoreError::ReferenceNotFound(_)) ==> final(self).model() == old(self).model(),
            r matches Err(StoreError::ReferenceNotFound(_)) ==> !stores_all(old(self).model(), texts(tags@), pair_texts(values@)),
            !stores_all(old(self).model(), texts(tags@), pair_texts(values@)) ==> r is Err && final(self).model() == old(self).model(),
            !old(self).initialized() ==> final(self).model() == old(self).model(),
            r is Err ==> exists|k: int| 0 <= k <= import_edits(folder@, name@, texts(tags@), pair_texts(values@)).len()
                && final(self).model() == old(self).model().apply_all(
                import_edits(folder@, name@, texts(tags@), pair_texts(values@)).take(k),
            ),
            (exists|i: int| 0 <= i < tags.len() && !old(self).model().tags.contains(#[trigger] tags@[i]@))
                ==> r is Err && final(self).model() == old(self).model(),
            (exists|i: int| 0 <= i < values.len() && !(old(self).model().categories.contains_key(#[trigger] values@[i].0@)
                && old(self).model().categories[values@[i].0@].contains(values@[i].1@)))
                ==> r is Err && final(self).model() == old(self).model(),
    {
        let ghost m = self.model();
        let ghost es = import_edits(folder@, name@, texts(tags@), pair_texts(values@));
        proof {
            assert(m.apply_all(es.take(0)) == m) by {
                assert(es.take(0) =~= Seq::<Edit>::empty());
            }
            let ts = texts(tags@);
            let vs = pair_texts(values@);
            if !stores_all(m, ts, vs) {
                if exists|i: int| 0 <= i < ts.len() && !m.tags.contains(#[trigger] ts[i]) {
                    let i = choose|i: int| 0 <= i < ts.len() && !m.tags.contains(#[trigger] ts[i]);
                    assert(ts[i] == tags@[i]@);
                    assert(!m.tags.contains(tags@[i]@));
                } else {
                    let i = choose|i: int| 0 <= i < vs.len() && !(m.categories.contains_key(#[trigger] vs[i].0)
                        && m.categories[vs[i].0].contains(vs[i].1));
                    assert(vs[i] == (values@[i].0@, values@[i].1@));
                    assert(!(m.categories.contains_key(values@[i].0@) && m.categories[values@[i].0@].contains(values@[i].1@)));
                }
            }
        }
        let refs = self.get_references()?;
        proof {
            if exists|i: int| 0 <= i < tags.len() && !m.tags.contains(#[trigger] tags@[i]@) {
                let i = choose|i: int| 0 <= i < tags.len() && !m.tags.contains(#[trigger] tags@[i]@);
                assert(texts(tags@)[i] == tags@[i]@);
                assert(!texts(refs.tags@).to_set().contains(texts(tags@)[i]));
                assert(!refs.admits(texts(tags@), pair_texts(values@)));
            }
            if exists|i: int| 0 <= i < values.len() && !(m.categories.contains_key(#[trigger] values@[i].0@)
                && m.categories[values@[i].0@].contains(values@[i].1@)) {
                let i = choose|i: int| 0 <= i < values.len() && !(m.categories.contains_key(#[trigger] values@[i].0@)
                    && m.categories[values@[i].0@].contains(values@[i].1@));
                assert(pair_texts(values@)[i] == (values@[i].0@, values@[i].1@));
                assert(!pair_texts(refs.values@).contains(pair_texts(values@)[i]));
                assert(!refs.admits(texts(tags@), pair_texts(values@)));
            }
        }
        let changes = match import_plan(&refs, folder, name, tags, values) {
            Ok(cs) => cs,
            Err(e) => {
                proof {
                    let ts = texts(tags@);
                    let vs = pair_texts(values@);
                    if stores_all(m, ts, vs) {
                        assert forall|i: int| 0 <= i < ts.len() implies texts(refs.tags@).contains(#[trigger] ts[i]) by {
                            assert(m.tags.contains(ts[i]));
                            assert(texts(refs.tags@).to_set().contains(ts[i]));
                        }
                        assert forall|i: int| 0 <= i < vs.len() implies pair_texts(refs.values@).contains(#[trigger] vs[i]) by {
                            assert(m.categories.contains_key(vs[i].0) && m.categories[vs[i].0].contains(vs[i].1));
                            assert(pair_texts(refs.values@).contains((vs[i].0, vs[i].1)));
                        }
                        assert(refs.admits(ts, vs));
                    }
                }
                return Err(e);
            },
        };
        let nt = tags.len();
        let mut i: usize = 0;
        while i < changes.len()
            invariant
                i <= changes.len(),
                edits(changes@) == es,
                es == import_edits(folder@, name@, texts(tags@), pair_texts(values@)),
                refs.admits(texts(tags@), pair_texts(values@)),
                texts(refs.tags@).to_set() == m.tags,
                forall|c: Text, x: Text| #[trigger] pair_texts(refs.values@).contains((c, x))
                    <==> m.categories.contains_key(c) && m.categories[c].contains(x),
                self.initialized(),
                old(self).initialized(),
                m == old(self).model(),
                self.model() == m.apply_all(es.take(i as int)),
                self.model().tags == m.tags,
                self.model().categories == m.categories,
                i > 0 ==> self.model().files.contains_key(folder@),
                nt == tags.len(),
            decreases changes.len() - i,
        {
            let ghost cur = self.model();
            proof {
                assert(edits(changes@)[i as int] == changes@[i as int]@);
                assert(es.take(i as int + 1).drop_last() =~= es.take(i as int));
                if i > 0 {
                    let k = i as int;
                    let fv = pair_texts(values@).map_values(|p: (Text, Text)| Edit::AssociateValue(folder@, p.0, p.1));
                    let head = seq![Edit::InsertFile(folder@, name@)] + texts(tags@).map_values(
                        |t: Text| Edit::AssociateTag(folder@, t),
                    );
                    assert(es == head + fv);
                    assert(head.len() == 1 + nt);
                    if k <= nt {
                        assert(es[k] == head[k]);
                        assert(es[k] == Edit::AssociateTag(folder@, texts(tags@)[k - 1]));
                        assert(texts(refs.tags@).contains(texts(tags@)[k - 1]));
                        assert(texts(refs.tags@).to_set().contains(texts(tags@)[k - 1]));
                    } else {
                        let j = k - 1 - nt;
                        assert(es.len() == changes.len());
                        assert(es.len() == head.len() + fv.len());
                        assert(fv.len() == values.len());
                        assert(0 <= j < values.len());
                        let x = pair_texts(values@)[j];
                        assert(es[k] == fv[j]);
                        assert(es[k] == Edit::AssociateValue(folder@, x.0, x.1));
                        assert(pair_texts(refs.values@).contains(x));
                        assert(pair_texts(refs.values@).contains((x.0, x.1)));
                    }
                    assert(!needs_missing(cur, es[k]));
                } else {
                    assert(es[0] == Edit::InsertFile(folder@, name@));
                }
            }
            match self.apply_change(&changes[i]) {
                Ok(()) => {},
                Err(e) => {
                    proof {
                        assert(self.model() == m.apply_all(es.take(i as int)));
                        assert(es.len() == changes.len());
                        assert(m == old(self).model());
                        assert(0 <= i as int <= es.len() && self.model() == old(self).model().apply_all(es.take(i as int)));
                        assert forall|j: int| 0 <= j < tags.len() implies m.tags.contains(#[trigger] tags@[j]@) by {
                            assert(texts(tags@)[j] == tags@[j]@);
                            assert(texts(refs.tags@).contains(texts(tags@)[j]));
                            assert(texts(refs.tags@).to_set().contains(texts(tags@)[j]));
                        }
                        assert forall|j: int| 0 <= j < values.len() implies m.categories.contains_key(#[trigger] values@[j].0@)
                            && m.categories[values@[j].0@].contains(values@[j].1@) by {
                            assert(pair_texts(values@)[j] == (values@[j].0@, values@[j].1@));
                            assert(pair_texts(refs.values@).contains(pair_texts(values@)[j]));
                        }
                    }
                    return Err(e);
                },
            }
            i += 1;
        }
        assert(es.take(changes.len() as int) =~= es);
        Ok(())
    }

    /// A storage folder name of `FOLDER_NAME_LEN` letters and digits that no
    /// stored file uses; fails after `FOLDER_NAME_TRIES` taken names.
    pub fn fresh_folder(&self) -> (r: Result<String, StoreError>)
        ensures
            !self.initialized() ==> r is Err,
            r matches Err(StoreError::NotInitialized) ==> !self.initialized(),
            r matches Err(e) ==> e is NotInitialized || e is DuplicateKey || e is Failed,
            r matches Ok(s) ==> s@.len() == FOLDER_NAME_LEN && (forall|i: int|
                0 <= i < s@.len() ==> is_alphanumeric(#[trigger] s@[i])) && !self.model().files.contains_key(s@),
    {
        let con = match &self.connection {
            Some(con) => con,
            None => return Err(StoreError::NotInitialized),
        };
        let mut tries: usize = 0;
        while tries < FOLDER_NAME_TRIES
            invariant
                tries <= FOLDER_NAME_TRIES,
                self.connection == Some(*con),
            decreases FOLDER_NAME_TRIES - tries,
        {
            let candidate = random_alphanumeric(FOLDER_NAME_LEN);
            match sql_has_file(con, &candidate) {
                Ok(false) => return Ok(candidate),
                Ok(true) => {},
                Err(e) => return Err(store_error(e)),
            }
            tries += 1;
        }
        Err(StoreError::DuplicateKey(String::from_str("no free storage folder name")))
    }
}

/// Additive safety for a reconciliation, where it applies.
proof fn additive_safety_skipping_if(m: Catalog, reads: StoreReads, config: Config, skip: Set<int>)
    requires
        reflects(m, &reads, &config),
    ensures
        keeps_all(m, &config) ==> {
            &&& m.apply_skipping(reconcile_edits(&reads, &config), skip).files == m.files
            &&& m.apply_skipping(reconcile_edits(&reads, &config), skip).file_tags == m.file_tags
            &&& m.apply_skipping(reconcile_edits(&reads, &config), skip).file_values == m.file_values
        },
{
    if keeps_all(m, &config) {
        additive_safety_skipping(m, reads, config, skip);
    }
}

} // verus!
