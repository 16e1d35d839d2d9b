use vstd::prelude::*;

use rand::Rng;

use crate::config::texts;
use crate::error::StoreError;
use crate::import::pair_texts;
use crate::model::{Catalog, Text};

verus! {

#[verifier::external_type_specification]
#[verifier::external_body]
pub struct ExConnection(rusqlite::Connection);

#[verifier::external_type_specification]
#[verifier::external_body]
pub struct ExSqliteError(rusqlite::Error);

/// The rows of the `tags` table of the database behind a connection.
pub uninterp spec fn stored_tags(c: rusqlite::Connection) -> Set<Seq<char>>;

/// The `categories` table with, for each, its rows of `categoryValue`.
pub uninterp spec fn stored_categories(c: rusqlite::Connection) -> Map<Seq<char>, Set<Seq<char>>>;

/// The `id` column of `categories`, by name.
pub uninterp spec fn stored_category_ids(c: rusqlite::Connection) -> Map<Seq<char>, int>;

/// The `files` table: path to name.
pub uninterp spec fn stored_files(c: rusqlite::Connection) -> Map<Seq<char>, Seq<char>>;

/// The `fileTags` table, as (path, tag).
pub uninterp spec fn stored_file_tags(c: rusqlite::Connection) -> Set<(Seq<char>, Seq<char>)>;

/// The `fileValues` table, as (path, category, value).
pub uninterp spec fn stored_file_values(c: rusqlite::Connection) -> Set<(Seq<char>, Seq<char>, Seq<char>)>;

/// What the database behind a connection holds.
pub open spec fn catalog(c: rusqlite::Connection) -> Catalog {
    Catalog {
        tags: stored_tags(c),
        categories: stored_categories(c),
        files: stored_files(c),
        file_tags: stored_file_tags(c),
        file_values: stored_file_values(c),
    }
}

pub open spec fn is_alphanumeric(c: char) -> bool {
    ('a' <= c && c <= 'z') || ('A' <= c && c <= 'Z') || ('0' <= c && c <= '9')
}

/// Relies on rusqlite's `Connection::open`: opens (or creates) the database
/// file at `path`.
#[verifier::external_body]
pub(crate) fn open_file(path: &str) -> (r: Result<rusqlite::Connection, rusqlite::Error>) {
    rusqlite::Connection::open(path)
}

/// Relies on rusqlite's `Connection::open_in_memory`: a fresh database with
/// no rows.
#[verifier::external_body]
pub(crate) fn open_memory() -> (r: Result<rusqlite::Connection, rusqlite::Error>)
    ensures
        r matches Ok(c) ==> catalog(c) == Catalog::empty(),
{
    rusqlite::Connection::open_in_memory()
}

/// Relies on rusqlite's `Connection::execute_batch`: creates the tables that
/// are missing (no row is added or removed) and turns on foreign keys, so
/// that deletes cascade.
#[verifier::external_body]
pub(crate) fn create_tables(con: &rusqlite::Connection) -> (r: Result<(), rusqlite::Error>) {
    con.execute_batch(
        "
PRAGMA foreign_keys = ON;
CREATE TABLE IF NOT EXISTS files (id INTEGER PRIMARY KEY, path TEXT NOT NULL UNIQUE, name TEXT NOT NULL);
CREATE TABLE IF NOT EXISTS tags (id INTEGER PRIMARY KEY, tag TEXT NOT NULL UNIQUE);
CREATE TABLE IF NOT EXISTS fileTags (file_id INTEGER NOT NULL REFERENCES files(id) ON UPDATE CASCADE ON DELETE CASCADE, tag_id INTEGER NOT NULL REFERENCES tags(id) ON UPDATE CASCADE ON DELETE CASCADE, UNIQUE (file_id, tag_id));
CREATE TABLE IF NOT EXISTS categories (id INTEGER PRIMARY KEY, name TEXT NOT NULL UNIQUE);
CREATE TABLE IF NOT EXISTS categoryValue (id INTEGER PRIMARY KEY, category_id INTEGER NOT NULL REFERENCES categories(id) ON UPDATE CASCADE ON DELETE CASCADE, value TEXT NOT NULL, UNIQUE (category_id, value));
CREATE TABLE IF NOT EXISTS fileValues (file_id INTEGER NOT NULL REFERENCES files(id) ON UPDATE CASCADE ON DELETE CASCADE, value_id INTEGER NOT NULL REFERENCES categoryValue(id) ON UPDATE CASCADE ON DELETE CASCADE, UNIQUE (file_id, value_id));",
    )
}

/// Relies on rusqlite's `Connection::execute` running one DELETE on `tags`;
/// the foreign keys remove the tag's file links. A failed statement changes
/// nothing.
#[verifier::external_body]
pub(crate) fn sql_delete_tag(con: &mut rusqlite::Connection, tag: &String) -> (r: Result<usize, rusqlite::Error>)
    ensures
        r is Ok ==> catalog(*final(con)) == catalog(*old(con)).delete_tag(tag@),
        r matches Ok(n) ==> n == if stored_tags(*old(con)).contains(tag@) { 1usize } else { 0usize },
        r is Err ==> catalog(*final(con)) == catalog(*old(con)),
{
    con.execute("DELETE FROM tags WHERE tag = ?1", (tag,))
}

/// Relies on rusqlite's `Connection::execute` running one INSERT on `tags`,
/// whose UNIQUE column refuses a stored name.
#[verifier::external_body]
pub(crate) fn sql_insert_tag(con: &mut rusqlite::Connection, tag: &String) -> (r: Result<usize, rusqlite::Error>)
    ensures
        r is Ok ==> catalog(*final(con)) == catalog(*old(con)).insert_tag(tag@),
        r is Err ==> catalog(*final(con)) == catalog(*old(con)),
        stored_tags(*old(con)).contains(tag@) ==> r is Err,
{
    con.execute("INSERT INTO tags(tag) VALUES (?1)", (tag,))
}

/// Relies on rusqlite's `Connection::execute` running one DELETE on
/// `categories`; the foreign keys remove its values and their file links.
#[verifier::external_body]
pub(crate) fn sql_delete_category(con: &mut rusqlite::Connection, name: &String) -> (r: Result<usize, rusqlite::Error>)
    ensures
        r is Ok ==> catalog(*final(con)) == catalog(*old(con)).delete_category(name@),
        r matches Ok(n) ==> n == if stored_categories(*old(con)).contains_key(name@) { 1usize } else { 0usize },
        r is Err ==> catalog(*final(con)) == catalog(*old(con)),
{
    con.execute("DELETE FROM categories WHERE name = ?1", (name,))
}

/// Relies on rusqlite's `Connection::execute` running one INSERT on
/// `categories`, whose UNIQUE column refuses a stored name.
#[verifier::external_body]
pub(crate) fn sql_insert_category(con: &mut rusqlite::Connection, name: &String) -> (r: Result<usize, rusqlite::Error>)
    ensures
        r is Ok ==> catalog(*final(con)) == catalog(*old(con)).insert_category(name@),
        r is Err ==> catalog(*final(con)) == catalog(*old(con)),
        stored_categories(*old(con)).contains_key(name@) ==> r is Err,
{
    con.execute("INSERT INTO categories(name) VALUES (?1)", (name,))
}

/// Relies on rusqlite's `Connection::execute` running one DELETE on
/// `categoryValue`; the foreign keys remove the value's file links.
#[verifier::external_body]
pub(crate) fn sql_delete_value(con: &mut rusqlite::Connection, category: &String, value: &String) -> (r: Result<usize, rusqlite::Error>)
    ensures
        r is Ok ==> catalog(*final(con)) == catalog(*old(con)).delete_value(category@, value@),
        r matches Ok(n) ==> n == if stored_categories(*old(con)).contains_key(category@)
            && stored_categories(*old(con))[category@].contains(value@) { 1usize } else { 0usize },
        r is Err ==> catalog(*final(con)) == catalog(*old(con)),
{
    con.execute(
        "DELETE FROM categoryValue WHERE value = ?2 AND category_id IN (SELECT id FROM categories WHERE name = ?1)",
        (category, value),
    )
}

/// Relies on rusqlite's `Connection::execute` running one INSERT ... SELECT
/// on `categoryValue`: no row when the category is not stored, and a refusal
/// of a (category, value) pair that is stored.
#[verifier::external_body]
pub(crate) fn sql_insert_value(con: &mut rusqlite::Connection, category: &String, value: &String) -> (r: Result<usize, rusqlite::Error>)
    ensures
        r is Ok ==> catalog(*final(con)) == catalog(*old(con)).insert_value(category@, value@),
        r matches Ok(n) ==> (n > 0 <==> stored_categories(*old(con)).contains_key(category@)),
        r is Err ==> catalog(*final(con)) == catalog(*old(con)),
        stored_categories(*old(con)).contains_key(category@) && stored_categories(*old(con))[category@].contains(value@) ==> r is Err,
{
    con.execute(
        "INSERT INTO categoryValue(category_id, value) SELECT id, ?2 FROM categories WHERE name = ?1",
        (category, value),
    )
}

/// Relies on rusqlite's `Connection::execute` running one INSERT on `files`,
/// whose UNIQUE path refuses a stored path.
#[verifier::external_body]
pub(crate) fn sql_insert_file(con: &mut rusqlite::Connection, path: &String, name: &String) -> (r: Result<usize, rusqlite::Error>)
    ensures
        r is Ok ==> catalog(*final(con)) == catalog(*old(con)).insert_file(path@, name@),
        r is Err ==> catalog(*final(con)) == catalog(*old(con)),
        stored_files(*old(con)).contains_key(path@) ==> r is Err,
{
    con.execute("INSERT INTO files(path, name) VALUES (?1, ?2)", (path, name))
}

/// Relies on rusqlite's `Connection::execute` running one INSERT ... SELECT
/// on `fileTags`: no row unless both the file and the tag are stored.
#[verifier::external_body]
pub(crate) fn sql_associate_tag(con: &mut rusqlite::Connection, path: &String, tag: &String) -> (r: Result<usize, rusqlite::Error>)
    ensures
        r is Ok ==> catalog(*final(con)) == catalog(*old(con)).associate_tag(path@, tag@),
        r matches Ok(n) ==> (n > 0 <==> stored_files(*old(con)).contains_key(path@) && stored_tags(*old(con)).contains(tag@)),
        r is Err ==> catalog(*final(con)) == catalog(*old(con)),
{
    con.execute(
        "INSERT INTO fileTags(file_id, tag_id) SELECT files.id, tags.id FROM files, tags WHERE files.path = ?1 AND tags.tag = ?2",
        (path, tag),
    )
}

/// Relies on rusqlite's `Connection::execute` running one INSERT ... SELECT
/// on `fileValues`: no row unless the file and the category value are stored.
#[verifier::external_body]
pub(crate) fn sql_associate_value(con: &mut rusqlite::Connection, path: &String, category: &String, value: &String) -> (r: Result<usize, rusqlite::Error>)
    ensures
        r is Ok ==> catalog(*final(con)) == catalog(*old(con)).associate_value(path@, category@, value@),
        r matches Ok(n) ==> (n > 0 <==> stored_files(*old(con)).contains_key(path@)
            && stored_categories(*old(con)).contains_key(category@)
            && stored_categories(*old(con))[category@].contains(value@)),
        r is Err ==> catalog(*final(con)) == catalog(*old(con)),
{
    con.execute(
        "INSERT INTO fileValues(file_id, value_id) SELECT files.id, categoryValue.id FROM files, categoryValue JOIN categories ON categoryValue.category_id = categories.id WHERE files.path = ?1 AND categories.name = ?2 AND categoryValue.value = ?3",
        (path, category, value),
    )
}

/// Relies on rusqlite's `Statement::query_map` over `SELECT tag FROM tags`;
/// the column is UNIQUE, so no name repeats.
#[verifier::external_body]
pub(crate) fn sql_tags(con: &rusqlite::Connection) -> (r: Result<Vec<String>, rusqlite::Error>)
    ensures
        r matches Ok(v) ==> texts(v@).to_set() == stored_tags(*con) && texts(v@).no_duplicates(),
{
    let mut stmt = con.prepare("SELECT tag FROM tags ORDER BY id")?;
    let rows = stmt.query_map((), |row| row.get::<usize, String>(0))?;
    rows.collect()
}

/// Relies on rusqlite's `Statement::query_map` over the `categories` table:
/// one (id, name) row per stored category; names are UNIQUE and ids are the
/// primary key, so neither repeats.
#[verifier::external_body]
pub(crate) fn sql_categories(con: &rusqlite::Connection) -> (r: Result<Vec<(i64, String)>, rusqlite::Error>)
    ensures
        r matches Ok(v) ==> v@.map_values(|e: (i64, String)| e.1@).to_set() == stored_categories(*con).dom()
            && v@.map_values(|e: (i64, String)| e.1@).no_duplicates()
            && (forall|i: int| 0 <= i < v.len() ==> stored_category_ids(*con)[#[trigger] v@[i].1@] == v@[i].0 as int)
            && (forall|i: int, j: int| 0 <= i < v.len() && 0 <= j < v.len() && i != j ==> #[trigger] v@[i].0 != #[trigger] v@[j].0),
{
    let mut stmt = con.prepare("SELECT id, name FROM categories ORDER BY id")?;
    let rows = stmt.query_map((), |row| Ok((row.get::<usize, i64>(0)?, row.get::<usize, String>(1)?)))?;
    rows.collect()
}

/// Relies on rusqlite's `Statement::query_map` over the values of the
/// category named `name` (none when it is not stored).
#[verifier::external_body]
pub(crate) fn sql_values(con: &rusqlite::Connection, name: &String) -> (r: Result<Vec<String>, rusqlite::Error>)
    ensures
        r matches Ok(v) ==> texts(v@).no_duplicates(),
        r matches Ok(v) ==> texts(v@).to_set() == if stored_categories(*con).contains_key(name@) {
            stored_categories(*con)[name@]
        } else {
            Set::<Text>::empty()
        },
{
    let mut stmt = con.prepare(
        "SELECT categoryValue.value FROM categoryValue JOIN categories ON categoryValue.category_id = categories.id WHERE categories.name = ?1 ORDER BY categoryValue.id",
    )?;
    let rows = stmt.query_map((name,), |row| row.get::<usize, String>(0))?;
    rows.collect()
}

/// Relies on rusqlite's `Statement::query_map` over every stored
/// (category, value) pair.
#[verifier::external_body]
pub(crate) fn sql_value_pairs(con: &rusqlite::Connection) -> (r: Result<Vec<(String, String)>, rusqlite::Error>)
    ensures
        r matches Ok(v) ==> forall|c: Text, x: Text| #[trigger] pair_texts(v@).contains((c, x))
            <==> stored_categories(*con).contains_key(c) && stored_categories(*con)[c].contains(x),
{
    let mut stmt = con.prepare(
        "SELECT categories.name, categoryValue.value FROM categoryValue JOIN categories ON categoryValue.category_id = categories.id ORDER BY categoryValue.id",
    )?;
    let rows = stmt.query_map((), |row| Ok((row.get::<usize, String>(0)?, row.get::<usize, String>(1)?)))?;
    rows.collect()
}

/// Relies on rusqlite's `Statement::query_map` over the paths of `files`.
#[verifier::external_body]
pub(crate) fn sql_files(con: &rusqlite::Connection) -> (r: Result<Vec<String>, rusqlite::Error>)
    ensures
        r matches Ok(v) ==> texts(v@).to_set() == stored_files(*con).dom() && texts(v@).no_duplicates(),
{
    let mut stmt = con.prepare("SELECT path FROM files ORDER BY id")?;
    let rows = stmt.query_map((), |row| row.get::<usize, String>(0))?;
    rows.collect()
}

/// Relies on rusqlite's `Statement::query_map` over the tags linked to the
/// file stored under `path`.
#[verifier::external_body]
pub(crate) fn sql_file_tags(con: &rusqlite::Connection, path: &String) -> (r: Result<Vec<String>, rusqlite::Error>)
    ensures
        r matches Ok(v) ==> forall|t: Text| #[trigger] texts(v@).contains(t) <==> stored_file_tags(*con).contains((path@, t)),
{
    let mut stmt = con.prepare(
        "SELECT tags.tag FROM fileTags JOIN tags ON fileTags.tag_id = tags.id JOIN files ON fileTags.file_id = files.id WHERE files.path = ?1 ORDER BY tags.id",
    )?;
    let rows = stmt.query_map((path,), |row| row.get::<usize, String>(0))?;
    rows.collect()
}

/// Relies on rusqlite's `Statement::query_map` over the (category, value)
/// pairs linked to the file stored under `path`.
#[verifier::external_body]
pub(crate) fn sql_file_values(con: &rusqlite::Connection, path: &String) -> (r: Result<Vec<(String, String)>, rusqlite::Error>)
    ensures
        r matches Ok(v) ==> forall|c: Text, x: Text| #[trigger] pair_texts(v@).contains((c, x))
            <==> stored_file_values(*con).contains((path@, c, x)),
{
    let mut stmt = con.prepare(
        "SELECT categories.name, categoryValue.value FROM fileValues JOIN categoryValue ON fileValues.value_id = categoryValue.id JOIN categories ON categoryValue.category_id = categories.id JOIN files ON fileValues.file_id = files.id WHERE files.path = ?1 ORDER BY categoryValue.id",
    )?;
    let rows = stmt.query_map((path,), |row| Ok((row.get::<usize, String>(0)?, row.get::<usize, String>(1)?)))?;
    rows.collect()
}

/// Relies on rusqlite's `Statement::exists`: whether a file is stored under `path`.
#[verifier::external_body]
pub(crate) fn sql_has_file(con: &rusqlite::Connection, path: &String) -> (r: Result<bool, rusqlite::Error>)
    ensures
        r matches Ok(b) ==> b == stored_files(*con).contains_key(path@),
{
    con.prepare("SELECT 1 FROM files WHERE path = ?1")?.exists((path,))
}

/// Relies on rusqlite's `Error::sqlite_error_code`: a UNIQUE or PRIMARY KEY
/// violation is reported as a duplicate key, every other error as a failure
/// with its text.
#[verifier::external_body]
pub(crate) fn store_error(e: rusqlite::Error) -> (r: StoreError)
    ensures
        r is DuplicateKey || r is Failed,
{
    match &e {
        rusqlite::Error::SqliteFailure(f, _)
            if f.extended_code == rusqlite::ffi::SQLITE_CONSTRAINT_UNIQUE
                || f.extended_code == rusqlite::ffi::SQLITE_CONSTRAINT_PRIMARYKEY => {
            StoreError::DuplicateKey(e.to_string())
        },
        _ => StoreError::Failed(e.to_string()),
    }
}

/// Relies on rand's `thread_rng` sampled through `distributions::Alphanumeric`,
/// which draws each character from A-Z, a-z and 0-9.
#[verifier::external_body]
pub(crate) fn random_alphanumeric(len: usize) -> (r: String)
    ensures
        r@.len() == len,
        forall|i: int| 0 <= i < len ==> is_alphanumeric(#[trigger] r@[i]),
{
    rand::thread_rng().sample_iter(&rand::distributions::Alphanumeric).take(len).map(char::from).collect()
}

} // verus!
