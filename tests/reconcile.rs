use tagstore::config::{Category, Config};
use tagstore::error::StoreError;
use tagstore::import::{import_plan, References};
use tagstore::plan::{
    category_changes, contains_text, reconcile_plan, tag_changes, value_changes, Change,
    StoreReads,
};
use tagstore::state::AppState;
use tagstore::store::{Database, ReconcileWarning};

fn s(x: &str) -> String {
    x.to_string()
}

fn strings(xs: &[&str]) -> Vec<String> {
    xs.iter().map(|x| x.to_string()).collect()
}

fn category(name: &str, values: &[&str]) -> Category {
    Category { name: s(name), values: strings(values) }
}

fn config(tags: &[&str], categories: Vec<Category>) -> Config {
    Config::new(s("/tmp/managed"), false, categories, strings(tags))
}

fn sorted(mut v: Vec<String>) -> Vec<String> {
    v.sort();
    v
}

fn change_text(c: &Change) -> String {
    format!("{:?}", c)
}

fn texts_of(cs: &[Change]) -> Vec<String> {
    cs.iter().map(change_text).collect()
}

fn category_names(db: &Database) -> Vec<String> {
    sorted(db.get_categories().unwrap().into_iter().map(|c| c.name).collect())
}

fn add_file(db: &mut Database, path: &str, tags: &[&str], values: &[(&str, &str)]) {
    db.store_file(&s(path), &s("file.txt")).unwrap();
    for t in tags {
        db.associate_tag_with_file(&s(path), &s(t)).unwrap();
    }
    for (c, v) in values {
        db.associate_value_with_file(&s(path), &s(c), &s(v)).unwrap();
    }
}

#[test]
fn tag_changes_delete_then_insert() {
    let r = tag_changes(&strings(&["work", "personal"]), &strings(&["personal", "urgent"]));
    assert_eq!(
        texts_of(&r),
        vec![
            change_text(&Change::DeleteTag(s("work"))),
            change_text(&Change::InsertTag(s("urgent")))
        ]
    );
}

#[test]
fn value_changes_for_stored_and_new_category() {
    let r = value_changes(&s("project"), true, &strings(&["alpha", "beta"]), &strings(&["beta", "gamma"]));
    assert_eq!(
        texts_of(&r),
        vec![
            change_text(&Change::DeleteValue(s("project"), s("alpha"))),
            change_text(&Change::InsertValue(s("project"), s("gamma")))
        ]
    );
    let r = value_changes(&s("kind"), false, &Vec::new(), &strings(&["a", "b"]));
    assert_eq!(
        texts_of(&r),
        vec![
            change_text(&Change::InsertCategory(s("kind"))),
            change_text(&Change::InsertValue(s("kind"), s("a"))),
            change_text(&Change::InsertValue(s("kind"), s("b")))
        ]
    );
}

#[test]
fn category_changes_delete_unwanted_first() {
    let r = category_changes(
        &strings(&["old", "project"]),
        &vec![strings(&["alpha"]), Vec::new()],
        &vec![category("project", &["alpha"]), category("new", &["x"])],
    );
    assert_eq!(
        texts_of(&r),
        vec![
            change_text(&Change::DeleteCategory(s("old"))),
            change_text(&Change::InsertCategory(s("new"))),
            change_text(&Change::InsertValue(s("new"), s("x")))
        ]
    );
}

#[test]
fn reconcile_plan_of_matching_store_is_empty() {
    let cfg = config(&["a"], vec![category("c", &["v"])]);
    let reads = StoreReads { tags: strings(&["a"]), categories: strings(&["c"]), values: vec![strings(&["v"])] };
    assert!(reconcile_plan(&reads, &cfg).is_empty());
}

#[test]
fn contains_text_finds_equal_strings() {
    assert!(contains_text(&strings(&["a", "b"]), &s("b")));
    assert!(!contains_text(&strings(&["a", "b"]), &s("B")));
    assert!(!contains_text(&Vec::new(), &s("a")));
}

#[test]
fn import_plan_orders_file_then_links() {
    let refs = References { tags: strings(&["urgent"]), values: vec![(s("project"), s("beta"))] };
    let r = import_plan(&refs, &s("Ab3dE9z"), &s("report.pdf"), &strings(&["urgent"]), &vec![(s("project"), s("beta"))]).unwrap();
    assert_eq!(
        texts_of(&r),
        vec![
            change_text(&Change::InsertFile(s("Ab3dE9z"), s("report.pdf"))),
            change_text(&Change::AssociateTag(s("Ab3dE9z"), s("urgent"))),
            change_text(&Change::AssociateValue(s("Ab3dE9z"), s("project"), s("beta")))
        ]
    );
}

#[test]
fn import_plan_reports_missing_reference() {
    let refs = References { tags: strings(&["urgent"]), values: vec![(s("project"), s("beta"))] };
    let r = import_plan(&refs, &s("p"), &s("n"), &strings(&["urgent", "nope"]), &Vec::new());
    assert_eq!(r.unwrap_err(), StoreError::ReferenceNotFound(s("nope")));
    let r = import_plan(&refs, &s("p"), &s("n"), &Vec::new(), &vec![(s("project"), s("alpha"))]);
    assert_eq!(r.unwrap_err(), StoreError::ReferenceNotFound(s("alpha")));
}

#[test]
fn reconcile_replaces_tags_and_drops_their_links() {
    let mut db = Database::open_in_memory().unwrap();
    db.check_config_consistency(&config(&["work", "personal"], vec![])).unwrap();
    add_file(&mut db, "f1", &["work", "personal"], &[]);
    let w = db.check_config_consistency(&config(&["personal", "urgent"], vec![])).unwrap();
    assert!(w.is_empty());
    assert_eq!(sorted(db.get_tags().unwrap()), strings(&["personal", "urgent"]));
    assert_eq!(db.get_file_tags(&s("f1")).unwrap(), strings(&["personal"]));
}

#[test]
fn reconcile_updates_values_and_keeps_other_links() {
    let mut db = Database::open_in_memory().unwrap();
    db.check_config_consistency(&config(&["x"], vec![category("project", &["alpha", "beta"])])).unwrap();
    add_file(&mut db, "a", &["x"], &[("project", "alpha")]);
    add_file(&mut db, "b", &[], &[("project", "beta")]);
    let w = db
        .check_config_consistency(&config(&["x"], vec![category("project", &["beta", "gamma"])]))
        .unwrap();
    assert!(w.is_empty());
    assert_eq!(sorted(db.get_values(&s("project")).unwrap()), strings(&["beta", "gamma"]));
    assert_eq!(db.get_file_values(&s("a")).unwrap(), Vec::<(String, String)>::new());
    assert_eq!(db.get_file_tags(&s("a")).unwrap(), strings(&["x"]));
    assert_eq!(db.get_file_values(&s("b")).unwrap(), vec![(s("project"), s("beta"))]);
    assert_eq!(db.get_files().unwrap(), strings(&["a", "b"]));
}

#[test]
fn reconcile_twice_changes_nothing_more() {
    let mut db = Database::open_in_memory().unwrap();
    let cfg = config(&["a", "b"], vec![category("c", &["1", "2"]), category("d", &[])]);
    assert!(db.check_config_consistency(&cfg).unwrap().is_empty());
    let reads = db.read_state(&cfg).unwrap();
    assert_eq!(reads.values.len(), 2);
    assert!(reconcile_plan(&reads, &cfg).is_empty());
    assert!(db.check_config_consistency(&cfg).unwrap().is_empty());
    assert_eq!(sorted(db.get_tags().unwrap()), strings(&["a", "b"]));
    assert_eq!(category_names(&db), strings(&["c", "d"]));
}

#[test]
fn read_state_feeds_a_dry_run() {
    let mut db = Database::open_in_memory().unwrap();
    db.check_config_consistency(&config(&["old"], vec![category("c", &["1"])])).unwrap();
    let cfg = config(&["new"], vec![category("c", &["2"])]);
    let reads = db.read_state(&cfg).unwrap();
    assert_eq!(
        texts_of(&reconcile_plan(&reads, &cfg)),
        vec![
            change_text(&Change::DeleteTag(s("old"))),
            change_text(&Change::InsertTag(s("new"))),
            change_text(&Change::DeleteValue(s("c"), s("1"))),
            change_text(&Change::InsertValue(s("c"), s("2")))
        ]
    );
    assert_eq!(db.get_tags().unwrap(), strings(&["old"]));
}

#[test]
fn reconcile_converges_to_configuration() {
    let mut db = Database::open_in_memory().unwrap();
    db.check_config_consistency(&config(&["t1"], vec![category("gone", &["g"]), category("keep", &["k1"])])).unwrap();
    let cfg = config(&["t2", "t3"], vec![category("keep", &["k2"]), category("fresh", &["f1", "f2"])]);
    assert!(db.check_config_consistency(&cfg).unwrap().is_empty());
    assert_eq!(sorted(db.get_tags().unwrap()), strings(&["t2", "t3"]));
    assert_eq!(category_names(&db), strings(&["fresh", "keep"]));
    assert_eq!(sorted(db.get_values(&s("keep")).unwrap()), strings(&["k2"]));
    assert_eq!(sorted(db.get_values(&s("fresh")).unwrap()), strings(&["f1", "f2"]));
}

#[test]
fn reconcile_cascades_category_delete() {
    let mut db = Database::open_in_memory().unwrap();
    db.check_config_consistency(&config(&["t"], vec![category("gone", &["g1", "g2"]), category("stay", &["s"])])).unwrap();
    add_file(&mut db, "f", &["t"], &[("gone", "g1"), ("stay", "s")]);
    db.check_config_consistency(&config(&["t"], vec![category("stay", &["s"])])).unwrap();
    assert_eq!(category_names(&db), strings(&["stay"]));
    assert_eq!(db.get_values(&s("gone")).unwrap(), Vec::<String>::new());
    assert_eq!(db.get_file_values(&s("f")).unwrap(), vec![(s("stay"), s("s"))]);
    assert_eq!(db.get_file_tags(&s("f")).unwrap(), strings(&["t"]));
}

#[test]
fn reconcile_superset_keeps_files_and_links() {
    let mut db = Database::open_in_memory().unwrap();
    db.check_config_consistency(&config(&["t"], vec![category("c", &["v"])])).unwrap();
    add_file(&mut db, "f", &["t"], &[("c", "v")]);
    db.check_config_consistency(&config(&["t", "u"], vec![category("c", &["v", "w"]), category("n", &["x"])])).unwrap();
    assert_eq!(db.get_files().unwrap(), strings(&["f"]));
    assert_eq!(db.get_file_tags(&s("f")).unwrap(), strings(&["t"]));
    assert_eq!(db.get_file_values(&s("f")).unwrap(), vec![(s("c"), s("v"))]);
}

#[test]
fn reconcile_reports_duplicate_names_as_warnings() {
    let mut db = Database::open_in_memory().unwrap();
    let w = db.check_config_consistency(&config(&["a", "a"], vec![])).unwrap();
    assert_eq!(w.len(), 1);
    match &w[0] {
        ReconcileWarning::WriteFailed(k, Change::InsertTag(t), StoreError::DuplicateKey(_)) => {
            assert_eq!(*k, 1);
            assert_eq!(t, "a");
        }
        other => panic!("unexpected warning {:?}", other),
    }
    assert_eq!(db.get_tags().unwrap(), strings(&["a"]));
}

#[test]
fn import_after_reconcile_registers_file() {
    let mut state = AppState::new(None, Database::new());
    assert_eq!(state.load_config().unwrap_err(), StoreError::NoConfigYet);
    assert_eq!(state.import_target().unwrap_err(), StoreError::NoConfigYet);
    state.store_config(config(&["urgent"], vec![]), ":memory:").unwrap();
    let (root, folder) = state.import_target().unwrap();
    assert_eq!(root, "/tmp/managed");
    assert_eq!(folder.len(), 7);
    assert!(folder.chars().all(|c| c.is_ascii_alphanumeric()));
    state.import(&folder, &s("report.pdf"), &strings(&["urgent"]), &Vec::new()).unwrap();
    let db = state.database();
    assert_eq!(db.get_files().unwrap(), vec![folder.clone()]);
    assert_eq!(db.get_file_tags(&folder).unwrap(), strings(&["urgent"]));
    let (current, warnings) = state.load_config().unwrap();
    assert!(warnings.is_empty());
    assert_eq!(current.tags(), &strings(&["urgent"]));
}

#[test]
fn import_with_unknown_tag_writes_no_file() {
    let mut db = Database::open_in_memory().unwrap();
    db.check_config_consistency(&config(&["urgent"], vec![])).unwrap();
    let r = db.register_file(&s("abcdefg"), &s("report.pdf"), &strings(&["missing"]), &Vec::new());
    assert_eq!(r.unwrap_err(), StoreError::ReferenceNotFound(s("missing")));
    assert_eq!(db.get_files().unwrap(), Vec::<String>::new());
}

#[test]
fn import_with_unknown_value_writes_no_file() {
    let mut db = Database::open_in_memory().unwrap();
    db.check_config_consistency(&config(&[], vec![category("project", &["beta"])])).unwrap();
    let r = db.register_file(&s("abcdefg"), &s("r.pdf"), &Vec::new(), &vec![(s("project"), s("alpha"))]);
    assert_eq!(r.unwrap_err(), StoreError::ReferenceNotFound(s("alpha")));
    assert_eq!(db.get_files().unwrap(), Vec::<String>::new());
    db.register_file(&s("abcdefg"), &s("r.pdf"), &Vec::new(), &vec![(s("project"), s("beta"))]).unwrap();
    assert_eq!(db.get_file_values(&s("abcdefg")).unwrap(), vec![(s("project"), s("beta"))]);
}

#[test]
fn duplicate_file_path_is_duplicate_key() {
    let mut db = Database::open_in_memory().unwrap();
    db.store_file(&s("p"), &s("a")).unwrap();
    assert!(matches!(db.store_file(&s("p"), &s("b")), Err(StoreError::DuplicateKey(_))));
}

#[test]
fn unopened_store_is_not_initialized() {
    let mut db = Database::new();
    assert!(!db.is_initialized());
    assert_eq!(db.get_tags().unwrap_err(), StoreError::NotInitialized);
    assert_eq!(db.insert_tag(&s("a")).unwrap_err(), StoreError::NotInitialized);
    assert_eq!(db.store_file(&s("a"), &s("b")).unwrap_err(), StoreError::NotInitialized);
    assert_eq!(
        db.check_config_consistency(&config(&[], vec![])).unwrap_err(),
        StoreError::NotInitialized
    );
    let mut state = AppState::new(Some(config(&[], vec![])), Database::new());
    assert_eq!(state.load_config().unwrap_err(), StoreError::NotInitialized);
}

#[test]
fn unreachable_store_is_unavailable() {
    let mut db = Database::new();
    let r = db.open("/nonexistent-dir-for-tagstore/sub/store.db");
    assert!(matches!(r, Err(StoreError::StoreUnavailable(_))));
    assert!(!db.is_initialized());
}

#[test]
fn fresh_folders_are_random() {
    let mut db = Database::open_in_memory().unwrap();
    let a = db.fresh_folder().unwrap();
    let b = db.fresh_folder().unwrap();
    assert_eq!(a.len(), 7);
    assert_ne!(a, b);
}

#[test]
fn missing_reference_for_association() {
    let mut db = Database::open_in_memory().unwrap();
    db.store_file(&s("p"), &s("a")).unwrap();
    assert_eq!(
        db.associate_tag_with_file(&s("p"), &s("none")).unwrap_err(),
        StoreError::ReferenceNotFound(s("none"))
    );
    assert_eq!(StoreError::NoConfigYet.message(), "No config exists yet.");
}

#[test]
fn import_without_configuration_is_refused() {
    let mut state = AppState::new(None, Database::open_in_memory().unwrap());
    assert_eq!(
        state.import(&s("abcdefg"), &s("r.pdf"), &Vec::new(), &Vec::new()).unwrap_err(),
        StoreError::NoConfigYet
    );
    assert_eq!(state.database().get_files().unwrap(), Vec::<String>::new());
}

#[test]
fn value_writes_by_category_name() {
    let mut db = Database::open_in_memory().unwrap();
    assert_eq!(
        db.insert_value(&s("none"), &s("v")).unwrap_err(),
        StoreError::ReferenceNotFound(s("none"))
    );
    db.insert_category(&s("c")).unwrap();
    db.insert_value(&s("c"), &s("v")).unwrap();
    assert!(matches!(db.insert_value(&s("c"), &s("v")), Err(StoreError::DuplicateKey(_))));
    assert_eq!(db.get_values(&s("c")).unwrap(), strings(&["v"]));
    db.delete_value(&s("c"), &s("v")).unwrap();
    assert_eq!(db.get_values(&s("c")).unwrap(), Vec::<String>::new());
    assert_eq!(
        db.get_category_id(&s("other")).unwrap_err(),
        StoreError::ReferenceNotFound(s("other"))
    );
}

#[test]
fn apply_changes_reports_refused_positions_and_goes_on() {
    let mut db = Database::open_in_memory().unwrap();
    let changes = vec![
        Change::InsertTag(s("a")),
        Change::InsertValue(s("missing"), s("v")),
        Change::InsertTag(s("a")),
        Change::InsertTag(s("b")),
    ];
    let ws = db.apply_changes(&changes);
    let positions: Vec<usize> = ws
        .iter()
        .map(|w| match w {
            ReconcileWarning::WriteFailed(k, _, _) => *k,
            ReconcileWarning::ReadFailed(_) => usize::MAX,
        })
        .collect();
    assert_eq!(positions, vec![1, 2]);
    assert_eq!(sorted(db.get_tags().unwrap()), strings(&["a", "b"]));
}
