use tagstore::store::{CategoryEntry, Database};

fn create_db() -> Database {
    Database::open_in_memory().expect("Database in memory failed")
}

#[test]
fn tag_insert() {
    let mut db = create_db();
    assert_eq!(Vec::<String>::new(), db.get_tags().unwrap());
    db.insert_tag(&"test".to_string())
        .expect("Failed to insert tag");
    assert_eq!(vec!["test".to_string()], db.get_tags().unwrap());
}

#[test]
#[should_panic(expected = "UNIQUE constraint failed")]
fn tag_duplicate_insert() {
    let mut db = create_db();
    db.insert_tag(&"test".to_string())
        .expect("Failed to insert tag");
    db.insert_tag(&"test".to_string())
        .expect("Failed to insert tag");
}

#[test]
fn tag_delete() {
    let mut db = create_db();
    db.insert_tag(&"test".to_string())
        .expect("Failed to insert tag");
    db.delete_tag(&"test".to_string())
        .expect("Failed to delete tag");
    assert_eq!(Vec::<String>::new(), db.get_tags().unwrap());
}

#[test]
fn category_insert() {
    let mut db = create_db();
    assert_eq!(Vec::<CategoryEntry>::new(), db.get_categories().unwrap());
    db.insert_category(&"test".to_string())
        .expect("Failed to insert category");
    assert!(
        db.get_categories()
            .unwrap()
            .iter()
            .any(|c| c.name == "test".to_string()),
        "Does not contain the correct category"
    );
    assert_eq!(
        db.get_categories().unwrap().len(),
        1,
        "Does not contain exactly one category"
    );
}

#[test]
fn category_delete() {
    let mut db = create_db();
    db.insert_category(&"test".to_string())
        .expect("Failed to insert category");
    let id = db
        .get_category_id(&"test".to_string())
        .expect("Failed to get category id");
    db.delete_category(id).expect("Failed to delete category");
    assert_eq!(Vec::<CategoryEntry>::new(), db.get_categories().unwrap());
}

#[test]
#[should_panic(expected = "UNIQUE constraint failed")]
fn category_duplicate_insert() {
    let mut db = create_db();
    db.insert_category(&"test".to_string())
        .expect("Failed to insert category");
    db.insert_category(&"test".to_string())
        .expect("Failed to insert category");
}
