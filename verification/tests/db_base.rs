use pwm::db_base::error::DatabaseError;
use pwm::db_base::Database;

#[test]
fn db_insert() {
    let mut db = Database::<i32>::new();
    db.insert("Hello", 5).unwrap();
    db.insert("Hello2", 5).unwrap();

    let val = db.get("Hello").unwrap();
    if *val != 5 {
        panic!("did not find 5");
    }
    db.remove("Hello").unwrap();
}

#[test]
fn db_insert_failed() {
    let mut db = Database::<i32>::new();
    db.insert("Hello", 5).unwrap();
    let result = db.insert("Hello", 5);
    assert!(result.unwrap_err() == DatabaseError::AlreadyExists)
}

#[test]
fn db_rename() {
    let mut db = Database::<i32>::new();
    db.insert("Hello", 5).unwrap();
    db.rename("Hello", "Hello2").unwrap();
    if *db.get("Hello2").unwrap() != 5 {
        panic!("did not find 5");
    }
}

#[test]
fn db_replace() {
    let mut db = Database::<i32>::new();
    db.insert("Hello", 5).unwrap();
    db.replace("Hello", 6).unwrap();
    if *db.get("Hello").unwrap() != 6 {
        panic!("did not find 6");
    }
}
