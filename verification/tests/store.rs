use rust_raft::raft::db::{
    contain_answer, fetched_text, set_from_text, contain, del_str_in_set, get, insert, read_set, remove, replace_set_from_set, update_set_from_set,
    update_set_from_str,
};
use rust_raft::raft::error::RaftError;

fn temp_db() -> sled::Db {
    sled::Config::new().temporary(true).open().unwrap()
}

fn sorted(mut v: Vec<String>) -> Vec<String> {
    v.sort();
    v
}

#[test]
fn insert_then_get_reads_the_value() {
    let mut db = temp_db();
    insert(&mut db, "k", "v1").unwrap();
    assert_eq!(get(&db, "k").unwrap(), "v1");
    insert(&mut db, "k", "v2").unwrap();
    assert_eq!(get(&db, "k").unwrap(), "v2");
}

#[test]
fn get_of_absent_key_is_empty() {
    let db = temp_db();
    assert_eq!(get(&db, "nothing").unwrap(), "");
    assert!(!contain(&db, "nothing"));
}

#[test]
fn contain_after_insert_and_remove() {
    let mut db = temp_db();
    insert(&mut db, "a", "1").unwrap();
    assert!(contain(&db, "a"));
    remove(&mut db, "a").unwrap();
    assert!(!contain(&db, "a"));
    assert_eq!(get(&db, "a").unwrap(), "");
    // removing an absent key succeeds
    remove(&mut db, "a").unwrap();
}

#[test]
fn get_of_non_utf8_value_is_an_error() {
    let mut db = temp_db();
    db.insert(b"bad", vec![0xffu8, 0xfe]).unwrap();
    match get(&db, "bad") {
        Err(RaftError::Utf8(_)) => {}
        other => panic!("unexpected {:?}", other),
    }
}

#[test]
fn get_decodes_multibyte_text() {
    let mut db = temp_db();
    insert(&mut db, "ключ", "значение").unwrap();
    assert_eq!(get(&db, "ключ").unwrap(), "значение");
    assert_eq!(db.get("ключ".as_bytes()).unwrap().unwrap().to_vec(), "значение".as_bytes().to_vec());
}

#[test]
fn read_set_of_absent_key_is_empty() {
    let db = temp_db();
    assert!(read_set(&db, "s").unwrap().is_empty());
}

#[test]
fn read_set_of_non_json_is_empty() {
    let mut db = temp_db();
    insert(&mut db, "s", "not json").unwrap();
    assert!(read_set(&db, "s").unwrap().is_empty());
}

#[test]
fn read_set_drops_repeats() {
    let mut db = temp_db();
    insert(&mut db, "s", "[\"a\",\"b\",\"a\"]").unwrap();
    assert_eq!(sorted(read_set(&db, "s").unwrap()), vec!["a".to_string(), "b".to_string()]);
}

#[test]
fn update_set_from_str_trims_and_stores() {
    let mut db = temp_db();
    let j = update_set_from_str(&mut db, "s", "  x \n").unwrap();
    assert_eq!(j, "[\"x\"]");
    assert_eq!(get(&db, "s").unwrap(), "[\"x\"]");
    let j = update_set_from_str(&mut db, "s", "y").unwrap();
    assert_eq!(j, "[\"x\",\"y\"]");
    let j = update_set_from_str(&mut db, "s", "x").unwrap();
    assert_eq!(j, "[\"x\",\"y\"]");
}

#[test]
fn update_set_from_str_ignores_blank_content() {
    let mut db = temp_db();
    let j = update_set_from_str(&mut db, "s", "   ").unwrap();
    assert_eq!(j, "[]");
    assert!(read_set(&db, "s").unwrap().is_empty());
}

#[test]
fn update_set_from_set_adds_each_trimmed_item() {
    let mut db = temp_db();
    update_set_from_str(&mut db, "s", "a").unwrap();
    let l = vec![" b".to_string(), "".to_string(), "a".to_string(), "c ".to_string()];
    let j = update_set_from_set(&mut db, "s", &l).unwrap();
    assert_eq!(j, "[\"a\",\"b\",\"c\"]");
    assert_eq!(read_set(&db, "s").unwrap(), vec!["a".to_string(), "b".to_string(), "c".to_string()]);
}

#[test]
fn replace_set_from_set_drops_the_old_set() {
    let mut db = temp_db();
    update_set_from_str(&mut db, "s", "old").unwrap();
    let l = vec!["new".to_string()];
    let j = replace_set_from_set(&mut db, "s", &l).unwrap();
    assert_eq!(j, "[\"new\"]");
    assert_eq!(read_set(&db, "s").unwrap(), vec!["new".to_string()]);
}

#[test]
fn del_str_in_set_removes_only_that_item() {
    let mut db = temp_db();
    let l = vec!["a".to_string(), "b".to_string(), "c".to_string()];
    update_set_from_set(&mut db, "s", &l).unwrap();
    del_str_in_set(&mut db, "s", "b").unwrap();
    assert_eq!(read_set(&db, "s").unwrap(), vec!["a".to_string(), "c".to_string()]);
    del_str_in_set(&mut db, "s", "zzz").unwrap();
    assert_eq!(read_set(&db, "s").unwrap(), vec!["a".to_string(), "c".to_string()]);
}

#[test]
fn contain_answer_is_true_only_for_a_yes() {
    assert!(contain_answer(Ok(true)));
    assert!(!contain_answer(Ok(false)));
    assert!(!contain_answer(Err(sled::Error::Unsupported("x".to_string()))));
}

#[test]
fn fetched_text_per_answer() {
    assert_eq!(fetched_text(Ok(Some(b"abc".to_vec()))).unwrap(), "abc");
    assert_eq!(fetched_text(Ok(None)).unwrap(), "");
    assert!(matches!(fetched_text(Ok(Some(vec![0xff]))), Err(RaftError::Utf8(_))));
    assert!(matches!(fetched_text(Err(sled::Error::Unsupported("x".to_string()))), Err(RaftError::Db(_))));
}

#[test]
fn set_from_text_reads_json_arrays_only() {
    let mut v = set_from_text("[\"b\",\"a\",\"b\"]");
    v.sort();
    assert_eq!(v, vec!["a".to_string(), "b".to_string()]);
    assert!(set_from_text("").is_empty());
    assert!(set_from_text("{\"a\":1}").is_empty());
}
