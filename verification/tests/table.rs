use insert_bia::table::MappingTable;

#[test]
fn a_new_table_is_empty() {
    let table = MappingTable::new();
    assert_eq!(table.len(), 0);
    assert_eq!(table.get("report"), None);
}

#[test]
fn what_is_inserted_is_found() {
    let mut table = MappingTable::new();
    table.insert("report".to_string(), 2);
    table.insert("summary".to_string(), 0);
    assert_eq!(table.len(), 2);
    assert_eq!(table.get("report"), Some(2));
    assert_eq!(table.get("summary"), Some(0));
    assert_eq!(table.get("minutes"), None);
    assert_eq!(table.get("Report"), None);
    assert_eq!(table.get(""), None);
}

#[test]
fn the_later_page_overwrites_the_earlier() {
    let mut table = MappingTable::new();
    table.insert("report".to_string(), 2);
    table.insert("report".to_string(), 5);
    assert_eq!(table.len(), 1);
    assert_eq!(table.get("report"), Some(5));
}

#[test]
fn keys_stand_in_the_order_in_which_they_first_came() {
    let mut table = MappingTable::new();
    table.insert("b".to_string(), 1);
    table.insert("a".to_string(), 2);
    table.insert("c".to_string(), 3);
    table.insert("a".to_string(), 4);
    assert_eq!(table.len(), 3);
    assert_eq!(table.key_at(0), "b");
    assert_eq!(table.key_at(1), "a");
    assert_eq!(table.key_at(2), "c");
    assert_eq!(table.page_at(0), 1);
    assert_eq!(table.page_at(1), 4);
    assert_eq!(table.page_at(2), 3);
}

#[test]
fn the_empty_key_is_a_key_like_any_other() {
    let mut table = MappingTable::new();
    table.insert(String::new(), 9);
    assert_eq!(table.get(""), Some(9));
    assert_eq!(table.len(), 1);
}

#[test]
fn the_largest_page_index_is_held() {
    let mut table = MappingTable::new();
    table.insert("last".to_string(), u32::MAX);
    assert_eq!(table.get("last"), Some(u32::MAX));
}
