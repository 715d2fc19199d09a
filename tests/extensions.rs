use webcore::extensions::Extensions;

#[test]
fn insert_into_empty_store_returns_none() {
    let mut e: Extensions<String> = Extensions::new();
    assert_eq!(e.insert(1, "one".to_string()), None);
    assert_eq!(e.get(1), Some(&"one".to_string()));
}

#[test]
fn insert_of_one_type_leaves_other_types_alone() {
    let mut e: Extensions<u32> = Extensions::new();
    assert_eq!(e.get(2), None);
    e.insert(1, 10);
    assert_eq!(e.get(2), None);
    e.insert(2, 20);
    e.insert(1, 11);
    assert_eq!(e.get(2), Some(&20));
}

#[test]
fn second_insert_returns_first_and_get_sees_second() {
    let mut e: Extensions<u32> = Extensions::new();
    assert_eq!(e.insert(7, 1), None);
    assert_eq!(e.insert(7, 2), Some(1));
    assert_eq!(e.get(7), Some(&2));
    assert_eq!(e.insert(7, 3), Some(2));
    assert_eq!(e.get(7), Some(&3));
}

#[test]
fn default_store_is_empty() {
    let e: Extensions<u8> = Extensions::default();
    assert_eq!(e.get(0), None);
    assert_eq!(e.get(u64::MAX), None);
}
