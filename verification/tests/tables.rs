use safe_dns::bytes::{append_bytes, copy_bytes, key_from_bytes, same_bytes};
use safe_dns::service_map::{services_from_plain, services_to_plain, ServiceMap};
use safe_dns::table::{Key, Table};

#[test]
fn new_table_is_empty() {
    let table: Table<String, Vec<u8>> = Table::new();
    assert_eq!(table.len(), 0);
    assert_eq!(table.get(&"www".to_string()), None);
    assert_eq!(table.keys(), Vec::<String>::new());
}

#[test]
fn insert_then_get() {
    let mut services = ServiceMap::new();
    services.insert("www".to_string(), vec![1, 2, 3]);
    services.insert("blog".to_string(), vec![4]);
    assert_eq!(services.len(), 2);
    assert_eq!(services.get(&"www".to_string()), Some(&vec![1, 2, 3]));
    assert_eq!(services.get(&"blog".to_string()), Some(&vec![4]));
    assert_eq!(services.get(&"mail".to_string()), None);
}

#[test]
fn insert_replaces_in_place() {
    let mut services = ServiceMap::new();
    services.insert("www".to_string(), vec![1]);
    services.insert("blog".to_string(), vec![2]);
    services.insert("www".to_string(), vec![3]);
    assert_eq!(services.len(), 2);
    assert_eq!(services.keys(), vec!["www".to_string(), "blog".to_string()]);
    assert_eq!(services.get(&"www".to_string()), Some(&vec![3]));
    assert_eq!(services.find(&"www".to_string()), Some(0));
    assert_eq!(services.find(&"blog".to_string()), Some(1));
}

#[test]
fn remove_drops_only_the_named_entry() {
    let mut services = ServiceMap::new();
    services.insert("www".to_string(), vec![1]);
    services.insert("blog".to_string(), vec![2]);
    services.insert("mail".to_string(), vec![3]);
    assert!(services.remove(&"blog".to_string()));
    assert_eq!(services.keys(), vec!["www".to_string(), "mail".to_string()]);
    assert_eq!(services.get(&"blog".to_string()), None);
    assert_eq!(services.get(&"mail".to_string()), Some(&vec![3]));
}

#[test]
fn remove_of_an_absent_key_changes_nothing() {
    let mut services = ServiceMap::new();
    services.insert("www".to_string(), vec![1]);
    assert!(!services.remove(&"blog".to_string()));
    assert_eq!(services.len(), 1);
    assert_eq!(services.get(&"www".to_string()), Some(&vec![1]));
}

#[test]
fn entry_gives_key_and_value_at_a_position() {
    let mut services = ServiceMap::new();
    services.insert("www".to_string(), vec![1]);
    services.insert("blog".to_string(), vec![2]);
    assert_eq!(services.entry(1), (&"blog".to_string(), &vec![2]));
}

#[test]
fn tables_take_byte_strings_as_keys() {
    let mut table: Table<Vec<u8>, Vec<u8>> = Table::new();
    table.insert(vec![1, 2], vec![10]);
    table.insert(vec![1], vec![20]);
    table.insert(vec![1, 2], vec![30]);
    assert_eq!(table.len(), 2);
    assert_eq!(table.get(&vec![1, 2]), Some(&vec![30]));
    assert_eq!(table.get(&vec![2, 1]), None);
}

#[test]
fn keys_compare_by_content() {
    assert!("www".to_string().same(&"www".to_string()));
    assert!(!"www".to_string().same(&"ww".to_string()));
    assert!(vec![1u8, 2].same(&vec![1u8, 2]));
    assert!(!vec![1u8, 2].same(&vec![1u8, 3]));
    let mut other = [7u8; 64];
    assert!([7u8; 64].same(&other));
    other[63] = 8;
    assert!(![7u8; 64].same(&other));
    assert_eq!("www".to_string().duplicate(), "www".to_string());
    assert_eq!(vec![1u8, 2].duplicate(), vec![1u8, 2]);
    assert_eq!(other.duplicate(), other);
}

#[test]
fn service_map_in_plain_form() {
    let mut services = ServiceMap::new();
    services.insert("www".to_string(), vec![1, 2]);
    services.insert("blog".to_string(), vec![]);
    let plain = services_to_plain(&services);
    assert_eq!(
        plain,
        vec![("www".to_string(), vec![vec![1u8, 2]]), ("blog".to_string(), vec![vec![]])]
    );
    let back = services_from_plain(&plain).unwrap();
    assert_eq!(back.keys(), services.keys());
    assert_eq!(back.get(&"www".to_string()), Some(&vec![1, 2]));
    assert_eq!(back.get(&"blog".to_string()), Some(&vec![]));
}

#[test]
fn plain_form_of_no_service_map() {
    let twice = vec![("www".to_string(), vec![vec![1u8]]), ("www".to_string(), vec![vec![2u8]])];
    assert!(services_from_plain(&twice).is_none());
    let two_keys = vec![("www".to_string(), vec![vec![1u8], vec![2u8]])];
    assert!(services_from_plain(&two_keys).is_none());
    let no_key: Vec<(String, Vec<Vec<u8>>)> = vec![("www".to_string(), vec![])];
    assert!(services_from_plain(&no_key).is_none());
    assert_eq!(services_from_plain(&Vec::new()).unwrap().len(), 0);
}

#[test]
fn byte_helpers() {
    assert!(same_bytes(&[1, 2, 3], &[1, 2, 3]));
    assert!(!same_bytes(&[1, 2, 3], &[1, 2]));
    assert!(!same_bytes(&[1, 2, 3], &[1, 2, 4]));
    assert!(same_bytes(&[], &[]));
    assert_eq!(copy_bytes(&[5, 6]), vec![5, 6]);
    let mut buffer = vec![1u8];
    append_bytes(&mut buffer, &[2, 3]);
    append_bytes(&mut buffer, &[]);
    assert_eq!(buffer, vec![1, 2, 3]);
    assert_eq!(key_from_bytes(&vec![9u8; 32]), Some([9u8; 32]));
    assert_eq!(key_from_bytes(&vec![9u8; 31]), None);
    assert_eq!(key_from_bytes(&vec![9u8; 33]), None);
}
