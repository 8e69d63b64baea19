use safe_dns::directory::DirectoryListing;
use safe_dns::dns_operations::dns_configuration::{
    configuration_from_plain, configuration_to_plain, find_configuration, forget_configuration,
    get_dns_configuaration_data, has_distinct_names, initialise_dns_configuaration,
    persist_configuration, write_dns_configuaration_data, DnsConfiguation, DNS_CONFIG_DIR_NAME,
    DNS_CONFIG_FILE_NAME,
};
use safe_dns::errors::{Collaborator, DnsError};
use sodiumoxide::crypto::box_;

fn random_name(length: usize) -> String {
    sodiumoxide::randombytes::randombytes(length)
        .iter()
        .map(|byte| (b'a' + byte % 26) as char)
        .collect()
}

fn entry(name: &str, fill: u8) -> DnsConfiguation {
    DnsConfiguation { long_name: name.to_string(), encryption_keypair: ([fill; 32], [fill + 1; 32]) }
}

#[test]
fn read_write_dns_configuration_file() {
    let mut directory = DirectoryListing::new();

    // Initialise Dns Configuration File
    initialise_dns_configuaration(&mut directory).unwrap();

    // Get the Stored Configurations
    let mut config_vec = get_dns_configuaration_data(&directory).unwrap();
    assert_eq!(config_vec.len(), 0);

    let long_name = random_name(10);

    // Put in the 1st record
    let mut keypair = box_::gen_keypair();
    let config_0 = DnsConfiguation {
        long_name: long_name.clone(),
        encryption_keypair: (keypair.0 .0, keypair.1 .0),
    };

    config_vec.push(config_0.clone());
    write_dns_configuaration_data(&mut directory, &config_vec).unwrap();

    // Get the Stored Configurations
    config_vec = get_dns_configuaration_data(&directory).unwrap();
    assert_eq!(config_vec.len(), 1);

    assert_eq!(config_vec[0], config_0);

    // Modify the content
    keypair = box_::gen_keypair();
    let config_1 = DnsConfiguation {
        long_name: long_name,
        encryption_keypair: (keypair.0 .0, keypair.1 .0),
    };

    config_vec[0] = config_1.clone();
    write_dns_configuaration_data(&mut directory, &config_vec).unwrap();

    // Get the Stored Configurations
    config_vec = get_dns_configuaration_data(&directory).unwrap();
    assert_eq!(config_vec.len(), 1);

    assert!(config_vec[0] != config_0);
    assert_eq!(config_vec[0], config_1);

    // Delete Record
    config_vec.clear();
    write_dns_configuaration_data(&mut directory, &config_vec).unwrap();

    // Get the Stored Configurations
    config_vec = get_dns_configuaration_data(&directory).unwrap();
    assert_eq!(config_vec.len(), 0);
}

#[test]
fn written_list_is_read_back_in_order() {
    let mut directory = DirectoryListing::new();
    initialise_dns_configuaration(&mut directory).unwrap();
    let list = vec![entry("example.com", 1), entry("other.org", 3), entry("third.net", 5)];
    assert_eq!(write_dns_configuaration_data(&mut directory, &list), Ok(()));
    assert_eq!(get_dns_configuaration_data(&directory), Ok(list));
}

#[test]
fn empty_list_is_read_back() {
    let mut directory = DirectoryListing::new();
    initialise_dns_configuaration(&mut directory).unwrap();
    assert_eq!(write_dns_configuaration_data(&mut directory, &vec![entry("example.com", 1)]), Ok(()));
    assert_eq!(write_dns_configuaration_data(&mut directory, &Vec::new()), Ok(()));
    assert_eq!(get_dns_configuaration_data(&directory), Ok(Vec::new()));
}

#[test]
fn empty_list_is_encoded_as_its_length() {
    let mut directory = DirectoryListing::new();
    initialise_dns_configuaration(&mut directory).unwrap();
    write_dns_configuaration_data(&mut directory, &Vec::new()).unwrap();
    let content = directory.get(&DNS_CONFIG_FILE_NAME.to_string()).unwrap();
    assert_eq!(content, &vec![0u8; 8]);
}

#[test]
fn one_entry_is_encoded_field_by_field() {
    let mut directory = DirectoryListing::new();
    initialise_dns_configuaration(&mut directory).unwrap();
    write_dns_configuaration_data(&mut directory, &vec![entry("ab", 7)]).unwrap();
    let mut expected: Vec<u8> = Vec::new();
    expected.extend_from_slice(&1u64.to_le_bytes());
    expected.extend_from_slice(&2u64.to_le_bytes());
    expected.extend_from_slice(b"ab");
    expected.extend_from_slice(&2u64.to_le_bytes());
    expected.extend_from_slice(&32u64.to_le_bytes());
    expected.extend_from_slice(&[7u8; 32]);
    expected.extend_from_slice(&32u64.to_le_bytes());
    expected.extend_from_slice(&[8u8; 32]);
    assert_eq!(directory.get(&DNS_CONFIG_FILE_NAME.to_string()).unwrap(), &expected);
}

#[test]
fn initialise_creates_an_empty_file() {
    let mut directory = DirectoryListing::new();
    assert_eq!(initialise_dns_configuaration(&mut directory), Ok(()));
    assert_eq!(directory.len(), 1);
    assert_eq!(directory.get(&DNS_CONFIG_FILE_NAME.to_string()), Some(&Vec::new()));
}

#[test]
fn initialise_twice_keeps_what_was_written() {
    let mut directory = DirectoryListing::new();
    directory.insert("notes".to_string(), vec![1, 2, 3]);
    assert_eq!(initialise_dns_configuaration(&mut directory), Ok(()));
    let list = vec![entry("example.com", 9)];
    write_dns_configuaration_data(&mut directory, &list).unwrap();
    assert_eq!(initialise_dns_configuaration(&mut directory), Ok(()));
    assert_eq!(initialise_dns_configuaration(&mut directory), Ok(()));
    assert_eq!(directory.len(), 2);
    assert_eq!(directory.get(&"notes".to_string()), Some(&vec![1, 2, 3]));
    assert_eq!(get_dns_configuaration_data(&directory), Ok(list));
}

#[test]
fn reading_without_the_file_fails() {
    let directory = DirectoryListing::new();
    assert_eq!(
        get_dns_configuaration_data(&directory),
        Err(DnsError::DnsConfigFileNotFoundOrCorrupted)
    );
}

#[test]
fn writing_without_the_file_fails_and_creates_nothing() {
    let mut directory = DirectoryListing::new();
    assert_eq!(
        write_dns_configuaration_data(&mut directory, &vec![entry("example.com", 1)]),
        Err(DnsError::DnsConfigFileNotFoundOrCorrupted)
    );
    assert_eq!(directory.len(), 0);
}

#[test]
fn writing_a_name_twice_is_refused() {
    let mut directory = DirectoryListing::new();
    initialise_dns_configuaration(&mut directory).unwrap();
    let list = vec![entry("example.com", 1), entry("other.org", 2), entry("example.com", 3)];
    assert_eq!(
        write_dns_configuaration_data(&mut directory, &list),
        Err(DnsError::NameAlreadyRegistered)
    );
    assert_eq!(get_dns_configuaration_data(&directory), Ok(Vec::new()));
}

#[test]
fn undecodable_content_is_a_codec_failure() {
    let mut directory = DirectoryListing::new();
    directory.insert(DNS_CONFIG_FILE_NAME.to_string(), vec![1, 2, 3]);
    assert_eq!(
        get_dns_configuaration_data(&directory),
        Err(DnsError::Underlying(Collaborator::Codec))
    );
}

#[test]
fn content_without_key_pairs_is_corrupted() {
    let plain: Vec<(String, Vec<Vec<u8>>)> = vec![("example.com".to_string(), vec![vec![1u8; 32]])];
    let bytes = maidsafe_utilities::serialisation::serialise(&plain).unwrap();
    let mut directory = DirectoryListing::new();
    directory.insert(DNS_CONFIG_FILE_NAME.to_string(), bytes);
    assert_eq!(
        get_dns_configuaration_data(&directory),
        Err(DnsError::DnsConfigFileNotFoundOrCorrupted)
    );
}

#[test]
fn content_with_short_keys_is_corrupted() {
    let plain: Vec<(String, Vec<Vec<u8>>)> =
        vec![("example.com".to_string(), vec![vec![1u8; 32], vec![2u8; 31]])];
    assert_eq!(configuration_from_plain(&plain), None);
}

#[test]
fn content_with_a_name_twice_is_corrupted() {
    let plain = configuration_to_plain(&vec![entry("example.com", 1), entry("example.com", 3)]);
    assert_eq!(configuration_from_plain(&plain), None);
    let bytes = maidsafe_utilities::serialisation::serialise(&plain).unwrap();
    let mut directory = DirectoryListing::new();
    directory.insert(DNS_CONFIG_FILE_NAME.to_string(), bytes);
    assert_eq!(
        get_dns_configuaration_data(&directory),
        Err(DnsError::DnsConfigFileNotFoundOrCorrupted)
    );
}

#[test]
fn plain_form_holds_public_then_secret_key() {
    let plain = configuration_to_plain(&vec![entry("example.com", 4)]);
    assert_eq!(plain, vec![("example.com".to_string(), vec![vec![4u8; 32], vec![5u8; 32]])]);
    assert_eq!(configuration_from_plain(&plain), Some(vec![entry("example.com", 4)]));
}

#[test]
fn find_configuration_returns_the_first_position() {
    let list = vec![entry("a.b", 1), entry("c.d", 2), entry("c.d", 3)];
    assert_eq!(find_configuration(&list, &"c.d".to_string()), Some(1));
    assert_eq!(find_configuration(&list, &"a.b".to_string()), Some(0));
    assert_eq!(find_configuration(&list, &"e.f".to_string()), None);
}

#[test]
fn distinct_names_are_told_from_repeated_ones() {
    assert!(has_distinct_names(&Vec::new()));
    assert!(has_distinct_names(&vec![entry("a.b", 1), entry("c.d", 1)]));
    assert!(!has_distinct_names(&vec![entry("a.b", 1), entry("c.d", 2), entry("a.b", 3)]));
}

#[test]
fn clone_of_an_entry_is_equal_to_it() {
    let first = entry("example.com", 11);
    assert_eq!(first.clone(), first);
}

#[test]
fn persisted_entries_are_kept_in_the_order_of_their_arrival() {
    let mut directory = DirectoryListing::new();
    initialise_dns_configuaration(&mut directory).unwrap();
    assert_eq!(persist_configuration(&mut directory, entry("example.com", 1)), Ok(()));
    assert_eq!(persist_configuration(&mut directory, entry("other.org", 3)), Ok(()));
    assert_eq!(
        get_dns_configuaration_data(&directory),
        Ok(vec![entry("example.com", 1), entry("other.org", 3)])
    );
}

#[test]
fn persisting_a_name_twice_is_refused() {
    let mut directory = DirectoryListing::new();
    initialise_dns_configuaration(&mut directory).unwrap();
    persist_configuration(&mut directory, entry("example.com", 1)).unwrap();
    assert_eq!(
        persist_configuration(&mut directory, entry("example.com", 5)),
        Err(DnsError::NameAlreadyRegistered)
    );
    assert_eq!(get_dns_configuaration_data(&directory), Ok(vec![entry("example.com", 1)]));
}

#[test]
fn forgetting_drops_the_entry_of_the_name_only() {
    let mut directory = DirectoryListing::new();
    initialise_dns_configuaration(&mut directory).unwrap();
    persist_configuration(&mut directory, entry("example.com", 1)).unwrap();
    persist_configuration(&mut directory, entry("other.org", 3)).unwrap();
    persist_configuration(&mut directory, entry("third.net", 5)).unwrap();
    assert_eq!(forget_configuration(&mut directory, &"other.org".to_string()), Ok(()));
    assert_eq!(
        get_dns_configuaration_data(&directory),
        Ok(vec![entry("example.com", 1), entry("third.net", 5)])
    );
    assert_eq!(forget_configuration(&mut directory, &"other.org".to_string()), Ok(()));
    assert_eq!(
        get_dns_configuaration_data(&directory),
        Ok(vec![entry("example.com", 1), entry("third.net", 5)])
    );
}

#[test]
fn persisting_and_forgetting_need_the_file() {
    let mut directory = DirectoryListing::new();
    assert_eq!(
        persist_configuration(&mut directory, entry("example.com", 1)),
        Err(DnsError::DnsConfigFileNotFoundOrCorrupted)
    );
    assert_eq!(
        forget_configuration(&mut directory, &"example.com".to_string()),
        Err(DnsError::DnsConfigFileNotFoundOrCorrupted)
    );
    assert_eq!(directory.len(), 0);
}

#[test]
fn configuration_lives_under_fixed_names() {
    assert_eq!(DNS_CONFIG_DIR_NAME, "DnsReservedDirectory");
    assert_eq!(DNS_CONFIG_FILE_NAME, "DnsConfigurationFile");
}
