use safe_dns::errors::{Collaborator, DnsError};
use safe_dns::record::{
    copy_owners, is_owner, open_services, record_identifier, seal_services, NamingRecord, DNS_TAG,
};
use safe_dns::service_map::ServiceMap;
use safe_dns::store::RecordStore;
use sodiumoxide::crypto::{box_, sign};

fn encryption_keys() -> ([u8; 32], [u8; 32]) {
    let (public_key, secret_key) = box_::gen_keypair();
    (public_key.0, secret_key.0)
}

fn signing_keys() -> ([u8; 32], [u8; 64]) {
    let (public_key, secret_key) = sign::gen_keypair();
    (public_key.0, secret_key.0)
}

fn name() -> String {
    "example.com".to_string()
}

#[test]
fn identifier_is_the_sha512_digest_of_the_name() {
    let expected: [u8; 64] = [
        2, 5, 6, 233, 182, 94, 192, 73, 226, 39, 224, 162, 93, 250, 250, 132, 235, 252, 142, 179,
        102, 182, 206, 151, 49, 215, 87, 174, 150, 238, 34, 58, 20, 192, 165, 29, 109, 138, 114,
        212, 91, 113, 182, 199, 121, 242, 221, 88, 132, 31, 41, 24, 8, 39, 9, 106, 18, 145, 69,
        197, 188, 246, 8, 230,
    ];
    assert_eq!(record_identifier(&name()), expected);
    assert_eq!(record_identifier(&name()), record_identifier(&name()));
    assert!(record_identifier(&"example.org".to_string()) != expected);
}

#[test]
fn sealed_services_open_with_the_same_key_pair() {
    let keypair = encryption_keys();
    let nonce = [3u8; 24];
    let mut services = ServiceMap::new();
    services.insert("www".to_string(), vec![1, 2, 3]);
    services.insert("blog".to_string(), vec![4, 5]);
    let sealed = seal_services(&services, &keypair, &nonce).unwrap();
    let opened = open_services(&sealed, &nonce, &keypair).unwrap();
    assert_eq!(opened.keys(), vec!["www".to_string(), "blog".to_string()]);
    assert_eq!(opened.get(&"www".to_string()), Some(&vec![1, 2, 3]));
    assert_eq!(opened.get(&"blog".to_string()), Some(&vec![4, 5]));
}

#[test]
fn sealed_services_are_the_encoded_map_plus_an_authenticator() {
    let keypair = encryption_keys();
    let services = ServiceMap::new();
    let sealed = seal_services(&services, &keypair, &[0u8; 24]).unwrap();
    assert_eq!(sealed.len(), 8 + 16);
    assert!(sealed != vec![0u8; 24]);
    let plain = maidsafe_utilities::serialisation::serialise(&Vec::<(String, Vec<Vec<u8>>)>::new());
    assert!(!sealed.ends_with(&plain.unwrap()));
}

#[test]
fn sealing_is_what_the_box_of_the_shared_key_gives() {
    let (public_key, secret_key) = box_::gen_keypair();
    let nonce = box_::gen_nonce();
    let mut services = ServiceMap::new();
    services.insert("www".to_string(), vec![9]);
    let sealed = seal_services(&services, &(public_key.0, secret_key.0), &nonce.0).unwrap();
    let plain: Vec<(String, Vec<Vec<u8>>)> = vec![("www".to_string(), vec![vec![9u8]])];
    let bytes = maidsafe_utilities::serialisation::serialise(&plain).unwrap();
    assert_eq!(sealed, box_::seal(&bytes, &nonce, &public_key, &secret_key));
}

#[test]
fn services_do_not_open_with_another_key_pair_or_nonce() {
    let keypair = encryption_keys();
    let services = ServiceMap::new();
    let sealed = seal_services(&services, &keypair, &[1u8; 24]).unwrap();
    assert_eq!(
        open_services(&sealed, &[1u8; 24], &encryption_keys()).err(),
        Some(DnsError::Underlying(Collaborator::Crypto))
    );
    assert_eq!(
        open_services(&sealed, &[2u8; 24], &keypair).err(),
        Some(DnsError::Underlying(Collaborator::Crypto))
    );
    assert_eq!(
        open_services(&vec![1, 2, 3], &[1u8; 24], &keypair).err(),
        Some(DnsError::Underlying(Collaborator::Crypto))
    );
}

#[test]
fn sealed_bytes_that_hold_no_service_map_are_a_codec_failure() {
    let (public_key, secret_key) = box_::gen_keypair();
    let nonce = box_::gen_nonce();
    let garbage = box_::seal(&[1, 2, 3], &nonce, &public_key, &secret_key);
    assert_eq!(
        open_services(&garbage, &nonce.0, &(public_key.0, secret_key.0)).err(),
        Some(DnsError::Underlying(Collaborator::Codec))
    );
    let two_keys: Vec<(String, Vec<Vec<u8>>)> = vec![("www".to_string(), vec![vec![1], vec![2]])];
    let bytes = maidsafe_utilities::serialisation::serialise(&two_keys).unwrap();
    let sealed = box_::seal(&bytes, &nonce, &public_key, &secret_key);
    assert_eq!(
        open_services(&sealed, &nonce.0, &(public_key.0, secret_key.0)).err(),
        Some(DnsError::Underlying(Collaborator::Codec))
    );
}

#[test]
fn created_record_has_version_zero_and_no_services() {
    let keypair = encryption_keys();
    let (owner, secret_signing_key) = signing_keys();
    let record =
        NamingRecord::create(&name(), vec![owner], &secret_signing_key, &keypair, &[5u8; 24]).unwrap();
    assert_eq!(record.identifier, record_identifier(&name()));
    assert_eq!(record.version, 0);
    assert_eq!(record.owners, vec![owner]);
    assert_eq!(record.nonce, [5u8; 24]);
    assert_eq!(record.services(&keypair).unwrap().len(), 0);
}

#[test]
fn signable_bytes_are_laid_out_part_by_part() {
    let bytes = NamingRecord::signable_bytes(&[1u8; 64], 258, &vec![[2u8; 32], [3u8; 32]], &[4u8; 24], &vec![5, 6]);
    let mut expected: Vec<u8> = Vec::new();
    expected.extend_from_slice(&[1u8; 64]);
    expected.extend_from_slice(&[5, 0, 0, 0, 0, 0, 0, 0]);
    expected.extend_from_slice(&[2, 1, 0, 0, 0, 0, 0, 0]);
    expected.extend_from_slice(&[4u8; 24]);
    expected.extend_from_slice(&[2, 0, 0, 0, 0, 0, 0, 0]);
    expected.extend_from_slice(&[2u8; 32]);
    expected.extend_from_slice(&[3u8; 32]);
    expected.extend_from_slice(&[5, 6]);
    assert_eq!(bytes, expected);
    assert_eq!(DNS_TAG, 5);
}

#[test]
fn record_carries_the_signature_of_its_writer() {
    let keypair = encryption_keys();
    let (public_key, secret_key) = sign::gen_keypair();
    let record =
        NamingRecord::create(&name(), vec![public_key.0], &secret_key.0, &keypair, &[5u8; 24]).unwrap();
    let message = NamingRecord::signable_bytes(
        &record.identifier,
        record.version,
        &record.owners,
        &record.nonce,
        &record.encrypted_service_map,
    );
    let signature = sign::Signature::from_bytes(&record.signature).unwrap();
    assert!(sign::verify_detached(&signature, &message, &public_key));
    assert_eq!(record.signature, sign::sign_detached(&message, &secret_key).to_bytes());
    let (stranger, _) = sign::gen_keypair();
    assert!(!sign::verify_detached(&signature, &message, &stranger));
}

#[test]
fn successor_has_the_next_version_and_the_changed_services() {
    let keypair = encryption_keys();
    let (owner, secret_signing_key) = signing_keys();
    let record =
        NamingRecord::create(&name(), vec![owner], &secret_signing_key, &keypair, &[5u8; 24]).unwrap();
    let next = record
        .with_change(&keypair, &"www".to_string(), Some(&vec![7, 8]), &secret_signing_key, &[6u8; 24])
        .unwrap();
    assert_eq!(next.identifier, record.identifier);
    assert_eq!(next.version, 1);
    assert_eq!(next.owners, record.owners);
    assert_eq!(next.nonce, [6u8; 24]);
    assert!(next.signature != record.signature);
    let services = next.services(&keypair).unwrap();
    assert_eq!(services.keys(), vec!["www".to_string()]);
    assert_eq!(services.get(&"www".to_string()), Some(&vec![7, 8]));
    let last = next
        .with_change(&keypair, &"www".to_string(), None, &secret_signing_key, &[7u8; 24])
        .unwrap();
    assert_eq!(last.version, 2);
    assert_eq!(last.services(&keypair).unwrap().len(), 0);
}

#[test]
fn record_at_the_last_version_has_no_successor() {
    let keypair = encryption_keys();
    let (owner, secret_signing_key) = signing_keys();
    let mut record =
        NamingRecord::create(&name(), vec![owner], &secret_signing_key, &keypair, &[5u8; 24]).unwrap();
    record.version = u64::MAX;
    assert_eq!(
        record.with_change(&keypair, &"www".to_string(), Some(&vec![1]), &secret_signing_key, &[6u8; 24]),
        Err(DnsError::VersionConflict)
    );
}

#[test]
fn successor_needs_the_key_pair_of_the_name() {
    let keypair = encryption_keys();
    let (owner, secret_signing_key) = signing_keys();
    let record =
        NamingRecord::create(&name(), vec![owner], &secret_signing_key, &keypair, &[5u8; 24]).unwrap();
    assert_eq!(
        record.with_change(
            &encryption_keys(),
            &"www".to_string(),
            Some(&vec![1]),
            &secret_signing_key,
            &[6u8; 24]
        ),
        Err(DnsError::Underlying(Collaborator::Crypto))
    );
}

#[test]
fn owners_are_found_by_their_keys() {
    let owners = vec![[1u8; 32], [2u8; 32]];
    assert!(is_owner(&owners, &[1u8; 32]));
    assert!(is_owner(&owners, &[2u8; 32]));
    assert!(!is_owner(&owners, &[3u8; 32]));
    assert!(!is_owner(&Vec::new(), &[1u8; 32]));
    assert_eq!(copy_owners(&owners), owners);
}

#[test]
fn clone_of_a_record_is_equal_to_it() {
    let keypair = encryption_keys();
    let (owner, secret_signing_key) = signing_keys();
    let record =
        NamingRecord::create(&name(), vec![owner], &secret_signing_key, &keypair, &[5u8; 24]).unwrap();
    assert_eq!(record.clone(), record);
}

#[test]
fn store_creates_a_record_once() {
    let keypair = encryption_keys();
    let (owner, secret_signing_key) = signing_keys();
    let record =
        NamingRecord::create(&name(), vec![owner], &secret_signing_key, &keypair, &[5u8; 24]).unwrap();
    let mut store = RecordStore::new();
    assert_eq!(store.get(&record.identifier), None);
    assert_eq!(store.put(record.clone()), Ok(()));
    assert_eq!(store.get(&record.identifier), Some(&record));
    let (other_owner, other_key) = signing_keys();
    let rival =
        NamingRecord::create(&name(), vec![other_owner], &other_key, &encryption_keys(), &[9u8; 24])
            .unwrap();
    assert_eq!(store.put(rival), Err(DnsError::NameAlreadyRegistered));
    assert_eq!(store.get(&record.identifier), Some(&record));
}

#[test]
fn store_takes_the_first_of_two_successors_of_one_version() {
    let keypair = encryption_keys();
    let (owner, secret_signing_key) = signing_keys();
    let record =
        NamingRecord::create(&name(), vec![owner], &secret_signing_key, &keypair, &[5u8; 24]).unwrap();
    let mut store = RecordStore::new();
    store.put(record.clone()).unwrap();
    let first = record
        .with_change(&keypair, &"www".to_string(), Some(&vec![1]), &secret_signing_key, &[6u8; 24])
        .unwrap();
    let second = record
        .with_change(&keypair, &"blog".to_string(), Some(&vec![2]), &secret_signing_key, &[7u8; 24])
        .unwrap();
    assert_eq!(store.post(first.clone(), &owner), Ok(()));
    assert_eq!(store.post(second, &owner), Err(DnsError::VersionConflict));
    assert_eq!(store.get(&record.identifier), Some(&first));
    assert_eq!(store.delete(&record.identifier, 0, &owner), Err(DnsError::VersionConflict));
    assert_eq!(store.post(record.clone(), &owner), Err(DnsError::VersionConflict));
    assert_eq!(store.get(&record.identifier), Some(&first));
    assert_eq!(store.delete(&record.identifier, 1, &owner), Ok(()));
    assert_eq!(store.get(&record.identifier), None);
}

#[test]
fn store_refuses_those_who_are_not_owners() {
    let keypair = encryption_keys();
    let (owner, secret_signing_key) = signing_keys();
    let (stranger, strangers_key) = signing_keys();
    let record =
        NamingRecord::create(&name(), vec![owner], &secret_signing_key, &keypair, &[5u8; 24]).unwrap();
    let mut store = RecordStore::new();
    store.put(record.clone()).unwrap();
    let next = record
        .with_change(&keypair, &"www".to_string(), Some(&vec![1]), &strangers_key, &[6u8; 24])
        .unwrap();
    assert_eq!(store.post(next, &stranger), Err(DnsError::NotAuthorized));
    assert_eq!(store.delete(&record.identifier, 0, &stranger), Err(DnsError::NotAuthorized));
    assert_eq!(store.delete(&record.identifier, 7, &stranger), Err(DnsError::NotAuthorized));
    assert_eq!(store.get(&record.identifier), Some(&record));
}

#[test]
fn store_knows_no_record_that_was_not_created() {
    let keypair = encryption_keys();
    let (owner, secret_signing_key) = signing_keys();
    let record =
        NamingRecord::create(&name(), vec![owner], &secret_signing_key, &keypair, &[5u8; 24]).unwrap();
    let mut store = RecordStore::new();
    assert_eq!(store.post(record.clone(), &owner), Err(DnsError::NameNotFound));
    assert_eq!(store.delete(&record.identifier, 0, &owner), Err(DnsError::NameNotFound));
    assert_eq!(store.get(&record.identifier), None);
}
