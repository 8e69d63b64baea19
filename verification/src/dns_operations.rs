//! The operations on names: registering and deleting a long name, changing and
//! listing its services, and resolving a locator to a home page.

pub mod dns_configuration;

use crate::bytes::copy_bytes;
use crate::crypto::{gen_keypair, gen_nonce, public_signing_key, verifying_key};
use crate::directory::{DirectoryListing, DirectoryStore};
use crate::dns_operations::dns_configuration::{configuration_view, find_configuration,
    get_dns_configuaration_data, initialise_dns_configuaration, initialised,
    lemma_stored_configuration, stored_configuration, DnsConfiguation};
use crate::errors::{Collaborator, DnsError};
use crate::keyed::{has_key, keys, lemma_index_of, lemma_lookup_put, lemma_lookup_without,
    lemma_put_distinct, lemma_without_distinct, lookup, put};
use crate::record::{changed_record, changed_services, created_record, identifier_of, is_owner,
    lemma_opened_services, lemma_reopens, opened_services, owners_view, record_identifier, reopens,
    NamingRecord, RecordView};
use crate::service_map::ServiceMap;
use crate::store::{after_delete, after_put, well_kept, RecordStore};
use crate::url::{parse_url, parsed_url, URL_SCHEME};
use vstd::prelude::*;
use vstd::string::*;

verus! {

/// The file of a service's directory that is its home page.
pub const HOME_PAGE_FILE_NAME: &'static str = "index.html";

/// The key pair that a configuration directory holds for a long name.
pub open spec fn keypair_of(
    configuration: Seq<(Seq<char>, Seq<u8>)>,
    long_name: Seq<char>,
) -> Result<(Seq<u8>, Seq<u8>), DnsError> {
    match stored_configuration(configuration) {
        Err(e) => Err(e),
        Ok(list) => match lookup(list, long_name) {
            None => Err(DnsError::NameNotFound),
            Some(keypair) => Ok(keypair),
        },
    }
}

/// The answer to a registration, and the records after it: the first record of
/// the name is made and then created in the store, which refuses it where the
/// name has a record already.
pub open spec fn registered(
    network: Seq<(Seq<u8>, RecordView)>,
    long_name: Seq<char>,
    owners: Seq<Seq<u8>>,
    secret_signing_key: Seq<u8>,
    keypair: (Seq<u8>, Seq<u8>),
    nonce: Seq<u8>,
) -> (Result<RecordView, DnsError>, Seq<(Seq<u8>, RecordView)>) {
    match created_record(long_name, owners, secret_signing_key, keypair, nonce) {
        Err(e) => (Err(e), network),
        Ok(record) => match after_put(network, record).0 {
            Ok(_) => (Ok(record), after_put(network, record).1),
            Err(e) => (Err(e), network),
        },
    }
}

/// What a registration with the given key pair and nonce returns and leaves
/// behind.
pub open spec fn is_registration(
    before: Seq<(Seq<u8>, RecordView)>,
    long_name: Seq<char>,
    owners: Seq<Seq<u8>>,
    secret_signing_key: Seq<u8>,
    keypair: (Seq<u8>, Seq<u8>),
    nonce: Seq<u8>,
    out: Result<(NamingRecord, DnsConfiguation), DnsError>,
    after: Seq<(Seq<u8>, RecordView)>,
) -> bool {
    let expected = registered(before, long_name, owners, secret_signing_key, keypair, nonce);
    &&& after == expected.1
    &&& match out {
        Ok((record, entry)) => expected.0 == Ok::<RecordView, DnsError>(record@) && entry@ == (
            long_name,
            keypair,
        ),
        Err(e) => expected.0 == Err::<RecordView, DnsError>(e),
    }
}

/// The answer to a deletion, and the records after it: the name must have a
/// record, and the store must let the signer delete it at its current version.
pub open spec fn deleted(
    network: Seq<(Seq<u8>, RecordView)>,
    long_name: Seq<char>,
    secret_signing_key: Seq<u8>,
) -> (Result<(), DnsError>, Seq<(Seq<u8>, RecordView)>) {
    match lookup(network, identifier_of(long_name)) {
        None => (Err(DnsError::NameNotFound), network),
        Some(record) => after_delete(
            network,
            identifier_of(long_name),
            record.version,
            verifying_key(secret_signing_key),
        ),
    }
}

/// The answer to a change of one service, and the records after it. The name
/// must have a record; the signer must be one of its owners; the configuration
/// must hold the name's key pair; the record must have a successor. The
/// successor then takes the record's place.
pub open spec fn changed(
    network: Seq<(Seq<u8>, RecordView)>,
    configuration: Seq<(Seq<char>, Seq<u8>)>,
    long_name: Seq<char>,
    service: Seq<char>,
    key: Option<Seq<u8>>,
    secret_signing_key: Seq<u8>,
    nonce: Seq<u8>,
) -> (Result<RecordView, DnsError>, Seq<(Seq<u8>, RecordView)>) {
    match lookup(network, identifier_of(long_name)) {
        None => (Err(DnsError::NameNotFound), network),
        Some(record) => if !record.owners.contains(verifying_key(secret_signing_key)) {
            (Err(DnsError::NotAuthorized), network)
        } else {
            match keypair_of(configuration, long_name) {
                Err(e) => (Err(e), network),
                Ok(keypair) => match changed_record(
                    record,
                    keypair,
                    service,
                    key,
                    secret_signing_key,
                    nonce,
                ) {
                    Err(e) => (Err(e), network),
                    Ok(next) => (Ok(next), put(network, identifier_of(long_name), next)),
                },
            }
        },
    }
}

/// What a change of one service under the given nonce returns and leaves behind.
pub open spec fn is_change(
    before: Seq<(Seq<u8>, RecordView)>,
    configuration: Seq<(Seq<char>, Seq<u8>)>,
    long_name: Seq<char>,
    service: Seq<char>,
    key: Option<Seq<u8>>,
    secret_signing_key: Seq<u8>,
    nonce: Seq<u8>,
    out: Result<NamingRecord, DnsError>,
    after: Seq<(Seq<u8>, RecordView)>,
) -> bool {
    let expected = changed(before, configuration, long_name, service, key, secret_signing_key, nonce);
    &&& after == expected.1
    &&& match out {
        Ok(record) => expected.0 == Ok::<RecordView, DnsError>(record@),
        Err(e) => expected.0 == Err::<RecordView, DnsError>(e),
    }
}

/// The services of a long name: its record must be there, the configuration must
/// hold its key pair, and the key pair must open the record's service map.
pub open spec fn services_of_name(
    network: Seq<(Seq<u8>, RecordView)>,
    configuration: Seq<(Seq<char>, Seq<u8>)>,
    long_name: Seq<char>,
) -> Result<Seq<(Seq<char>, Seq<u8>)>, DnsError> {
    match lookup(network, identifier_of(long_name)) {
        None => Err(DnsError::NameNotFound),
        Some(record) => match keypair_of(configuration, long_name) {
            Err(e) => Err(e),
            Ok(keypair) => opened_services(record.encrypted_service_map, record.nonce, keypair),
        },
    }
}

/// The directory key of a service of a long name.
pub open spec fn resolved(
    network: Seq<(Seq<u8>, RecordView)>,
    configuration: Seq<(Seq<char>, Seq<u8>)>,
    long_name: Seq<char>,
    service: Seq<char>,
) -> Result<Seq<u8>, DnsError> {
    match services_of_name(network, configuration, long_name) {
        Err(e) => Err(e),
        Ok(services) => match lookup(services, service) {
            None => Err(DnsError::ServiceNotFound),
            Some(key) => Ok(key),
        },
    }
}

/// The home page in a directory: the content of the file of that name.
pub open spec fn home_page_of(listing: Seq<(Seq<char>, Seq<u8>)>) -> Result<Seq<u8>, DnsError> {
    match lookup(listing, HOME_PAGE_FILE_NAME@) {
        None => Err(DnsError::HomePageNotFound),
        Some(content) => Ok(content),
    }
}

/// The home page that a locator leads to: the locator is read, its service is
/// resolved to a directory key, the directory under that key is fetched, and its
/// home page is read.
pub open spec fn home_page(
    network: Seq<(Seq<u8>, RecordView)>,
    configuration: Seq<(Seq<char>, Seq<u8>)>,
    directories: Seq<(Seq<u8>, Seq<(Seq<char>, Seq<u8>)>)>,
    raw_url: Seq<char>,
) -> Result<Seq<u8>, DnsError> {
    match parsed_url(raw_url, URL_SCHEME@) {
        None => Err(DnsError::MalformedUrl),
        Some((long_name, service)) => match resolved(network, configuration, long_name, service) {
            Err(e) => Err(e),
            Ok(key) => match lookup(directories, key) {
                None => Err(DnsError::Underlying(Collaborator::Storage)),
                Some(listing) => home_page_of(listing),
            },
        },
    }
}

/// A long name is registered once: after a registration that succeeded, every
/// further registration of the name is refused, whoever asks and with whatever
/// keys, because the name is registered already.
pub proof fn lemma_registered_once(
    network: Seq<(Seq<u8>, RecordView)>,
    long_name: Seq<char>,
    first: (Seq<Seq<u8>>, Seq<u8>, (Seq<u8>, Seq<u8>), Seq<u8>),
    second: (Seq<Seq<u8>>, Seq<u8>, (Seq<u8>, Seq<u8>), Seq<u8>),
)
    requires
        well_kept(network),
        registered(network, long_name, first.0, first.1, first.2, first.3).0 is Ok,
    ensures
        registered(
            registered(network, long_name, first.0, first.1, first.2, first.3).1,
            long_name,
            second.0,
            second.1,
            second.2,
            second.3,
        ) == (
            Err::<RecordView, DnsError>(DnsError::NameAlreadyRegistered),
            registered(network, long_name, first.0, first.1, first.2, first.3).1,
        ),
{
    let record = created_record(long_name, first.0, first.1, first.2, first.3).unwrap();
    let again = created_record(long_name, second.0, second.1, second.2, second.3).unwrap();
    crate::store::lemma_created_once(network, record, again);
}

/// Whoever is not among the owners of a name's record can neither change its
/// services nor delete it: the answer is that the signer is not authorized, and
/// the records stay as they were.
pub proof fn lemma_only_owners_change(
    network: Seq<(Seq<u8>, RecordView)>,
    configuration: Seq<(Seq<char>, Seq<u8>)>,
    long_name: Seq<char>,
    service: Seq<char>,
    key: Option<Seq<u8>>,
    secret_signing_key: Seq<u8>,
    nonce: Seq<u8>,
)
    requires
        lookup(network, identifier_of(long_name)) matches Some(record) && !record.owners.contains(
            verifying_key(secret_signing_key),
        ),
    ensures
        changed(network, configuration, long_name, service, key, secret_signing_key, nonce) == (
            Err::<RecordView, DnsError>(DnsError::NotAuthorized),
            network,
        ),
        deleted(network, long_name, secret_signing_key) == (
            Err::<(), DnsError>(DnsError::NotAuthorized),
            network,
        ),
{
}

/// A long name that was deleted is not found, whatever service is asked for, and
/// can be registered anew.
pub proof fn lemma_deleted_name(
    network: Seq<(Seq<u8>, RecordView)>,
    configuration: Seq<(Seq<char>, Seq<u8>)>,
    long_name: Seq<char>,
    secret_signing_key: Seq<u8>,
    service: Seq<char>,
)
    requires
        well_kept(network),
        deleted(network, long_name, secret_signing_key).0 is Ok,
    ensures
        resolved(
            deleted(network, long_name, secret_signing_key).1,
            configuration,
            long_name,
            service,
        ) == Err::<Seq<u8>, DnsError>(DnsError::NameNotFound),
        !has_key(deleted(network, long_name, secret_signing_key).1, identifier_of(long_name)),
{
    lemma_lookup_without(network, identifier_of(long_name), identifier_of(long_name));
}

/// A change that succeeded leaves the name with the changed service map,
/// provided that the codec restores the changed map and the box opens what it
/// seals of it. Then a service that was added resolves to the directory key it
/// was bound to, a service that was dropped is not found, every other service
/// resolves as before, and dropping a service that was not there leaves the
/// services as they were.
pub proof fn lemma_changed_services(
    network: Seq<(Seq<u8>, RecordView)>,
    configuration: Seq<(Seq<char>, Seq<u8>)>,
    long_name: Seq<char>,
    service: Seq<char>,
    key: Option<Seq<u8>>,
    secret_signing_key: Seq<u8>,
    nonce: Seq<u8>,
    other: Seq<char>,
)
    requires
        well_kept(network),
        changed(network, configuration, long_name, service, key, secret_signing_key, nonce).0 is Ok,
        services_of_name(network, configuration, long_name) matches Ok(services) && keypair_of(
            configuration,
            long_name,
        ) matches Ok(keypair) && reopens(changed_services(services, service, key), keypair, nonce),
    ensures
        ({
            let after = changed(
                network,
                configuration,
                long_name,
                service,
                key,
                secret_signing_key,
                nonce,
            ).1;
            let services = services_of_name(network, configuration, long_name).unwrap();
            &&& services_of_name(after, configuration, long_name) == Ok::<
                Seq<(Seq<char>, Seq<u8>)>,
                DnsError,
            >(changed_services(services, service, key))
            &&& resolved(after, configuration, long_name, service) == match key {
                Some(k) => Ok::<Seq<u8>, DnsError>(k),
                None => Err::<Seq<u8>, DnsError>(DnsError::ServiceNotFound),
            }
            &&& other != service ==> resolved(after, configuration, long_name, other) == resolved(
                network,
                configuration,
                long_name,
                other,
            )
            &&& key is None && !has_key(services, service) ==> changed_services(services, service, key)
                == services
        }),
{
    let identifier = identifier_of(long_name);
    let record = lookup(network, identifier).unwrap();
    let keypair = keypair_of(configuration, long_name).unwrap();
    let next = changed_record(record, keypair, service, key, secret_signing_key, nonce).unwrap();
    let services = services_of_name(network, configuration, long_name).unwrap();
    lemma_lookup_put(network, identifier, next, identifier);
    lemma_opened_services(record.encrypted_service_map, record.nonce, keypair);
    match key {
        Some(k) => lemma_put_distinct(services, service, k),
        None => lemma_without_distinct(services, service),
    }
    lemma_reopens(changed_services(services, service, key), keypair, nonce);
    match key {
        Some(k) => {
            lemma_lookup_put(services, service, k, other);
        },
        None => {
            lemma_lookup_without(services, service, other);
        },
    }
}

/// The home page in a directory.
pub fn read_home_page(listing: &DirectoryListing) -> (out: Result<Vec<u8>, DnsError>)
    ensures
        match out {
            Ok(content) => home_page_of(listing@) == Ok::<Seq<u8>, DnsError>(content@),
            Err(e) => home_page_of(listing@) == Err::<Seq<u8>, DnsError>(e),
        },
{
    let name = String::from_str(HOME_PAGE_FILE_NAME);
    match listing.get(&name) {
        None => Err(DnsError::HomePageNotFound),
        Some(content) => Ok(copy_bytes(content.as_slice())),
    }
}

/// An account's handle on names: the records of the network, and the account's
/// own configuration directory.
pub struct DnsOperations {
    pub network: RecordStore,
    pub configuration: DirectoryListing,
}

impl DnsOperations {
    /// A handle on the given records and configuration directory, the directory
    /// made ready.
    pub fn new(
        network: RecordStore,
        configuration: DirectoryListing,
    ) -> (out: Result<DnsOperations, DnsError>)
        ensures
            out matches Ok(operations) && operations.network@ == network@
                && operations.configuration@ == initialised(configuration@),
    {
        let mut operations = DnsOperations { network, configuration };
        match initialise_dns_configuaration(&mut operations.configuration) {
            Ok(_) => Ok(operations),
            Err(e) => Err(e),
        }
    }

    /// The key pair that the configuration holds for a long name.
    pub fn encryption_keypair(
        &self,
        long_name: &String,
    ) -> (out: Result<([u8; 32], [u8; 32]), DnsError>)
        ensures
            match out {
                Ok(keypair) => keypair_of(self.configuration@, long_name@) == Ok::<
                    (Seq<u8>, Seq<u8>),
                    DnsError,
                >((keypair.0@, keypair.1@)),
                Err(e) => keypair_of(self.configuration@, long_name@) == Err::<
                    (Seq<u8>, Seq<u8>),
                    DnsError,
                >(e),
            },
    {
        let list = match get_dns_configuaration_data(&self.configuration) {
            Ok(list) => list,
            Err(e) => {
                return Err(e);
            },
        };
        proof {
            lemma_stored_configuration(self.configuration@);
        }
        match find_configuration(&list, long_name) {
            None => Err(DnsError::NameNotFound),
            Some(i) => {
                proof {
                    assert(configuration_view(list@)[i as int].0 == long_name@);
                    lemma_index_of(configuration_view(list@), long_name@, i as int);
                }
                Ok((list[i].encryption_keypair.0, list[i].encryption_keypair.1))
            },
        }
    }

    /// Registers a long name with the given key pair and nonce. Returns the record
    /// and the configuration entry that the caller has yet to persist.
    pub fn register_with(
        &mut self,
        long_name: &String,
        owners: Vec<[u8; 32]>,
        secret_signing_key: &[u8; 64],
        keypair: ([u8; 32], [u8; 32]),
        nonce: &[u8; 24],
    ) -> (out: Result<(NamingRecord, DnsConfiguation), DnsError>)
        ensures
            is_registration(
                old(self).network@,
                long_name@,
                owners_view(owners@),
                secret_signing_key@,
                (keypair.0@, keypair.1@),
                nonce@,
                out,
                final(self).network@,
            ),
            final(self).configuration@ == old(self).configuration@,
    {
        let record = match NamingRecord::create(long_name, owners, secret_signing_key, &keypair, nonce) {
            Ok(record) => record,
            Err(e) => {
                return Err(e);
            },
        };
        let copy = record.clone();
        match self.network.put(record) {
            Err(e) => Err(e),
            Ok(_) => Ok(
                (copy, DnsConfiguation { long_name: long_name.clone(), encryption_keypair: keypair }),
            ),
        }
    }

    /// Registers a long name: draws a fresh key pair for its service map, and
    /// creates its first record, without services, owned by `owners` and signed
    /// with the given key. A name that has a record already is refused. Returns
    /// the record and the configuration entry that the caller has yet to persist.
    pub fn register(
        &mut self,
        long_name: &String,
        owners: Vec<[u8; 32]>,
        secret_signing_key: &[u8; 64],
    ) -> (out: Result<(NamingRecord, DnsConfiguation), DnsError>)
        ensures
            exists|keypair: (Seq<u8>, Seq<u8>), nonce: Seq<u8>|
                keypair.0.len() == 32 && keypair.1.len() == 32 && nonce.len() == 24
                    && #[trigger] is_registration(
                    old(self).network@,
                    long_name@,
                    owners_view(owners@),
                    secret_signing_key@,
                    keypair,
                    nonce,
                    out,
                    final(self).network@,
                ),
            final(self).configuration@ == old(self).configuration@,
    {
        let keypair = gen_keypair();
        let nonce = gen_nonce();
        let ghost before = self.network@;
        let ghost owner_keys = owners_view(owners@);
        let out = self.register_with(long_name, owners, secret_signing_key, keypair, &nonce);
        assert(is_registration(
            before,
            long_name@,
            owner_keys,
            secret_signing_key@,
            (keypair.0@, keypair.1@),
            nonce@,
            out,
            self.network@,
        ));
        out
    }

    /// Deletes the record of a long name at its current version, on behalf of the
    /// holder of the signing key.
    pub fn delete(
        &mut self,
        long_name: &String,
        secret_signing_key: &[u8; 64],
    ) -> (out: Result<(), DnsError>)
        ensures
            (out, final(self).network@) == deleted(
                old(self).network@,
                long_name@,
                secret_signing_key@,
            ),
            final(self).configuration@ == old(self).configuration@,
    {
        let identifier = record_identifier(long_name);
        let version = match self.network.get(&identifier) {
            None => {
                return Err(DnsError::NameNotFound);
            },
            Some(record) => record.version,
        };
        let signer = public_signing_key(secret_signing_key);
        self.network.delete(&identifier, version, &signer)
    }

    /// Changes one service of a long name under the given nonce: with `Some(key)`
    /// the service is bound to the directory key, in place of what it was bound
    /// to; with `None` it is dropped, which succeeds also where it is not there.
    /// Returns the record's successor, which has taken its place.
    pub fn change_service(
        &mut self,
        long_name: &String,
        service: &String,
        key: Option<&Vec<u8>>,
        secret_signing_key: &[u8; 64],
        nonce: &[u8; 24],
    ) -> (out: Result<NamingRecord, DnsError>)
        ensures
            is_change(
                old(self).network@,
                old(self).configuration@,
                long_name@,
                service@,
                match key {
                    Some(k) => Some(k@),
                    None => None,
                },
                secret_signing_key@,
                nonce@,
                out,
                final(self).network@,
            ),
            final(self).configuration@ == old(self).configuration@,
    {
        let identifier = record_identifier(long_name);
        let signer = public_signing_key(secret_signing_key);
        let current = match self.network.get(&identifier) {
            None => {
                return Err(DnsError::NameNotFound);
            },
            Some(record) => record,
        };
        if !is_owner(&current.owners, &signer) {
            return Err(DnsError::NotAuthorized);
        }
        let keypair = match self.encryption_keypair(long_name) {
            Ok(keypair) => keypair,
            Err(e) => {
                return Err(e);
            },
        };
        let next = match current.with_change(&keypair, service, key, secret_signing_key, nonce) {
            Ok(next) => next,
            Err(e) => {
                return Err(e);
            },
        };
        let copy = next.clone();
        match self.network.post(next, &signer) {
            Ok(_) => Ok(copy),
            Err(e) => Err(e),
        }
    }

    /// Binds a service of a long name to a directory key, under a fresh nonce. A
    /// service of that name is replaced without notice.
    pub fn add_service(
        &mut self,
        long_name: &String,
        service: &String,
        directory_key: &Vec<u8>,
        secret_signing_key: &[u8; 64],
    ) -> (out: Result<NamingRecord, DnsError>)
        ensures
            exists|nonce: Seq<u8>|
                nonce.len() == 24 && #[trigger] is_change(
                    old(self).network@,
                    old(self).configuration@,
                    long_name@,
                    service@,
                    Some(directory_key@),
                    secret_signing_key@,
                    nonce,
                    out,
                    final(self).network@,
                ),
            final(self).configuration@ == old(self).configuration@,
    {
        let nonce = gen_nonce();
        let ghost before = self.network@;
        let out = self.change_service(long_name, service, Some(directory_key), secret_signing_key, &nonce);
        assert(is_change(
            before,
            self.configuration@,
            long_name@,
            service@,
            Some(directory_key@),
            secret_signing_key@,
            nonce@,
            out,
            self.network@,
        ));
        out
    }

    /// Drops a service of a long name, under a fresh nonce. Dropping a service
    /// that is not there succeeds, and leaves the services as they were.
    pub fn remove_service(
        &mut self,
        long_name: &String,
        service: &String,
        secret_signing_key: &[u8; 64],
    ) -> (out: Result<NamingRecord, DnsError>)
        ensures
            exists|nonce: Seq<u8>|
                nonce.len() == 24 && #[trigger] is_change(
                    old(self).network@,
                    old(self).configuration@,
                    long_name@,
                    service@,
                    None,
                    secret_signing_key@,
                    nonce,
                    out,
                    final(self).network@,
                ),
            final(self).configuration@ == old(self).configuration@,
    {
        let nonce = gen_nonce();
        let ghost before = self.network@;
        let out = self.change_service(long_name, service, None, secret_signing_key, &nonce);
        assert(is_change(
            before,
            self.configuration@,
            long_name@,
            service@,
            None,
            secret_signing_key@,
            nonce@,
            out,
            self.network@,
        ));
        out
    }

    /// The long names that the configuration holds, in its order.
    pub fn list_registered_names(&self) -> (out: Result<Vec<String>, DnsError>)
        ensures
            match out {
                Ok(names) => stored_configuration(self.configuration@) matches Ok(list)
                    && names.deep_view() == keys(list),
                Err(e) => stored_configuration(self.configuration@) == Err::<
                    Seq<(Seq<char>, (Seq<u8>, Seq<u8>))>,
                    DnsError,
                >(e),
            },
    {
        let list = match get_dns_configuaration_data(&self.configuration) {
            Ok(list) => list,
            Err(e) => {
                return Err(e);
            },
        };
        let mut names: Vec<String> = Vec::new();
        let mut i: usize = 0;
        while i < list.len()
            invariant
                i <= list@.len(),
                names@.len() == i,
                forall|j: int| 0 <= j < i ==> (#[trigger] names@[j])@ == list@[j].long_name@,
            decreases list.len() - i,
        {
            names.push(list[i].long_name.clone());
            i += 1;
        }
        assert(names.deep_view() =~= keys(configuration_view(list@)));
        Ok(names)
    }

    /// The service map of a long name, opened with the key pair that the
    /// configuration holds for it.
    pub fn service_map(&self, long_name: &String) -> (out: Result<ServiceMap, DnsError>)
        ensures
            match out {
                Ok(services) => services_of_name(self.network@, self.configuration@, long_name@)
                    == Ok::<Seq<(Seq<char>, Seq<u8>)>, DnsError>(services@),
                Err(e) => services_of_name(self.network@, self.configuration@, long_name@) == Err::<
                    Seq<(Seq<char>, Seq<u8>)>,
                    DnsError,
                >(e),
            },
    {
        let identifier = record_identifier(long_name);
        let record = match self.network.get(&identifier) {
            None => {
                return Err(DnsError::NameNotFound);
            },
            Some(record) => record,
        };
        let keypair = match self.encryption_keypair(long_name) {
            Ok(keypair) => keypair,
            Err(e) => {
                return Err(e);
            },
        };
        record.services(&keypair)
    }

    /// The names of the services of a long name, in the order of its service map.
    pub fn list_services(&self, long_name: &String) -> (out: Result<Vec<String>, DnsError>)
        ensures
            match out {
                Ok(names) => services_of_name(self.network@, self.configuration@, long_name@)
                    matches Ok(services) && names.deep_view() == keys(services),
                Err(e) => services_of_name(self.network@, self.configuration@, long_name@) == Err::<
                    Seq<(Seq<char>, Seq<u8>)>,
                    DnsError,
                >(e),
            },
    {
        match self.service_map(long_name) {
            Err(e) => Err(e),
            Ok(services) => {
                let names = services.keys();
                assert(names.deep_view() =~= keys(services@));
                Ok(names)
            },
        }
    }

    /// The directory key of a service of a long name.
    pub fn resolve(&self, long_name: &String, service: &String) -> (out: Result<Vec<u8>, DnsError>)
        ensures
            match out {
                Ok(key) => resolved(self.network@, self.configuration@, long_name@, service@) == Ok::<
                    Seq<u8>,
                    DnsError,
                >(key@),
                Err(e) => resolved(self.network@, self.configuration@, long_name@, service@) == Err::<
                    Seq<u8>,
                    DnsError,
                >(e),
            },
    {
        match self.service_map(long_name) {
            Err(e) => Err(e),
            Ok(services) => match services.get(service) {
                None => Err(DnsError::ServiceNotFound),
                Some(key) => Ok(copy_bytes(key.as_slice())),
            },
        }
    }

    /// The home page that a locator leads to, read from the given directories.
    pub fn fetch_home_page(
        &self,
        raw_url: &str,
        directories: &DirectoryStore,
    ) -> (out: Result<Vec<u8>, DnsError>)
        ensures
            match out {
                Ok(content) => home_page(
                    self.network@,
                    self.configuration@,
                    directories@,
                    raw_url@,
                ) == Ok::<Seq<u8>, DnsError>(content@),
                Err(e) => home_page(self.network@, self.configuration@, directories@, raw_url@)
                    == Err::<Seq<u8>, DnsError>(e),
            },
    {
        let (long_name, service) = match parse_url(raw_url) {
            Ok(parts) => parts,
            Err(e) => {
                return Err(e);
            },
        };
        let key = match self.resolve(&long_name, &service) {
            Ok(key) => key,
            Err(e) => {
                return Err(e);
            },
        };
        match directories.get(&key) {
            None => Err(DnsError::Underlying(Collaborator::Storage)),
            Some(listing) => read_home_page(listing),
        }
    }
}

} // verus!
