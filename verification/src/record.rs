//! The record that binds one long name to its sealed service map.

use crate::bytes::{append_bytes, copy_bytes};
use crate::codec::{deserialise, deserialised, lemma_plain_view, restores, serialise, serialised};
use crate::crypto::{open_precomputed, opened, precompute, seal_precomputed, sealed, sha512,
    sha512_digest, shared_key, sign_detached, signature_of, unseals};
use crate::errors::{Collaborator, DnsError};
use crate::keyed::{put, without};
use crate::service_map::{plain_of_services, services_from_plain, services_of_plain,
    services_to_plain, ServiceMap};
use crate::table::Table;
use vstd::bytes::{spec_u64_to_le_bytes, u64_to_le_bytes};
use vstd::prelude::*;
use vstd::string::*;
use vstd::utf8::encode_utf8;

verus! {

/// The type discriminator under which naming records are stored.
pub const DNS_TAG: u64 = 5;

/// A list of public signing keys, each by its view.
pub open spec fn owners_view(owners: Seq<[u8; 32]>) -> Seq<Seq<u8>> {
    Seq::new(owners.len(), |i: int| owners[i]@)
}

/// Where the record of a long name is stored: the digest of the name's bytes.
/// Every client computes the same place for the same name.
pub open spec fn identifier_of(long_name: Seq<char>) -> Seq<u8> {
    sha512_digest(encode_utf8(long_name))
}

/// The service map sealed for a key pair under a nonce; `None` where the codec
/// refuses the map.
pub open spec fn sealed_services(
    services: Seq<(Seq<char>, Seq<u8>)>,
    keypair: (Seq<u8>, Seq<u8>),
    nonce: Seq<u8>,
) -> Option<Seq<u8>> {
    match serialised(plain_of_services(services)) {
        Some(bytes) => Some(sealed(bytes, nonce, shared_key(keypair.0, keypair.1))),
        None => None,
    }
}

/// The service map that a key pair opens: the sealed bytes must be accepted, must
/// decode, and must hold one directory key for each of their distinct names.
pub open spec fn opened_services(
    sealed_map: Seq<u8>,
    nonce: Seq<u8>,
    keypair: (Seq<u8>, Seq<u8>),
) -> Result<Seq<(Seq<char>, Seq<u8>)>, DnsError> {
    match opened(sealed_map, nonce, shared_key(keypair.0, keypair.1)) {
        None => Err(DnsError::Underlying(Collaborator::Crypto)),
        Some(bytes) => match deserialised(bytes) {
            None => Err(DnsError::Underlying(Collaborator::Codec)),
            Some(plain) => match services_of_plain(plain) {
                None => Err(DnsError::Underlying(Collaborator::Codec)),
                Some(services) => Ok(services),
            },
        },
    }
}

/// The codec restores the service map, and the box opens what it seals of it. The
/// map, sealed for the key pair under the nonce, then opens to itself.
pub open spec fn reopens(
    services: Seq<(Seq<char>, Seq<u8>)>,
    keypair: (Seq<u8>, Seq<u8>),
    nonce: Seq<u8>,
) -> bool {
    restores(plain_of_services(services)) && unseals(
        serialised(plain_of_services(services)).unwrap(),
        nonce,
        shared_key(keypair.0, keypair.1),
    )
}

/// A service map that the codec restores and the box unseals is the map that its
/// sealed form opens to.
pub proof fn lemma_reopens(
    services: Seq<(Seq<char>, Seq<u8>)>,
    keypair: (Seq<u8>, Seq<u8>),
    nonce: Seq<u8>,
)
    requires
        crate::keyed::distinct_keys(services),
        reopens(services, keypair, nonce),
    ensures
        sealed_services(services, keypair, nonce) matches Some(sealed_map) && opened_services(
            sealed_map,
            nonce,
            keypair,
        ) == Ok::<Seq<(Seq<char>, Seq<u8>)>, DnsError>(services),
{
    crate::service_map::lemma_services_of_plain(services);
}

/// A service map that opens has no name twice.
pub proof fn lemma_opened_services(sealed_map: Seq<u8>, nonce: Seq<u8>, keypair: (Seq<u8>, Seq<u8>))
    ensures
        opened_services(sealed_map, nonce, keypair) matches Ok(services) ==> crate::keyed::distinct_keys(
            services,
        ),
{
    if let Ok(services) = opened_services(sealed_map, nonce, keypair) {
        let bytes = opened(sealed_map, nonce, shared_key(keypair.0, keypair.1)).unwrap();
        crate::service_map::lemma_services_distinct(deserialised(bytes).unwrap());
    }
}

/// A service map after one change: a directory key bound to the name, or the name
/// dropped.
pub open spec fn changed_services(
    services: Seq<(Seq<char>, Seq<u8>)>,
    name: Seq<char>,
    key: Option<Seq<u8>>,
) -> Seq<(Seq<char>, Seq<u8>)> {
    match key {
        Some(k) => put(services, name, k),
        None => without(services, name),
    }
}

/// The on-network form of one long name.
#[derive(Debug, PartialEq, Eq)]
pub struct NamingRecord {
    /// Where the record is stored.
    pub identifier: [u8; 64],
    /// Counts the changes since the record was created.
    pub version: u64,
    /// The public signing keys of those who may change or delete the record.
    pub owners: Vec<[u8; 32]>,
    /// The nonce under which the service map was sealed.
    pub nonce: [u8; 24],
    /// The service map, sealed with the name's key pair.
    pub encrypted_service_map: Vec<u8>,
    /// The signature of the one who wrote this version.
    pub signature: [u8; 64],
}

/// A naming record as a mathematical value.
pub struct RecordView {
    pub identifier: Seq<u8>,
    pub version: u64,
    pub owners: Seq<Seq<u8>>,
    pub nonce: Seq<u8>,
    pub encrypted_service_map: Seq<u8>,
    pub signature: Seq<u8>,
}

impl View for NamingRecord {
    type V = RecordView;

    open spec fn view(&self) -> RecordView {
        RecordView {
            identifier: self.identifier@,
            version: self.version,
            owners: owners_view(self.owners@),
            nonce: self.nonce@,
            encrypted_service_map: self.encrypted_service_map@,
            signature: self.signature@,
        }
    }
}

impl Clone for NamingRecord {
    fn clone(&self) -> (copy: Self)
        ensures
            copy@ == self@,
    {
        NamingRecord {
            identifier: self.identifier,
            version: self.version,
            owners: copy_owners(&self.owners),
            nonce: self.nonce,
            encrypted_service_map: copy_bytes(self.encrypted_service_map.as_slice()),
            signature: self.signature,
        }
    }
}

/// The bytes that a record's signature covers: everything but the signature, each
/// part of known length or preceded by its count.
pub open spec fn signed_part(
    identifier: Seq<u8>,
    version: u64,
    owners: Seq<Seq<u8>>,
    nonce: Seq<u8>,
    sealed_map: Seq<u8>,
) -> Seq<u8> {
    identifier + spec_u64_to_le_bytes(DNS_TAG) + spec_u64_to_le_bytes(version) + nonce
        + spec_u64_to_le_bytes(owners.len() as u64) + owners.flatten() + sealed_map
}

/// The record with the given content, signed with a secret signing key.
pub open spec fn signed_record(
    identifier: Seq<u8>,
    version: u64,
    owners: Seq<Seq<u8>>,
    nonce: Seq<u8>,
    sealed_map: Seq<u8>,
    secret_signing_key: Seq<u8>,
) -> RecordView {
    RecordView {
        identifier,
        version,
        owners,
        nonce,
        encrypted_service_map: sealed_map,
        signature: signature_of(
            signed_part(identifier, version, owners, nonce, sealed_map),
            secret_signing_key,
        ),
    }
}

/// The first record of a long name: version 0, no services.
pub open spec fn created_record(
    long_name: Seq<char>,
    owners: Seq<Seq<u8>>,
    secret_signing_key: Seq<u8>,
    keypair: (Seq<u8>, Seq<u8>),
    nonce: Seq<u8>,
) -> Result<RecordView, DnsError> {
    match sealed_services(Seq::empty(), keypair, nonce) {
        None => Err(DnsError::Underlying(Collaborator::Codec)),
        Some(sealed_map) => Ok(
            signed_record(identifier_of(long_name), 0, owners, nonce, sealed_map, secret_signing_key),
        ),
    }
}

/// The successor of a record after one change to its services. The service map
/// must open; the version must have a successor; the changed map must seal.
pub open spec fn changed_record(
    record: RecordView,
    keypair: (Seq<u8>, Seq<u8>),
    name: Seq<char>,
    key: Option<Seq<u8>>,
    secret_signing_key: Seq<u8>,
    nonce: Seq<u8>,
) -> Result<RecordView, DnsError> {
    match opened_services(record.encrypted_service_map, record.nonce, keypair) {
        Err(e) => Err(e),
        Ok(services) => if record.version == u64::MAX {
            Err(DnsError::VersionConflict)
        } else {
            match sealed_services(changed_services(services, name, key), keypair, nonce) {
                None => Err(DnsError::Underlying(Collaborator::Codec)),
                Some(sealed_map) => Ok(
                    signed_record(
                        record.identifier,
                        (record.version + 1) as u64,
                        record.owners,
                        nonce,
                        sealed_map,
                        secret_signing_key,
                    ),
                ),
            }
        },
    }
}

/// Where the record of a long name is stored.
pub fn record_identifier(long_name: &String) -> (identifier: [u8; 64])
    ensures
        identifier@ == identifier_of(long_name@),
{
    let bytes = long_name.as_str().as_bytes_vec();
    sha512(&bytes)
}

/// Whether a public signing key is among a record's owners.
pub fn is_owner(owners: &Vec<[u8; 32]>, key: &[u8; 32]) -> (found: bool)
    ensures
        found == owners_view(owners@).contains(key@),
{
    let mut i: usize = 0;
    while i < owners.len()
        invariant
            i <= owners@.len(),
            forall|j: int| 0 <= j < i ==> (#[trigger] owners_view(owners@)[j]) != key@,
        decreases owners.len() - i,
    {
        if crate::bytes::same_bytes(owners[i].as_slice(), key.as_slice()) {
            assert(owners_view(owners@)[i as int] == key@);
            return true;
        }
        i += 1;
    }
    false
}

/// A copy of a list of owners.
pub fn copy_owners(owners: &Vec<[u8; 32]>) -> (out: Vec<[u8; 32]>)
    ensures
        out@ == owners@,
{
    let mut out: Vec<[u8; 32]> = Vec::new();
    let mut i: usize = 0;
    while i < owners.len()
        invariant
            i <= owners@.len(),
            out@ == owners@.subrange(0, i as int),
        decreases owners.len() - i,
    {
        out.push(owners[i]);
        assert(out@ =~= owners@.subrange(0, i + 1));
        i += 1;
    }
    assert(owners@.subrange(0, owners@.len() as int) =~= owners@);
    out
}

/// Seals a service map for a key pair under a nonce.
pub fn seal_services(
    services: &ServiceMap,
    keypair: &([u8; 32], [u8; 32]),
    nonce: &[u8; 24],
) -> (out: Result<Vec<u8>, DnsError>)
    ensures
        match out {
            Ok(sealed_map) => sealed_services(services@, (keypair.0@, keypair.1@), nonce@) == Some(
                sealed_map@,
            ),
            Err(e) => e == DnsError::Underlying(Collaborator::Codec) && sealed_services(
                services@,
                (keypair.0@, keypair.1@),
                nonce@,
            ) is None,
        },
{
    let plain = services_to_plain(services);
    proof {
        lemma_plain_view(plain);
    }
    match serialise(&plain) {
        Err(_) => Err(DnsError::Underlying(Collaborator::Codec)),
        Ok(bytes) => {
            let key = precompute(&keypair.0, &keypair.1);
            Ok(seal_precomputed(&bytes, nonce, &key))
        },
    }
}

/// Opens a sealed service map with a key pair.
pub fn open_services(
    sealed_map: &Vec<u8>,
    nonce: &[u8; 24],
    keypair: &([u8; 32], [u8; 32]),
) -> (out: Result<ServiceMap, DnsError>)
    ensures
        match out {
            Ok(services) => opened_services(sealed_map@, nonce@, (keypair.0@, keypair.1@)) == Ok::<
                Seq<(Seq<char>, Seq<u8>)>,
                DnsError,
            >(services@),
            Err(e) => opened_services(sealed_map@, nonce@, (keypair.0@, keypair.1@)) == Err::<
                Seq<(Seq<char>, Seq<u8>)>,
                DnsError,
            >(e),
        },
{
    let key = precompute(&keypair.0, &keypair.1);
    match open_precomputed(sealed_map, nonce, &key) {
        Err(_) => Err(DnsError::Underlying(Collaborator::Crypto)),
        Ok(bytes) => match deserialise(&bytes) {
            Err(_) => Err(DnsError::Underlying(Collaborator::Codec)),
            Ok(plain) => {
                proof {
                    lemma_plain_view(plain);
                }
                match services_from_plain(&plain) {
                    None => Err(DnsError::Underlying(Collaborator::Codec)),
                    Some(services) => Ok(services),
                }
            },
        },
    }
}

impl NamingRecord {
    /// The bytes that the signature covers.
    pub fn signable_bytes(
        identifier: &[u8; 64],
        version: u64,
        owners: &Vec<[u8; 32]>,
        nonce: &[u8; 24],
        sealed_map: &Vec<u8>,
    ) -> (out: Vec<u8>)
        ensures
            out@ == signed_part(identifier@, version, owners_view(owners@), nonce@, sealed_map@),
    {
        let mut out: Vec<u8> = Vec::new();
        append_bytes(&mut out, identifier.as_slice());
        append_bytes(&mut out, u64_to_le_bytes(DNS_TAG).as_slice());
        append_bytes(&mut out, u64_to_le_bytes(version).as_slice());
        append_bytes(&mut out, nonce.as_slice());
        append_bytes(&mut out, u64_to_le_bytes(owners.len() as u64).as_slice());
        let ghost head = out@;
        let mut i: usize = 0;
        assert(owners_view(owners@).subrange(0, 0).flatten() =~= Seq::<u8>::empty());
        while i < owners.len()
            invariant
                i <= owners@.len(),
                out@ == head + owners_view(owners@).subrange(0, i as int).flatten(),
            decreases owners.len() - i,
        {
            append_bytes(&mut out, owners[i].as_slice());
            proof {
                let done = owners_view(owners@).subrange(0, i as int);
                assert(owners_view(owners@).subrange(0, i + 1) =~= done.push(owners@[i as int]@));
                done.lemma_flatten_push(owners@[i as int]@);
                assert(out@ =~= head + done.push(owners@[i as int]@).flatten());
            }
            i += 1;
        }
        assert(owners_view(owners@).subrange(0, owners@.len() as int) =~= owners_view(owners@));
        append_bytes(&mut out, sealed_map.as_slice());
        out
    }

    /// The record with the given content, signed with a secret signing key.
    pub fn signed(
        identifier: [u8; 64],
        version: u64,
        owners: Vec<[u8; 32]>,
        nonce: [u8; 24],
        sealed_map: Vec<u8>,
        secret_signing_key: &[u8; 64],
    ) -> (record: NamingRecord)
        ensures
            record@ == signed_record(
                identifier@,
                version,
                owners_view(owners@),
                nonce@,
                sealed_map@,
                secret_signing_key@,
            ),
    {
        let message = NamingRecord::signable_bytes(&identifier, version, &owners, &nonce, &sealed_map);
        let signature = sign_detached(&message, secret_signing_key);
        NamingRecord {
            identifier,
            version,
            owners,
            nonce,
            encrypted_service_map: sealed_map,
            signature,
        }
    }

    /// The first record of a long name: version 0 and no services, the empty map
    /// sealed with the name's key pair under the nonce.
    pub fn create(
        long_name: &String,
        owners: Vec<[u8; 32]>,
        secret_signing_key: &[u8; 64],
        keypair: &([u8; 32], [u8; 32]),
        nonce: &[u8; 24],
    ) -> (out: Result<NamingRecord, DnsError>)
        ensures
            match out {
                Ok(record) => created_record(
                    long_name@,
                    owners_view(owners@),
                    secret_signing_key@,
                    (keypair.0@, keypair.1@),
                    nonce@,
                ) == Ok::<RecordView, DnsError>(record@),
                Err(e) => created_record(
                    long_name@,
                    owners_view(owners@),
                    secret_signing_key@,
                    (keypair.0@, keypair.1@),
                    nonce@,
                ) == Err::<RecordView, DnsError>(e),
            },
    {
        let services: ServiceMap = Table::new();
        match seal_services(&services, keypair, nonce) {
            Err(e) => Err(e),
            Ok(sealed_map) => Ok(
                NamingRecord::signed(
                    record_identifier(long_name),
                    0,
                    owners,
                    *nonce,
                    sealed_map,
                    secret_signing_key,
                ),
            ),
        }
    }

    /// The services of the record, opened with the name's key pair.
    pub fn services(&self, keypair: &([u8; 32], [u8; 32])) -> (out: Result<ServiceMap, DnsError>)
        ensures
            match out {
                Ok(services) => opened_services(
                    self@.encrypted_service_map,
                    self@.nonce,
                    (keypair.0@, keypair.1@),
                ) == Ok::<Seq<(Seq<char>, Seq<u8>)>, DnsError>(services@),
                Err(e) => opened_services(
                    self@.encrypted_service_map,
                    self@.nonce,
                    (keypair.0@, keypair.1@),
                ) == Err::<Seq<(Seq<char>, Seq<u8>)>, DnsError>(e),
            },
    {
        open_services(&self.encrypted_service_map, &self.nonce, keypair)
    }

    /// The successor of this record after one change to its services: with
    /// `Some(key)` the service is bound to the key, replacing what it was bound to;
    /// with `None` it is dropped, which changes nothing where it is not there. The
    /// successor has the next version, the same owners, the changed map sealed
    /// under the new nonce, and the signature of the given key.
    pub fn with_change(
        &self,
        keypair: &([u8; 32], [u8; 32]),
        name: &String,
        key: Option<&Vec<u8>>,
        secret_signing_key: &[u8; 64],
        nonce: &[u8; 24],
    ) -> (out: Result<NamingRecord, DnsError>)
        ensures
            match out {
                Ok(record) => changed_record(
                    self@,
                    (keypair.0@, keypair.1@),
                    name@,
                    match key {
                        Some(k) => Some(k@),
                        None => None,
                    },
                    secret_signing_key@,
                    nonce@,
                ) == Ok::<RecordView, DnsError>(record@),
                Err(e) => changed_record(
                    self@,
                    (keypair.0@, keypair.1@),
                    name@,
                    match key {
                        Some(k) => Some(k@),
                        None => None,
                    },
                    secret_signing_key@,
                    nonce@,
                ) == Err::<RecordView, DnsError>(e),
            },
    {
        let mut services = match self.services(keypair) {
            Ok(services) => services,
            Err(e) => {
                return Err(e);
            },
        };
        if self.version == u64::MAX {
            return Err(DnsError::VersionConflict);
        }
        match key {
            Some(k) => {
                services.insert(name.clone(), copy_bytes(k.as_slice()));
            },
            None => {
                let _ = services.remove(name);
            },
        }
        match seal_services(&services, keypair, nonce) {
            Err(e) => Err(e),
            Ok(sealed_map) => Ok(
                NamingRecord::signed(
                    self.identifier,
                    self.version + 1,
                    copy_owners(&self.owners),
                    *nonce,
                    sealed_map,
                    secret_signing_key,
                ),
            ),
        }
    }
}

} // verus!
