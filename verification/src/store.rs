//! The rules under which naming records are created, replaced and deleted.
//!
//! At most one record lives under an identifier. A record is created only where
//! none is; it is replaced or deleted only by one of its owners, and only by a
//! request made against the version that is current.

use crate::errors::DnsError;
use crate::keyed::{distinct_keys, has_key, index_of, lemma_lookup_put, lemma_put_distinct,
    lemma_without_distinct, lookup, put, without};
use crate::record::{changed_record, is_owner, NamingRecord, RecordView};
use crate::table::Table;
use vstd::prelude::*;

verus! {

/// Whether `signer` may replace or delete the record that is current, by a
/// request made against the version `observed`: there must be a record, the
/// signer must be among its owners, and the version must still be the observed
/// one. The first of the three that fails names the error.
pub open spec fn may_change(
    current: Option<RecordView>,
    signer: Seq<u8>,
    observed: int,
) -> Result<(), DnsError> {
    match current {
        None => Err(DnsError::NameNotFound),
        Some(record) => if !record.owners.contains(signer) {
            Err(DnsError::NotAuthorized)
        } else if observed != record.version {
            Err(DnsError::VersionConflict)
        } else {
            Ok(())
        },
    }
}

/// The answer to a request to create a record, and the records after it.
pub open spec fn after_put(
    records: Seq<(Seq<u8>, RecordView)>,
    record: RecordView,
) -> (Result<(), DnsError>, Seq<(Seq<u8>, RecordView)>) {
    if has_key(records, record.identifier) {
        (Err(DnsError::NameAlreadyRegistered), records)
    } else {
        (Ok(()), put(records, record.identifier, record))
    }
}

/// The answer to a request to replace a record by its successor, and the records
/// after it. The successor was made against the version before its own.
pub open spec fn after_post(
    records: Seq<(Seq<u8>, RecordView)>,
    record: RecordView,
    signer: Seq<u8>,
) -> (Result<(), DnsError>, Seq<(Seq<u8>, RecordView)>) {
    match may_change(lookup(records, record.identifier), signer, record.version - 1) {
        Ok(_) => (Ok(()), put(records, record.identifier, record)),
        Err(e) => (Err(e), records),
    }
}

/// The answer to a request to delete the record under an identifier at a version,
/// and the records after it.
pub open spec fn after_delete(
    records: Seq<(Seq<u8>, RecordView)>,
    identifier: Seq<u8>,
    version: u64,
    signer: Seq<u8>,
) -> (Result<(), DnsError>, Seq<(Seq<u8>, RecordView)>) {
    match may_change(lookup(records, identifier), signer, version as int) {
        Ok(_) => (Ok(()), without(records, identifier)),
        Err(e) => (Err(e), records),
    }
}

/// Every record is kept under its own identifier, and no identifier twice.
pub open spec fn well_kept(records: Seq<(Seq<u8>, RecordView)>) -> bool {
    &&& distinct_keys(records)
    &&& forall|i: int| 0 <= i < records.len() ==> (#[trigger] records[i]).0 == records[i].1.identifier
}

/// A store of naming records that follows these rules.
pub struct RecordStore {
    records: Table<[u8; 64], NamingRecord>,
}

impl View for RecordStore {
    type V = Seq<(Seq<u8>, RecordView)>;

    closed spec fn view(&self) -> Self::V {
        self.records@
    }
}

impl RecordStore {
    /// The invariant of the store.
    #[verifier::type_invariant]
    pub open spec fn wf(&self) -> bool {
        well_kept(self@)
    }

    /// The store without records.
    pub fn new() -> (store: RecordStore)
        ensures
            store@ == Seq::<(Seq<u8>, RecordView)>::empty(),
    {
        RecordStore { records: Table::new() }
    }

    /// The record under an identifier.
    pub fn get(&self, identifier: &[u8; 64]) -> (record: Option<&NamingRecord>)
        ensures
            match record {
                Some(r) => lookup(self@, identifier@) == Some(r@) && r@.identifier == identifier@,
                None => lookup(self@, identifier@) is None,
            },
    {
        proof {
            use_type_invariant(self);
        }
        self.records.get(identifier)
    }

    /// Creates a record, unless one lives under its identifier already.
    pub fn put(&mut self, record: NamingRecord) -> (out: Result<(), DnsError>)
        ensures
            (out, final(self)@) == after_put(old(self)@, record@),
    {
        proof {
            use_type_invariant(&*self);
        }
        match self.records.find(&record.identifier) {
            Some(_) => Err(DnsError::NameAlreadyRegistered),
            None => {
                self.replace(record);
                Ok(())
            },
        }
    }

    /// Replaces a record by its successor on behalf of `signer`.
    pub fn post(&mut self, record: NamingRecord, signer: &[u8; 32]) -> (out: Result<(), DnsError>)
        ensures
            (out, final(self)@) == after_post(old(self)@, record@, signer@),
    {
        match self.records.get(&record.identifier) {
            None => {
                return Err(DnsError::NameNotFound);
            },
            Some(current) => {
                if !is_owner(&current.owners, signer) {
                    return Err(DnsError::NotAuthorized);
                }
                if record.version == 0 || record.version - 1 != current.version {
                    return Err(DnsError::VersionConflict);
                }
            },
        }
        self.replace(record);
        Ok(())
    }

    /// Deletes the record under an identifier on behalf of `signer`, provided that
    /// `version` is its current version.
    pub fn delete(
        &mut self,
        identifier: &[u8; 64],
        version: u64,
        signer: &[u8; 32],
    ) -> (out: Result<(), DnsError>)
        ensures
            (out, final(self)@) == after_delete(old(self)@, identifier@, version, signer@),
    {
        match self.records.get(identifier) {
            None => {
                return Err(DnsError::NameNotFound);
            },
            Some(current) => {
                if !is_owner(&current.owners, signer) {
                    return Err(DnsError::NotAuthorized);
                }
                if version != current.version {
                    return Err(DnsError::VersionConflict);
                }
            },
        }
        let ghost before = self@;
        proof {
            use_type_invariant(&*self);
            use_type_invariant(&self.records);
            lemma_without_kept(before, identifier@);
        }
        let mut records: Table<[u8; 64], NamingRecord> = Table::new();
        core::mem::swap(&mut self.records, &mut records);
        let _ = records.remove(identifier);
        core::mem::swap(&mut self.records, &mut records);
        Ok(())
    }

    /// Keeps a record under its identifier, in place of the one that was there.
    fn replace(&mut self, record: NamingRecord)
        ensures
            final(self)@ == put(old(self)@, record@.identifier, record@),
    {
        let ghost before = self@;
        proof {
            use_type_invariant(&*self);
            use_type_invariant(&self.records);
            lemma_put_kept(before, record@);
        }
        let identifier = record.identifier;
        let mut records: Table<[u8; 64], NamingRecord> = Table::new();
        core::mem::swap(&mut self.records, &mut records);
        records.insert(identifier, record);
        core::mem::swap(&mut self.records, &mut records);
    }
}

/// No request of one who is not among the owners of a record changes or deletes
/// it: the store answers that the signer is not authorized, and keeps its
/// records.
pub proof fn lemma_stranger_is_refused(
    records: Seq<(Seq<u8>, RecordView)>,
    successor: RecordView,
    version: u64,
    signer: Seq<u8>,
)
    requires
        lookup(records, successor.identifier) matches Some(current) && !current.owners.contains(
            signer,
        ),
    ensures
        after_post(records, successor, signer) == (
            Err::<(), DnsError>(DnsError::NotAuthorized),
            records,
        ),
        after_delete(records, successor.identifier, version, signer) == (
            Err::<(), DnsError>(DnsError::NotAuthorized),
            records,
        ),
{
}

/// Of two successors made against the same version of a record, the store takes
/// the first and refuses the second as made against a version that is no longer
/// current; so it refuses a deletion at that version.
pub proof fn lemma_stale_request_is_refused(
    records: Seq<(Seq<u8>, RecordView)>,
    first: RecordView,
    second: RecordView,
    signer: Seq<u8>,
)
    requires
        well_kept(records),
        first.identifier == second.identifier,
        first.version == second.version,
        first.owners.contains(signer),
        after_post(records, first, signer).0 is Ok,
    ensures
        after_post(after_post(records, first, signer).1, second, signer).0 == Err::<(), DnsError>(
            DnsError::VersionConflict,
        ),
        after_delete(
            after_post(records, first, signer).1,
            first.identifier,
            (first.version - 1) as u64,
            signer,
        ).0 == Err::<(), DnsError>(DnsError::VersionConflict),
{
    lemma_lookup_put(records, first.identifier, first, first.identifier);
}

/// Two changes made against the same record, both by one of its owners: the
/// store takes the successor that comes first, and refuses the other as made
/// against a version that is no longer current.
pub proof fn lemma_second_successor_is_stale(
    records: Seq<(Seq<u8>, RecordView)>,
    record: RecordView,
    signer: Seq<u8>,
    first: (Seq<char>, Option<Seq<u8>>, Seq<u8>, Seq<u8>),
    second: (Seq<char>, Option<Seq<u8>>, Seq<u8>, Seq<u8>),
    keypair: (Seq<u8>, Seq<u8>),
)
    requires
        well_kept(records),
        lookup(records, record.identifier) == Some(record),
        record.owners.contains(signer),
        changed_record(record, keypair, first.0, first.1, first.2, first.3) is Ok,
        changed_record(record, keypair, second.0, second.1, second.2, second.3) is Ok,
    ensures
        ({
            let one = changed_record(record, keypair, first.0, first.1, first.2, first.3).unwrap();
            let other = changed_record(
                record,
                keypair,
                second.0,
                second.1,
                second.2,
                second.3,
            ).unwrap();
            &&& after_post(records, one, signer).0 is Ok
            &&& after_post(after_post(records, one, signer).1, other, signer).0 == Err::<
                (),
                DnsError,
            >(DnsError::VersionConflict)
        }),
{
    let one = changed_record(record, keypair, first.0, first.1, first.2, first.3).unwrap();
    let other = changed_record(record, keypair, second.0, second.1, second.2, second.3).unwrap();
    lemma_stale_request_is_refused(records, one, other, signer);
}

/// A record that was created is there, and a second request to create a record
/// under its identifier is refused.
pub proof fn lemma_created_once(
    records: Seq<(Seq<u8>, RecordView)>,
    first: RecordView,
    second: RecordView,
)
    requires
        well_kept(records),
        first.identifier == second.identifier,
        after_put(records, first).0 is Ok,
    ensures
        lookup(after_put(records, first).1, first.identifier) == Some(first),
        after_put(after_put(records, first).1, second) == (
            Err::<(), DnsError>(DnsError::NameAlreadyRegistered),
            after_put(records, first).1,
        ),
{
    lemma_lookup_put(records, first.identifier, first, first.identifier);
}

/// Keeping a record under its identifier keeps the store in order.
pub proof fn lemma_put_kept(records: Seq<(Seq<u8>, RecordView)>, record: RecordView)
    requires
        well_kept(records),
    ensures
        well_kept(put(records, record.identifier, record)),
{
    lemma_put_distinct(records, record.identifier, record);
    let after = put(records, record.identifier, record);
    assert forall|i: int| 0 <= i < after.len() implies (#[trigger] after[i]).0
        == after[i].1.identifier by {
        if has_key(records, record.identifier) {
            if i != index_of(records, record.identifier) {
                assert(after[i] == records[i]);
            }
        } else {
            if i < records.len() {
                assert(after[i] == records[i]);
            }
        }
    }
}

/// Dropping a record keeps the store in order.
pub proof fn lemma_without_kept(records: Seq<(Seq<u8>, RecordView)>, identifier: Seq<u8>)
    requires
        well_kept(records),
    ensures
        well_kept(without(records, identifier)),
{
    lemma_without_distinct(records, identifier);
    let after = without(records, identifier);
    if has_key(records, identifier) {
        let k = index_of(records, identifier);
        assert forall|i: int| 0 <= i < after.len() implies (#[trigger] after[i]).0
            == after[i].1.identifier by {
            let a = if i < k {
                i
            } else {
                i + 1
            };
            assert(after[i] == records[a]);
        }
    }
}

} // verus!
