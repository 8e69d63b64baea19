//! The account's private list of registered names.
//!
//! One file in the account's configuration directory holds, for every long name
//! that the account has registered, the key pair that seals the name's service
//! map. The file is read and written whole.

use crate::bytes::{copy_bytes, key_from_bytes};
use crate::codec::{deserialise, deserialised, fields_view, lemma_plain_view, plain_view, restores,
    serialise, serialised};
use crate::directory::DirectoryListing;
use crate::errors::{Collaborator, DnsError};
use crate::keyed::{distinct_keys, has_key, lemma_index_of, lemma_lookup_put, lookup, put, without};
use vstd::prelude::*;
use vstd::string::*;

verus! {

/// The name of the configuration directory in the account's private area.
pub const DNS_CONFIG_DIR_NAME: &'static str = "DnsReservedDirectory";

/// The name of the configuration file in that directory.
pub const DNS_CONFIG_FILE_NAME: &'static str = "DnsConfigurationFile";

/// One registered long name with the key pair that seals its service map: the
/// public key first, then the secret key.
#[derive(Debug, PartialEq, Eq)]
pub struct DnsConfiguation {
    pub long_name: String,
    pub encryption_keypair: ([u8; 32], [u8; 32]),
}

impl View for DnsConfiguation {
    type V = (Seq<char>, (Seq<u8>, Seq<u8>));

    open spec fn view(&self) -> Self::V {
        (self.long_name@, (self.encryption_keypair.0@, self.encryption_keypair.1@))
    }
}

impl Clone for DnsConfiguation {
    fn clone(&self) -> (copy: Self)
        ensures
            copy@ == self@,
    {
        DnsConfiguation {
            long_name: self.long_name.clone(),
            encryption_keypair: (self.encryption_keypair.0, self.encryption_keypair.1),
        }
    }
}

/// A list of entries as a list of key pairs under long names.
pub open spec fn configuration_view(
    list: Seq<DnsConfiguation>,
) -> Seq<(Seq<char>, (Seq<u8>, Seq<u8>))> {
    Seq::new(list.len(), |i: int| list[i]@)
}

/// The plain form of a configuration: under each long name the public key, then
/// the secret key.
pub open spec fn plain_of_configuration(
    list: Seq<(Seq<char>, (Seq<u8>, Seq<u8>))>,
) -> Seq<(Seq<char>, Seq<Seq<u8>>)> {
    Seq::new(list.len(), |i: int| (list[i].0, seq![list[i].1.0, list[i].1.1]))
}

/// An entry in plain form holds a key pair: two byte strings of 32 bytes.
pub open spec fn holds_keypair(entry: (Seq<char>, Seq<Seq<u8>>)) -> bool {
    entry.1.len() == 2 && entry.1[0].len() == 32 && entry.1[1].len() == 32
}

/// The configuration that a list in plain form holds: every entry holds a key
/// pair, and no long name occurs twice.
pub open spec fn configuration_of_plain(
    plain: Seq<(Seq<char>, Seq<Seq<u8>>)>,
) -> Option<Seq<(Seq<char>, (Seq<u8>, Seq<u8>))>> {
    if distinct_keys(plain) && (forall|i: int| 0 <= i < plain.len() ==> holds_keypair(#[trigger] plain[i])) {
        Some(Seq::new(plain.len(), |i: int| (plain[i].0, (plain[i].1[0], plain[i].1[1]))))
    } else {
        None
    }
}

/// The configuration directory after it was made ready: it has a configuration
/// file, empty where there was none, and whatever it held is still there.
pub open spec fn initialised(directory: Seq<(Seq<char>, Seq<u8>)>) -> Seq<(Seq<char>, Seq<u8>)> {
    if has_key(directory, DNS_CONFIG_FILE_NAME@) {
        directory
    } else {
        put(directory, DNS_CONFIG_FILE_NAME@, Seq::empty())
    }
}

/// The configuration that a directory holds. A directory without the file holds
/// none; an empty file holds the empty list; any other content must decode, and
/// to a list of key pairs under distinct names.
pub open spec fn stored_configuration(
    directory: Seq<(Seq<char>, Seq<u8>)>,
) -> Result<Seq<(Seq<char>, (Seq<u8>, Seq<u8>))>, DnsError> {
    match lookup(directory, DNS_CONFIG_FILE_NAME@) {
        None => Err(DnsError::DnsConfigFileNotFoundOrCorrupted),
        Some(content) => if content.len() == 0 {
            Ok(Seq::empty())
        } else {
            match deserialised(content) {
                None => Err(DnsError::Underlying(Collaborator::Codec)),
                Some(plain) => match configuration_of_plain(plain) {
                    None => Err(DnsError::DnsConfigFileNotFoundOrCorrupted),
                    Some(list) => Ok(list),
                },
            }
        },
    }
}

/// The answer to a request to write a configuration, and the directory after it.
/// The file must be there and the long names distinct; then the file's content is
/// replaced by the encoded list, and nothing else changes.
pub open spec fn written_configuration(
    directory: Seq<(Seq<char>, Seq<u8>)>,
    list: Seq<(Seq<char>, (Seq<u8>, Seq<u8>))>,
) -> (Result<(), DnsError>, Seq<(Seq<char>, Seq<u8>)>) {
    if !has_key(directory, DNS_CONFIG_FILE_NAME@) {
        (Err(DnsError::DnsConfigFileNotFoundOrCorrupted), directory)
    } else if !distinct_keys(list) {
        (Err(DnsError::NameAlreadyRegistered), directory)
    } else {
        match serialised(plain_of_configuration(list)) {
            None => (Err(DnsError::Underlying(Collaborator::Codec)), directory),
            Some(bytes) => (Ok(()), put(directory, DNS_CONFIG_FILE_NAME@, bytes)),
        }
    }
}

/// The answer to a request to add an entry to the stored configuration, and the
/// directory after it: the stored list is read, the entry goes to its end unless
/// its long name is there already, and the list is written.
pub open spec fn persisted_configuration(
    directory: Seq<(Seq<char>, Seq<u8>)>,
    entry: (Seq<char>, (Seq<u8>, Seq<u8>)),
) -> (Result<(), DnsError>, Seq<(Seq<char>, Seq<u8>)>) {
    match stored_configuration(directory) {
        Err(e) => (Err(e), directory),
        Ok(list) => if has_key(list, entry.0) {
            (Err(DnsError::NameAlreadyRegistered), directory)
        } else {
            written_configuration(directory, list.push(entry))
        },
    }
}

/// The answer to a request to drop a long name from the stored configuration, and
/// the directory after it: the stored list is read, and written without the
/// entry of that name.
pub open spec fn forgotten_configuration(
    directory: Seq<(Seq<char>, Seq<u8>)>,
    long_name: Seq<char>,
) -> (Result<(), DnsError>, Seq<(Seq<char>, Seq<u8>)>) {
    match stored_configuration(directory) {
        Err(e) => (Err(e), directory),
        Ok(list) => written_configuration(directory, without(list, long_name)),
    }
}

/// A configuration that a directory holds has no long name twice, and key pairs
/// of 32 bytes each.
pub proof fn lemma_stored_configuration(directory: Seq<(Seq<char>, Seq<u8>)>)
    ensures
        stored_configuration(directory) matches Ok(list) ==> distinct_keys(list) && forall|i: int|
            0 <= i < list.len() ==> (#[trigger] list[i]).1.0.len() == 32 && list[i].1.1.len() == 32,
{
    if let Ok(list) = stored_configuration(directory) {
        let content = lookup(directory, DNS_CONFIG_FILE_NAME@).unwrap();
        if content.len() != 0 {
            let plain = deserialised(content).unwrap();
            assert forall|i: int, j: int| 0 <= i < j < list.len() implies (#[trigger] list[i]).0 != (
            #[trigger] list[j]).0 by {
                assert(plain[i].0 != plain[j].0);
            }
            assert forall|i: int| 0 <= i < list.len() implies (#[trigger] list[i]).1.0.len() == 32
                && list[i].1.1.len() == 32 by {
                assert(holds_keypair(plain[i]));
            }
        }
    }
}

/// The plain form of a configuration holds that configuration: it is read back
/// from its own plain form.
pub proof fn lemma_configuration_of_plain(list: Seq<(Seq<char>, (Seq<u8>, Seq<u8>))>)
    requires
        distinct_keys(list),
        forall|i: int|
            0 <= i < list.len() ==> (#[trigger] list[i]).1.0.len() == 32 && list[i].1.1.len() == 32,
    ensures
        configuration_of_plain(plain_of_configuration(list)) == Some(list),
{
    let plain = plain_of_configuration(list);
    assert forall|i: int, j: int| 0 <= i < j < plain.len() implies (#[trigger] plain[i]).0 != (
    #[trigger] plain[j]).0 by {
        assert(list[i].0 != list[j].0);
    }
    assert forall|i: int| 0 <= i < plain.len() implies holds_keypair(#[trigger] plain[i]) by {
        assert(list[i].1.0.len() == 32);
    }
    assert(Seq::new(plain.len(), |i: int| (plain[i].0, (plain[i].1[0], plain[i].1[1]))) =~= list);
}

/// Making the directory ready twice is the same as making it ready once; no file
/// that the directory held is touched; and a directory that had no configuration
/// file holds the empty configuration afterwards.
pub proof fn lemma_initialised(directory: Seq<(Seq<char>, Seq<u8>)>, file: Seq<char>)
    requires
        distinct_keys(directory),
    ensures
        initialised(initialised(directory)) == initialised(directory),
        has_key(initialised(directory), DNS_CONFIG_FILE_NAME@),
        has_key(directory, file) ==> lookup(initialised(directory), file) == lookup(directory, file),
        has_key(directory, DNS_CONFIG_FILE_NAME@) ==> stored_configuration(initialised(directory))
            == stored_configuration(directory),
        !has_key(directory, DNS_CONFIG_FILE_NAME@) ==> stored_configuration(initialised(directory))
            == Ok::<Seq<(Seq<char>, (Seq<u8>, Seq<u8>))>, DnsError>(Seq::empty()),
{
    lemma_lookup_put(directory, DNS_CONFIG_FILE_NAME@, Seq::empty(), file);
}

/// Where the codec restores a configuration, and gives any but the empty one at
/// least one byte, the configuration that was written is the configuration that
/// is read: writing succeeds, reading returns the written list, and no other file
/// is touched.
pub proof fn lemma_read_after_write(
    directory: Seq<(Seq<char>, Seq<u8>)>,
    list: Seq<(Seq<char>, (Seq<u8>, Seq<u8>))>,
    file: Seq<char>,
)
    requires
        distinct_keys(directory),
        has_key(directory, DNS_CONFIG_FILE_NAME@),
        distinct_keys(list),
        forall|i: int|
            0 <= i < list.len() ==> (#[trigger] list[i]).1.0.len() == 32 && list[i].1.1.len() == 32,
        restores(plain_of_configuration(list)),
        list.len() > 0 ==> serialised(plain_of_configuration(list)).unwrap().len() > 0,
    ensures
        written_configuration(directory, list).0 is Ok,
        stored_configuration(written_configuration(directory, list).1) == Ok::<
            Seq<(Seq<char>, (Seq<u8>, Seq<u8>))>,
            DnsError,
        >(list),
        file != DNS_CONFIG_FILE_NAME@ ==> lookup(written_configuration(directory, list).1, file)
            == lookup(directory, file),
{
    let bytes = serialised(plain_of_configuration(list)).unwrap();
    lemma_lookup_put(directory, DNS_CONFIG_FILE_NAME@, bytes, file);
    lemma_configuration_of_plain(list);
    if list.len() == 0 {
        assert(list =~= Seq::empty());
    }
}

/// The position of a long name in a list of entries: the first, if it occurs.
pub fn find_configuration(list: &Vec<DnsConfiguation>, long_name: &String) -> (found: Option<usize>)
    ensures
        match found {
            Some(i) => i < list@.len() && list@[i as int].long_name@ == long_name@ && forall|j: int|
                0 <= j < i ==> (#[trigger] list@[j]).long_name@ != long_name@,
            None => !has_key(configuration_view(list@), long_name@),
        },
{
    let mut i: usize = 0;
    while i < list.len()
        invariant
            i <= list@.len(),
            forall|j: int| 0 <= j < i ==> (#[trigger] list@[j]).long_name@ != long_name@,
        decreases list.len() - i,
    {
        if list[i].long_name == *long_name {
            return Some(i);
        }
        i += 1;
    }
    assert forall|j: int| 0 <= j < list@.len() implies (#[trigger] configuration_view(list@)[j]).0
        != long_name@ by {
        assert(list@[j].long_name@ != long_name@);
    }
    None
}

/// Whether no long name occurs twice in a list of entries.
pub fn has_distinct_names(list: &Vec<DnsConfiguation>) -> (distinct: bool)
    ensures
        distinct == distinct_keys(configuration_view(list@)),
{
    let ghost view = configuration_view(list@);
    let mut i: usize = 0;
    while i < list.len()
        invariant
            i <= list@.len(),
            view == configuration_view(list@),
            forall|a: int, b: int| 0 <= a < b < i ==> (#[trigger] view[a]).0 != (#[trigger] view[b]).0,
        decreases list.len() - i,
    {
        match find_configuration(list, &list[i].long_name) {
            Some(j) => {
                if j != i {
                    assert(view[j as int].0 == view[i as int].0);
                    return false;
                }
                assert forall|a: int, b: int| 0 <= a < b < i + 1 implies (#[trigger] view[a]).0 != (
                #[trigger] view[b]).0 by {
                    if b == i {
                        assert(list@[a].long_name@ != list@[i as int].long_name@);
                    }
                }
            },
            None => {
                assert(view[i as int].0 == list@[i as int].long_name@);
                return false;
            },
        }
        i += 1;
    }
    true
}

/// A list of entries in plain form, ready for the codec.
pub fn configuration_to_plain(list: &Vec<DnsConfiguation>) -> (plain: Vec<(String, Vec<Vec<u8>>)>)
    ensures
        plain_view(plain@) == plain_of_configuration(configuration_view(list@)),
{
    let ghost view = configuration_view(list@);
    let mut plain: Vec<(String, Vec<Vec<u8>>)> = Vec::new();
    let mut i: usize = 0;
    while i < list.len()
        invariant
            i <= list@.len(),
            view == configuration_view(list@),
            plain@.len() == i,
            forall|j: int|
                0 <= j < i ==> (#[trigger] plain@[j]).0@ == view[j].0 && fields_view(plain@[j].1@)
                    == seq![view[j].1.0, view[j].1.1],
        decreases list.len() - i,
    {
        let mut fields: Vec<Vec<u8>> = Vec::new();
        fields.push(copy_bytes(list[i].encryption_keypair.0.as_slice()));
        fields.push(copy_bytes(list[i].encryption_keypair.1.as_slice()));
        assert(fields_view(fields@) =~= seq![view[i as int].1.0, view[i as int].1.1]);
        plain.push((list[i].long_name.clone(), fields));
        i += 1;
    }
    assert(plain_view(plain@) =~= plain_of_configuration(view));
    plain
}

/// The list of entries that a list in plain form holds, if it holds one.
pub fn configuration_from_plain(
    plain: &Vec<(String, Vec<Vec<u8>>)>,
) -> (list: Option<Vec<DnsConfiguation>>)
    ensures
        match list {
            Some(l) => configuration_of_plain(plain_view(plain@)) == Some(configuration_view(l@)),
            None => configuration_of_plain(plain_view(plain@)) is None,
        },
{
    let ghost source = plain_view(plain@);
    let mut list: Vec<DnsConfiguation> = Vec::new();
    let mut i: usize = 0;
    while i < plain.len()
        invariant
            i <= plain@.len(),
            source == plain_view(plain@),
            list@.len() == i,
            forall|j: int|
                0 <= j < i ==> holds_keypair(#[trigger] source[j]) && list@[j]@ == (
                    source[j].0,
                    (source[j].1[0], source[j].1[1]),
                ),
            forall|a: int, b: int|
                0 <= a < b < i ==> (#[trigger] source[a]).0 != (#[trigger] source[b]).0,
        decreases plain.len() - i,
    {
        if plain[i].1.len() != 2 {
            assert(!holds_keypair(source[i as int]));
            return None;
        }
        let public_key = match key_from_bytes(&plain[i].1[0]) {
            Some(key) => key,
            None => {
                assert(!holds_keypair(source[i as int]));
                return None;
            },
        };
        let secret_key = match key_from_bytes(&plain[i].1[1]) {
            Some(key) => key,
            None => {
                assert(!holds_keypair(source[i as int]));
                return None;
            },
        };
        match find_configuration(&list, &plain[i].0) {
            Some(j) => {
                assert(source[j as int].0 == source[i as int].0);
                return None;
            },
            None => {
                assert forall|a: int, b: int| 0 <= a < b < i + 1 implies (#[trigger] source[a]).0
                    != (#[trigger] source[b]).0 by {
                    if b == i {
                        assert(configuration_view(list@)[a].0 == source[a].0);
                    }
                }
            },
        }
        list.push(
            DnsConfiguation { long_name: plain[i].0.clone(), encryption_keypair: (public_key, secret_key) },
        );
        i += 1;
    }
    assert(configuration_view(list@) =~= Seq::new(
        source.len(),
        |k: int| (source[k].0, (source[k].1[0], source[k].1[1])),
    ));
    Some(list)
}

/// Makes the configuration directory ready: where it has no configuration file,
/// an empty one is created. A second call changes nothing, and no call touches
/// what the directory holds already.
pub fn initialise_dns_configuaration(
    directory: &mut DirectoryListing,
) -> (out: Result<(), DnsError>)
    ensures
        out is Ok,
        final(directory)@ == initialised(old(directory)@),
{
    let name = String::from_str(DNS_CONFIG_FILE_NAME);
    match directory.find(&name) {
        Some(_) => {},
        None => {
            directory.insert(name, Vec::new());
        },
    }
    Ok(())
}

/// Reads the list of registered names from the configuration directory.
pub fn get_dns_configuaration_data(
    directory: &DirectoryListing,
) -> (out: Result<Vec<DnsConfiguation>, DnsError>)
    ensures
        match out {
            Ok(list) => stored_configuration(directory@) == Ok::<
                Seq<(Seq<char>, (Seq<u8>, Seq<u8>))>,
                DnsError,
            >(configuration_view(list@)),
            Err(e) => stored_configuration(directory@) == Err::<
                Seq<(Seq<char>, (Seq<u8>, Seq<u8>))>,
                DnsError,
            >(e),
        },
{
    let name = String::from_str(DNS_CONFIG_FILE_NAME);
    let content = match directory.get(&name) {
        Some(content) => content,
        None => {
            return Err(DnsError::DnsConfigFileNotFoundOrCorrupted);
        },
    };
    if content.len() == 0 {
        let list: Vec<DnsConfiguation> = Vec::new();
        assert(configuration_view(list@) =~= Seq::empty());
        return Ok(list);
    }
    match deserialise(content) {
        Err(_) => Err(DnsError::Underlying(Collaborator::Codec)),
        Ok(plain) => {
            proof {
                lemma_plain_view(plain);
            }
            match configuration_from_plain(&plain) {
                None => Err(DnsError::DnsConfigFileNotFoundOrCorrupted),
                Some(list) => Ok(list),
            }
        },
    }
}

/// Writes the list of registered names to the configuration directory, in place
/// of what the configuration file held.
pub fn write_dns_configuaration_data(
    directory: &mut DirectoryListing,
    config: &Vec<DnsConfiguation>,
) -> (out: Result<(), DnsError>)
    ensures
        (out, final(directory)@) == written_configuration(
            old(directory)@,
            configuration_view(config@),
        ),
{
    let name = String::from_str(DNS_CONFIG_FILE_NAME);
    if directory.find(&name).is_none() {
        return Err(DnsError::DnsConfigFileNotFoundOrCorrupted);
    }
    if !has_distinct_names(config) {
        return Err(DnsError::NameAlreadyRegistered);
    }
    let plain = configuration_to_plain(config);
    proof {
        lemma_plain_view(plain);
    }
    match serialise(&plain) {
        Err(_) => Err(DnsError::Underlying(Collaborator::Codec)),
        Ok(bytes) => {
            directory.insert(name, bytes);
            Ok(())
        },
    }
}

/// Adds the entry of a newly registered long name to the stored configuration. A
/// long name that the configuration holds already is refused.
pub fn persist_configuration(
    directory: &mut DirectoryListing,
    entry: DnsConfiguation,
) -> (out: Result<(), DnsError>)
    ensures
        (out, final(directory)@) == persisted_configuration(old(directory)@, entry@),
{
    let mut list = match get_dns_configuaration_data(directory) {
        Ok(list) => list,
        Err(e) => {
            return Err(e);
        },
    };
    let ghost before = configuration_view(list@);
    match find_configuration(&list, &entry.long_name) {
        Some(i) => {
            assert(before[i as int].0 == entry@.0);
            return Err(DnsError::NameAlreadyRegistered);
        },
        None => {},
    }
    list.push(entry);
    assert(configuration_view(list@) =~= before.push(entry@));
    write_dns_configuaration_data(directory, &list)
}

/// Drops a long name from the stored configuration. A long name that the
/// configuration does not hold is no error: the list is written as it was read.
pub fn forget_configuration(
    directory: &mut DirectoryListing,
    long_name: &String,
) -> (out: Result<(), DnsError>)
    ensures
        (out, final(directory)@) == forgotten_configuration(old(directory)@, long_name@),
{
    let mut list = match get_dns_configuaration_data(directory) {
        Ok(list) => list,
        Err(e) => {
            return Err(e);
        },
    };
    let ghost before = configuration_view(list@);
    proof {
        lemma_stored_configuration(directory@);
    }
    match find_configuration(&list, long_name) {
        Some(i) => {
            proof {
                assert(before[i as int].0 == long_name@);
                lemma_index_of(before, long_name@, i as int);
            }
            let _ = list.remove(i);
            assert(configuration_view(list@) =~= before.remove(i as int));
        },
        None => {},
    }
    write_dns_configuaration_data(directory, &list)
}

} // verus!
