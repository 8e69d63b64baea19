//! The services of one long name: service names bound to directory keys.
//!
//! A directory key is an opaque locator: nothing here looks inside one. On its
//! way through the codec a service map takes the plain form of a list of names,
//! each with its key as the only byte string.

use crate::bytes::copy_bytes;
use crate::codec::{fields_view, plain_view};
use crate::keyed::distinct_keys;
use crate::table::Table;
use vstd::prelude::*;

verus! {

/// Service names bound to directory keys, no name twice.
pub type ServiceMap = Table<String, Vec<u8>>;

/// The plain form of a service map.
pub open spec fn plain_of_services(
    services: Seq<(Seq<char>, Seq<u8>)>,
) -> Seq<(Seq<char>, Seq<Seq<u8>>)> {
    Seq::new(services.len(), |i: int| (services[i].0, seq![services[i].1]))
}

/// The service map that a list in plain form holds: every entry has exactly one
/// byte string, and no name occurs twice.
pub open spec fn services_of_plain(
    plain: Seq<(Seq<char>, Seq<Seq<u8>>)>,
) -> Option<Seq<(Seq<char>, Seq<u8>)>> {
    if distinct_keys(plain) && (forall|i: int|
        0 <= i < plain.len() ==> (#[trigger] plain[i]).1.len() == 1) {
        Some(Seq::new(plain.len(), |i: int| (plain[i].0, plain[i].1[0])))
    } else {
        None
    }
}

/// A service map is read back from its own plain form.
pub proof fn lemma_services_of_plain(services: Seq<(Seq<char>, Seq<u8>)>)
    requires
        distinct_keys(services),
    ensures
        services_of_plain(plain_of_services(services)) == Some(services),
{
    let plain = plain_of_services(services);
    assert forall|i: int, j: int| 0 <= i < j < plain.len() implies (#[trigger] plain[i]).0 != (
    #[trigger] plain[j]).0 by {
        assert(services[i].0 != services[j].0);
    }
    assert(Seq::new(plain.len(), |i: int| (plain[i].0, plain[i].1[0])) =~= services);
}

/// A service map held by a list in plain form has no name twice.
pub proof fn lemma_services_distinct(plain: Seq<(Seq<char>, Seq<Seq<u8>>)>)
    ensures
        services_of_plain(plain) matches Some(services) ==> distinct_keys(services),
{
    if let Some(services) = services_of_plain(plain) {
        assert forall|i: int, j: int| 0 <= i < j < services.len() implies (#[trigger] services[i]).0
            != (#[trigger] services[j]).0 by {
            assert(plain[i].0 != plain[j].0);
        }
    }
}

/// The map in plain form, ready for the codec.
pub fn services_to_plain(services: &ServiceMap) -> (plain: Vec<(String, Vec<Vec<u8>>)>)
    ensures
        plain_view(plain@) == plain_of_services(services@),
{
    let mut plain: Vec<(String, Vec<Vec<u8>>)> = Vec::new();
    let mut i: usize = 0;
    while i < services.len()
        invariant
            i <= services@.len(),
            plain@.len() == i,
            forall|j: int|
                0 <= j < i ==> (#[trigger] plain@[j]).0@ == services@[j].0 && plain@[j].1@.len()
                    == 1 && plain@[j].1@[0]@ == services@[j].1,
        decreases services@.len() - i,
    {
        let (name, key) = services.entry(i);
        let mut fields: Vec<Vec<u8>> = Vec::new();
        fields.push(copy_bytes(key.as_slice()));
        plain.push((name.clone(), fields));
        i += 1;
    }
    assert forall|j: int| 0 <= j < plain@.len() implies (#[trigger] plain_view(plain@)[j])
        == plain_of_services(services@)[j] by {
        assert(plain@[j].0@ == services@[j].0);
        assert(fields_view(plain@[j].1@) =~= seq![services@[j].1]);
    }
    assert(plain_view(plain@) =~= plain_of_services(services@));
    plain
}

/// The map that a list in plain form holds, if it holds one.
pub fn services_from_plain(plain: &Vec<(String, Vec<Vec<u8>>)>) -> (services: Option<ServiceMap>)
    ensures
        match services {
            Some(m) => services_of_plain(plain_view(plain@)) == Some(m@),
            None => services_of_plain(plain_view(plain@)) is None,
        },
{
    let ghost source = plain_view(plain@);
    let mut map: ServiceMap = Table::new();
    let mut i: usize = 0;
    while i < plain.len()
        invariant
            i <= plain@.len(),
            source == plain_view(plain@),
            map@.len() == i,
            forall|j: int|
                0 <= j < i ==> (#[trigger] source[j]).1.len() == 1 && map@[j] == (
                    source[j].0,
                    source[j].1[0],
                ),
            forall|a: int, b: int|
                0 <= a < b < i ==> (#[trigger] source[a]).0 != (#[trigger] source[b]).0,
        decreases plain.len() - i,
    {
        if plain[i].1.len() != 1 {
            assert(source[i as int].1.len() != 1);
            return None;
        }
        match map.find(&plain[i].0) {
            Some(j) => {
                assert(source[j as int].0 == source[i as int].0);
                return None;
            },
            None => {},
        }
        let ghost before = map@;
        let name = plain[i].0.clone();
        let key = copy_bytes(plain[i].1[0].as_slice());
        map.insert(name, key);
        assert(map@ == before.push((source[i as int].0, source[i as int].1[0])));
        assert forall|a: int, b: int| 0 <= a < b < i + 1 implies (#[trigger] source[a]).0 != (
        #[trigger] source[b]).0 by {
            if b == i {
                assert(before[a].0 == source[a].0);
            }
        }
        i += 1;
    }
    assert(map@ =~= Seq::new(source.len(), |k: int| (source[k].0, source[k].1[0])));
    Some(map)
}

} // verus!
