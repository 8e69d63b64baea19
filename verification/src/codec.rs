//! The calls into `maidsafe_utilities::serialisation`, and the plain form in which
//! lists pass through them: each entry a name and a list of byte strings.

use vstd::prelude::*;

verus! {

/// `serialisation::SerialisationError`, which the two calls return where they
/// fail. Nothing here looks inside one.
#[verifier::external_type_specification]
#[verifier::external_body]
pub struct ExSerialisationError(maidsafe_utilities::serialisation::SerialisationError);

/// The bytes that `serialise` gives a list in plain form; `None` where it fails.
pub uninterp spec fn serialised(entries: Seq<(Seq<char>, Seq<Seq<u8>>)>) -> Option<Seq<u8>>;

/// The list in plain form that `deserialise` reads from bytes; `None` where it fails.
pub uninterp spec fn deserialised(bytes: Seq<u8>) -> Option<Seq<(Seq<char>, Seq<Seq<u8>>)>>;

/// The codec gives the list bytes, and reads the list back from them. Nothing in
/// this library claims that it does; the laws that need it say so.
pub open spec fn restores(entries: Seq<(Seq<char>, Seq<Seq<u8>>)>) -> bool {
    serialised(entries) matches Some(bytes) && deserialised(bytes) == Some(entries)
}

/// A list of byte strings, each by its view.
pub open spec fn fields_view(fields: Seq<Vec<u8>>) -> Seq<Seq<u8>> {
    Seq::new(fields.len(), |j: int| fields[j]@)
}

/// A list in plain form, each name and each byte string by its view.
pub open spec fn plain_view(entries: Seq<(String, Vec<Vec<u8>>)>) -> Seq<(Seq<char>, Seq<Seq<u8>>)> {
    Seq::new(entries.len(), |i: int| (entries[i].0@, fields_view(entries[i].1@)))
}

/// `plain_view` is the deep view of a list in plain form.
pub proof fn lemma_plain_view(entries: Vec<(String, Vec<Vec<u8>>)>)
    ensures
        entries.deep_view() == plain_view(entries@),
{
    assert forall|i: int| 0 <= i < entries@.len() implies (#[trigger] entries.deep_view()[i])
        == plain_view(entries@)[i] by {
        let fields = entries@[i].1;
        assert forall|j: int| 0 <= j < fields@.len() implies (#[trigger] fields.deep_view()[j])
            == fields@[j]@ by {
            assert(fields@[j].deep_view() =~= fields@[j]@);
        }
        assert(fields.deep_view() =~= fields_view(fields@));
    }
    assert(entries.deep_view() =~= plain_view(entries@));
}

/// Calls `serialisation::serialise`. The claim: whether it succeeds, and with which
/// bytes, is a function of the list.
#[verifier::external_body]
pub(crate) fn serialise(
    entries: &Vec<(String, Vec<Vec<u8>>)>,
) -> (out: Result<Vec<u8>, maidsafe_utilities::serialisation::SerialisationError>)
    ensures
        out matches Ok(bytes) ==> serialised(entries.deep_view()) == Some(bytes@),
        out is Err ==> serialised(entries.deep_view()) is None,
{
    maidsafe_utilities::serialisation::serialise(entries)
}

/// Calls `serialisation::deserialise`. The claim: whether it succeeds, and with
/// which list, is a function of the bytes.
#[verifier::external_body]
pub(crate) fn deserialise(
    bytes: &Vec<u8>,
) -> (out: Result<Vec<(String, Vec<Vec<u8>>)>, maidsafe_utilities::serialisation::SerialisationError>)
    ensures
        out matches Ok(entries) ==> deserialised(bytes@) == Some(entries.deep_view()),
        out is Err ==> deserialised(bytes@) is None,
{
    maidsafe_utilities::serialisation::deserialise(bytes)
}

} // verus!
