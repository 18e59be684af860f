//! Bencoded dictionaries.
use serde_bencode::value::Value;
use serde_bencode::Error as BencodeFault;
use std::collections::HashMap;
use vstd::prelude::*;

verus! {

/// Declares `serde_bencode::value::Value`.
#[verifier::external_type_specification]
#[verifier::external_body]
pub struct ExValue(Value);

/// Declares `serde_bencode::Error`.
#[verifier::external_type_specification]
#[verifier::external_body]
pub struct ExBencodeError(BencodeFault);

/// The entries of the bencoded dictionary at the start of `buf`, or nothing
/// where there is no such dictionary or one of its keys is no text.
pub uninterp spec fn bencode_dict(buf: Seq<u8>) -> Option<Map<Seq<char>, Value>>;

/// The bencoding of a value, with the keys of each dictionary in order.
pub uninterp spec fn bencoding(value: Value) -> Seq<u8>;

/// Whether `entries` are those of `dict`, in any order.
pub open spec fn lists(entries: Seq<(String, Value)>, dict: Map<Seq<char>, Value>) -> bool {
    &&& forall|i: int|
        0 <= i < entries.len() ==> dict.contains_pair((#[trigger] entries[i]).0@, entries[i].1)
    &&& forall|key: Seq<char>| #[trigger]
        dict.contains_key(key) ==> exists|i: int|
            0 <= i < entries.len() && (#[trigger] entries[i]).0@ == key
}

/// `serde_bencode::from_bytes` into a map from text to values: the entries of
/// the dictionary that `bencode_dict` names, in an order that is left open. It
/// recurses into lists and dictionaries; how deep the stack lets it depends on
/// the machine and is left unsaid.
#[verifier::external_body]
pub(crate) fn decode_dict(buf: &[u8]) -> (entries: Result<Vec<(String, Value)>, BencodeFault>)
    ensures
        entries is Ok <==> bencode_dict(buf@) is Some,
        entries matches Ok(list) ==> lists(list@, bencode_dict(buf@)->0),
{
    let dict: HashMap<String, Value> = serde_bencode::from_bytes(buf)?;
    Ok(dict.into_iter().collect())
}

/// `serde_bencode::to_bytes` on a value: its bencoding, named by `bencoding`.
/// A value is always encoded: it holds nothing that the format lacks. It
/// recurses as deep as the value is nested.
#[verifier::external_body]
pub(crate) fn encode_value(value: &Value) -> (bytes: Result<Vec<u8>, BencodeFault>)
    ensures
        bytes is Ok,
        bytes->Ok_0@ == bencoding(*value),
{
    serde_bencode::to_bytes(value)
}

/// Whether `entries` has an entry under `key`.
pub open spec fn has_key(entries: Seq<(String, Value)>, key: Seq<char>) -> bool {
    exists|i: int| 0 <= i < entries.len() && (#[trigger] entries[i]).0@ == key
}

/// The place of the first entry under `key`.
pub fn find_key(entries: &Vec<(String, Value)>, key: &str) -> (place: Option<usize>)
    ensures
        place is Some <==> has_key(entries@, key@),
        place matches Some(n) ==> {
            &&& n < entries@.len()
            &&& entries@[n as int].0@ == key@
            &&& forall|i: int| 0 <= i < n ==> (#[trigger] entries@[i]).0@ != key@
        },
{
    let wanted: String = key.to_owned();
    let mut i: usize = 0;
    while i < entries.len()
        invariant
            i <= entries@.len(),
            wanted@ == key@,
            forall|j: int| 0 <= j < i ==> (#[trigger] entries@[j]).0@ != key@,
        decreases entries@.len() - i,
    {
        if entries[i].0 == wanted {
            return Some(i);
        }
        i = i + 1;
    }
    None
}

} // verus!
