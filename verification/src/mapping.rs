//! The output mapping: from an instruction's name to its discriminator.
//!
//! The mapping is a `serde_json::Map` that keeps its keys in the order in
//! which they first came. The contracts speak of its entries as a sequence of
//! keys and bytes.

use vstd::prelude::*;

verus! {

#[verifier::external_type_specification]
#[verifier::external_body]
#[verifier::reject_recursive_types(K)]
#[verifier::reject_recursive_types(V)]
pub struct ExMap<K, V>(serde_json::Map<K, V>);

/// The entries of a mapping, in the order in which the map yields them: each
/// key with the bytes that its value lists.
pub uninterp spec fn map_entries(map: serde_json::Map<String, serde_json::Value>) -> Seq<
    (Seq<char>, Seq<u8>),
>;

/// The text that a mapping is written as; `None` where it cannot be written.
///
/// The text is laid out outside this crate; nothing is known of it here
/// beyond what `map_to_pretty` states.
pub uninterp spec fn map_text(map: serde_json::Map<String, serde_json::Value>) -> Option<
    Seq<char>,
>;

/// `entries` after `key` was given `value`: a key that is there keeps its
/// place and has its value replaced, a new key goes last.
pub open spec fn put(entries: Seq<(Seq<char>, Seq<u8>)>, key: Seq<char>, value: Seq<u8>) -> Seq<
    (Seq<char>, Seq<u8>),
>
    decreases entries.len(),
{
    if entries.len() == 0 {
        seq![(key, value)]
    } else if entries[0].0 == key {
        entries.update(0, (key, value))
    } else {
        seq![entries[0]] + put(entries.drop_first(), key, value)
    }
}

/// Whether `key` is among the keys of `entries`.
pub open spec fn has_key(entries: Seq<(Seq<char>, Seq<u8>)>, key: Seq<char>) -> bool {
    exists|i: int| 0 <= i < entries.len() && #[trigger] entries[i].0 == key
}

/// The keys of `entries`, in their order.
pub open spec fn keys(entries: Seq<(Seq<char>, Seq<u8>)>) -> Seq<Seq<char>> {
    Seq::new(entries.len(), |i: int| entries[i].0)
}

/// Whether no key occurs twice in `entries`.
pub open spec fn distinct_keys(entries: Seq<(Seq<char>, Seq<u8>)>) -> bool {
    keys(entries).no_duplicates()
}

/// The value that `key` has in `entries`: that of the first entry with this
/// key.
pub open spec fn value_of(entries: Seq<(Seq<char>, Seq<u8>)>, key: Seq<char>) -> Option<Seq<u8>>
    decreases entries.len(),
{
    if entries.len() == 0 {
        None
    } else if entries[0].0 == key {
        Some(entries[0].1)
    } else {
        value_of(entries.drop_first(), key)
    }
}

/// A key that is not there goes last, and the entries before it stay.
pub proof fn lemma_put_absent(entries: Seq<(Seq<char>, Seq<u8>)>, key: Seq<char>, value: Seq<u8>)
    requires
        !has_key(entries, key),
    ensures
        put(entries, key, value) == entries.push((key, value)),
    decreases entries.len(),
{
    if entries.len() == 0 {
        assert(put(entries, key, value) =~= entries.push((key, value)));
    } else {
        let rest = entries.drop_first();
        assert(entries[0].0 != key);
        assert forall|i: int| 0 <= i < rest.len() implies #[trigger] rest[i].0 != key by {
            assert(entries[i + 1].0 != key);
        }
        lemma_put_absent(rest, key, value);
        assert(seq![entries[0]] + rest.push((key, value)) =~= entries.push((key, value)));
    }
}

/// A key that is there keeps its place: the entries keep their number and
/// their keys.
pub proof fn lemma_put_present(entries: Seq<(Seq<char>, Seq<u8>)>, key: Seq<char>, value: Seq<u8>)
    requires
        has_key(entries, key),
    ensures
        put(entries, key, value).len() == entries.len(),
        keys(put(entries, key, value)) == keys(entries),
    decreases entries.len(),
{
    let after = put(entries, key, value);
    if entries[0].0 == key {
        assert(keys(after) =~= keys(entries));
    } else {
        let rest = entries.drop_first();
        let i = choose|i: int| 0 <= i < entries.len() && #[trigger] entries[i].0 == key;
        assert(rest[i - 1].0 == key);
        lemma_put_present(rest, key, value);
        let rest_after = put(rest, key, value);
        assert(after == seq![entries[0]] + rest_after);
        assert forall|j: int| 0 <= j < after.len() implies keys(after)[j] == keys(entries)[j] by {
            if j > 0 {
                assert(after[j] == rest_after[j - 1]);
                assert(keys(rest_after)[j - 1] == keys(rest)[j - 1]);
            }
        }
        assert(keys(after) =~= keys(entries));
    }
}

/// Every entry after a `put` is the entry that was at its place before, or
/// the key with its new value.
pub proof fn lemma_put_entries(
    entries: Seq<(Seq<char>, Seq<u8>)>,
    key: Seq<char>,
    value: Seq<u8>,
    at: int,
)
    requires
        0 <= at < put(entries, key, value).len(),
    ensures
        put(entries, key, value)[at] == (key, value) || (at < entries.len() && put(
            entries,
            key,
            value,
        )[at] == entries[at]),
    decreases entries.len(),
{
    if entries.len() == 0 {
    } else if entries[0].0 == key {
    } else {
        let rest = entries.drop_first();
        if at > 0 {
            assert(put(entries, key, value)[at] == put(rest, key, value)[at - 1]);
            lemma_put_entries(rest, key, value, at - 1);
        }
    }
}

/// After a `put` the key has the value that was put.
pub proof fn lemma_put_value(entries: Seq<(Seq<char>, Seq<u8>)>, key: Seq<char>, value: Seq<u8>)
    ensures
        has_key(put(entries, key, value), key),
        value_of(put(entries, key, value), key) == Some(value),
    decreases entries.len(),
{
    let after = put(entries, key, value);
    if entries.len() == 0 {
        assert(after[0].0 == key);
    } else if entries[0].0 == key {
        assert(after[0].0 == key);
    } else {
        let rest = entries.drop_first();
        lemma_put_value(rest, key, value);
        let rest_after = put(rest, key, value);
        let i = choose|i: int| 0 <= i < rest_after.len() && #[trigger] rest_after[i].0 == key;
        assert(after[i + 1].0 == key);
        assert(after.drop_first() =~= rest_after);
    }
}

/// A `put` leaves the values of the other keys as they were.
pub proof fn lemma_put_other(
    entries: Seq<(Seq<char>, Seq<u8>)>,
    key: Seq<char>,
    value: Seq<u8>,
    other: Seq<char>,
)
    requires
        other != key,
    ensures
        value_of(put(entries, key, value), other) == value_of(entries, other),
    decreases entries.len(),
{
    let after = put(entries, key, value);
    if entries.len() == 0 {
        assert(after.drop_first() =~= entries);
    } else if entries[0].0 == key {
        assert(after.drop_first() =~= entries.drop_first());
    } else {
        let rest = entries.drop_first();
        lemma_put_other(rest, key, value, other);
        assert(after.drop_first() =~= put(rest, key, value));
    }
}

/// The later of two values for one key wins, and the key stands once.
pub proof fn lemma_put_twice(
    entries: Seq<(Seq<char>, Seq<u8>)>,
    key: Seq<char>,
    first: Seq<u8>,
    second: Seq<u8>,
)
    ensures
        put(put(entries, key, first), key, second) == put(entries, key, second),
    decreases entries.len(),
{
    let once = put(entries, key, first);
    if entries.len() == 0 {
        assert(put(once, key, second) =~= put(entries, key, second));
    } else if entries[0].0 == key {
        assert(put(once, key, second) =~= put(entries, key, second));
    } else {
        let rest = entries.drop_first();
        lemma_put_twice(rest, key, first, second);
        assert(once.drop_first() =~= put(rest, key, first));
        assert(put(once, key, second) =~= put(entries, key, second));
    }
}

/// A `put` keeps the keys distinct.
pub proof fn lemma_put_keeps_distinct(
    entries: Seq<(Seq<char>, Seq<u8>)>,
    key: Seq<char>,
    value: Seq<u8>,
)
    requires
        distinct_keys(entries),
    ensures
        distinct_keys(put(entries, key, value)),
{
    if has_key(entries, key) {
        lemma_put_present(entries, key, value);
    } else {
        lemma_put_absent(entries, key, value);
        let after = put(entries, key, value);
        assert forall|i: int, j: int|
            0 <= i < after.len() && 0 <= j < after.len() && i != j implies keys(after)[i] != keys(
            after,
        )[j] by {
            if i < entries.len() && j < entries.len() {
                assert(keys(entries)[i] != keys(entries)[j]);
            } else if i < entries.len() {
                assert(entries[i].0 != key);
            } else {
                assert(entries[j].0 != key);
            }
        }
    }
}

/// Calls `serde_json::Map::new`.
///
/// Trusted: a new map has no entries.
#[verifier::external_body]
fn map_new() -> (map: serde_json::Map<String, serde_json::Value>)
    ensures
        map_entries(map) == Seq::<(Seq<char>, Seq<u8>)>::empty(),
{
    serde_json::Map::new()
}

/// Calls `serde_json::Map::insert` with the bytes as a JSON array of
/// numbers.
///
/// Trusted: a key that the map holds keeps its place and gets the new value;
/// a key that it does not hold is added last.
#[verifier::external_body]
fn map_insert(map: &mut serde_json::Map<String, serde_json::Value>, key: String, bytes: [u8; 8])
    ensures
        map_entries(*final(map)) == put(map_entries(*old(map)), key@, bytes@),
{
    let numbers = bytes.iter().map(|&b| serde_json::Value::Number(serde_json::Number::from(b)));
    map.insert(key, serde_json::Value::Array(numbers.collect()));
}

/// Calls `serde_json::to_string_pretty`.
///
/// Trusted: whether the call succeeds, and the text that it then returns,
/// depend on the map alone.
#[verifier::external_body]
fn map_to_pretty(map: &serde_json::Map<String, serde_json::Value>) -> (result: Result<
    String,
    serde_json::Error,
>)
    ensures
        match result {
            Ok(text) => map_text(*map) == Some(text@),
            Err(_) => map_text(*map) is None,
        },
{
    serde_json::to_string_pretty(map)
}

/// The mapping could not be written as JSON text.
#[derive(Debug)]
pub struct SerializeError {}

/// A mapping without entries.
pub fn new_mapping() -> (map: serde_json::Map<String, serde_json::Value>)
    ensures
        map_entries(map) == Seq::<(Seq<char>, Seq<u8>)>::empty(),
{
    map_new()
}

/// Gives `name` the discriminator `sighash`. A name that the mapping holds
/// keeps its place and has its discriminator replaced; a new name goes last.
pub fn record(map: &mut serde_json::Map<String, serde_json::Value>, name: &str, sighash: [u8; 8])
    ensures
        map_entries(*final(map)) == put(map_entries(*old(map)), name@, sighash@),
{
    map_insert(map, name.to_owned(), sighash);
}

/// Writes a mapping as pretty-printed JSON text: an object whose keys are the
/// names, each with the array of its bytes.
///
/// Succeeds exactly where the mapping has a text, and then with that text.
pub fn to_pretty_json(map: &serde_json::Map<String, serde_json::Value>) -> (result: Result<
    String,
    SerializeError,
>)
    ensures
        match result {
            Ok(text) => map_text(*map) == Some(text@),
            Err(_) => map_text(*map) is None,
        },
{
    match map_to_pretty(map) {
        Ok(text) => Ok(text),
        Err(_) => Err(SerializeError {}),
    }
}

} // verus!
