//! The batch pass: one discriminator for every named entry of a document's
//! `instructions` list.

use crate::discriminator::{discriminator, get_hash};
use crate::json::{items_view, Json, JsonValue};
use crate::mapping::{
    distinct_keys, has_key, keys, lemma_put_absent, lemma_put_entries, lemma_put_keeps_distinct,
    lemma_put_present, lemma_put_value, map_entries, new_mapping, put, record, value_of,
};
use crate::normalize::{camel_to_snake_case, snake_case};
use crate::parse::{parse_document, parsed, DocumentParseError};
use vstd::prelude::*;

verus! {

/// The entries of a document: the items of its member `instructions`, where
/// the document is an object and that member an array; none otherwise.
pub open spec fn instructions(document: JsonValue) -> Seq<JsonValue> {
    match document.member("instructions"@) {
        Some(JsonValue::Array(items)) => items,
        _ => Seq::empty(),
    }
}

/// The name of an entry: its member `name`, where the entry is an object and
/// that member a string.
pub open spec fn entry_name(entry: JsonValue) -> Option<Seq<char>> {
    match entry.member("name"@) {
        Some(JsonValue::Text(name)) => Some(name),
        _ => None,
    }
}

/// The names of `entries`, in their order; an entry without a name adds
/// nothing.
pub open spec fn names_of(entries: Seq<JsonValue>) -> Seq<Seq<char>>
    decreases entries.len(),
{
    if entries.len() == 0 {
        Seq::empty()
    } else {
        let rest = names_of(entries.drop_last());
        match entry_name(entries.last()) {
            Some(name) => rest.push(name),
            None => rest,
        }
    }
}

/// The mapping that `names` give under `namespace`: each name in turn is
/// given the discriminator of its snake-case form.
pub open spec fn mapping_of(names: Seq<Seq<char>>, namespace: Seq<char>) -> Seq<
    (Seq<char>, Seq<u8>),
>
    decreases names.len(),
{
    if names.len() == 0 {
        Seq::empty()
    } else {
        put(
            mapping_of(names.drop_last(), namespace),
            names.last(),
            discriminator(namespace, snake_case(names.last())),
        )
    }
}

/// The mapping of a document under `namespace`.
pub open spec fn processed(document: JsonValue, namespace: Seq<char>) -> Seq<
    (Seq<char>, Seq<u8>),
> {
    mapping_of(names_of(instructions(document)), namespace)
}

/// The strings of `names` as sequences of characters.
pub open spec fn texts(names: Seq<String>) -> Seq<Seq<char>> {
    Seq::new(names.len(), |i: int| names[i]@)
}

/// The name of an entry, if it has one.
pub fn name_of(entry: &Json) -> (name: Option<&str>)
    ensures
        match name {
            Some(text) => entry_name(entry@) == Some(text@),
            None => entry_name(entry@) is None,
        },
{
    match entry.get("name") {
        Some(value) => value.as_str(),
        None => None,
    }
}

/// The names of a document's entries, in the order of the entries. Entries
/// without a name are passed over; a document without a list of entries has
/// no names.
pub fn instruction_names(document: &Json) -> (names: Vec<String>)
    ensures
        texts(names@) == names_of(instructions(document@)),
        names@.len() == names_of(instructions(document@)).len(),
{
    let mut names: Vec<String> = Vec::new();
    let items = match document.get("instructions") {
        Some(value) => match value.as_array() {
            Some(items) => items,
            None => {
                assert(texts(names@) =~= Seq::<Seq<char>>::empty());
                return names;
            },
        },
        None => {
            assert(texts(names@) =~= Seq::<Seq<char>>::empty());
            return names;
        },
    };
    let ghost entries = items_view(items@);
    assert(entries == instructions(document@));
    assert(texts(names@) =~= names_of(entries.take(0)));
    let mut i: usize = 0;
    while i < items.len()
        invariant
            i <= items.len(),
            entries == items_view(items@),
            texts(names@) == names_of(entries.take(i as int)),
        decreases items.len() - i,
    {
        let ghost before = texts(names@);
        assert(entries.take(i + 1).drop_last() =~= entries.take(i as int));
        assert(entries.take(i + 1).last() == items@[i as int]@);
        match name_of(&items[i]) {
            Some(text) => {
                names.push(text.to_owned());
                assert(texts(names@) =~= before.push(text@));
            },
            None => {},
        }
        i = i + 1;
    }
    assert(entries.take(i as int) =~= entries);
    assert(texts(names@).len() == names@.len());
    names
}

/// Computes the mapping of a document under `namespace`: every named entry of
/// its list `instructions`, in the list's order, gives its name the
/// discriminator of the name's snake-case form. A name that comes again keeps
/// its place. A document without such a list has the empty mapping.
pub fn process_document(document: &Json, namespace: &str) -> (mapping: serde_json::Map<
    String,
    serde_json::Value,
>)
    ensures
        map_entries(mapping) == processed(document@, namespace@),
{
    let names = instruction_names(document);
    let mut mapping = new_mapping();
    let ghost all = texts(names@);
    assert(all.take(0) =~= Seq::<Seq<char>>::empty());
    let mut i: usize = 0;
    while i < names.len()
        invariant
            i <= names.len(),
            all == texts(names@),
            map_entries(mapping) == mapping_of(all.take(i as int), namespace@),
        decreases names.len() - i,
    {
        assert(all.take(i + 1).drop_last() =~= all.take(i as int));
        assert(all.take(i + 1).last() == names@[i as int]@);
        let name = names[i].as_str();
        let snake_case_name = camel_to_snake_case(name);
        let sighash = get_hash(namespace, snake_case_name.as_str());
        record(&mut mapping, name, sighash);
        i = i + 1;
    }
    assert(all.take(i as int) =~= all);
    mapping
}

/// Parses a document and computes its mapping under `namespace`.
///
/// Fails exactly where the text is not valid JSON. Valid JSON of any shape
/// has a mapping.
pub fn process_instructions(json_data: &str, namespace: &str) -> (result: Result<
    serde_json::Map<String, serde_json::Value>,
    DocumentParseError,
>)
    ensures
        match result {
            Ok(mapping) => parsed(json_data@) matches Some(document) && map_entries(mapping)
                == processed(document, namespace@),
            Err(_) => parsed(json_data@) is None,
        },
{
    match parse_document(json_data) {
        Ok(document) => Ok(process_document(&document, namespace)),
        Err(error) => Err(error),
    }
}

/// The names of two lists, one after the other, are the names of the first
/// followed by those of the second.
pub proof fn lemma_names_of_concat(first: Seq<JsonValue>, second: Seq<JsonValue>)
    ensures
        names_of(first + second) == names_of(first) + names_of(second),
    decreases second.len(),
{
    if second.len() == 0 {
        assert(first + second =~= first);
        assert(names_of(first) + names_of(second) =~= names_of(first));
    } else {
        let whole = first + second;
        assert(whole.drop_last() =~= first + second.drop_last());
        assert(whole.last() == second.last());
        lemma_names_of_concat(first, second.drop_last());
        let head = names_of(first) + names_of(second.drop_last());
        match entry_name(second.last()) {
            Some(name) => {
                assert(head.push(name) =~= names_of(first) + names_of(second.drop_last()).push(
                    name,
                ));
            },
            None => {},
        }
    }
}

/// An entry without a name is passed over: the names of a list are those of
/// the list without that entry, and the entries around it are still read.
pub proof fn lemma_unnamed_entry_skipped(
    before: Seq<JsonValue>,
    entry: JsonValue,
    after: Seq<JsonValue>,
)
    requires
        entry_name(entry) is None,
    ensures
        names_of(before.push(entry) + after) == names_of(before + after),
        names_of(before.push(entry) + after) == names_of(before) + names_of(after),
{
    assert(before.push(entry).drop_last() =~= before);
    lemma_names_of_concat(before.push(entry), after);
    lemma_names_of_concat(before, after);
}

/// Where every entry has a name, there are as many names as entries, and the
/// name at each place is that of the entry at that place.
pub proof fn lemma_all_named(entries: Seq<JsonValue>)
    requires
        forall|i: int| 0 <= i < entries.len() ==> (#[trigger] entry_name(entries[i])) is Some,
    ensures
        names_of(entries).len() == entries.len(),
        forall|i: int|
            0 <= i < entries.len() ==> Some(#[trigger] names_of(entries)[i]) == entry_name(
                entries[i],
            ),
    decreases entries.len(),
{
    if entries.len() > 0 {
        let init = entries.drop_last();
        assert forall|i: int| 0 <= i < init.len() implies (#[trigger] entry_name(
            init[i],
        )) is Some by {
            assert(entry_name(entries[i]) is Some);
        }
        lemma_all_named(init);
        assert(entry_name(entries[entries.len() - 1]) is Some);
        assert forall|i: int| 0 <= i < entries.len() implies Some(
            #[trigger] names_of(entries)[i],
        ) == entry_name(entries[i]) by {
            if i < init.len() {
                assert(names_of(entries)[i] == names_of(init)[i]);
                assert(init[i] == entries[i]);
            }
        }
    }
}

/// The keys of a mapping are the names that it was made from: a key is there
/// exactly if it is one of the names.
pub proof fn lemma_mapping_has_key(names: Seq<Seq<char>>, namespace: Seq<char>, key: Seq<char>)
    ensures
        has_key(mapping_of(names, namespace), key) <==> names.contains(key),
    decreases names.len(),
{
    let whole = mapping_of(names, namespace);
    if names.len() == 0 {
    } else {
        let init = names.drop_last();
        let last = names.last();
        let earlier = mapping_of(init, namespace);
        let value = discriminator(namespace, snake_case(last));
        lemma_mapping_has_key(init, namespace, key);
        if has_key(whole, key) {
            let at = choose|i: int| 0 <= i < whole.len() && #[trigger] whole[i].0 == key;
            lemma_put_entries(earlier, last, value, at);
            if whole[at] == (last, value) {
                assert(names[names.len() - 1] == key);
            } else {
                assert(earlier[at].0 == key);
                let i = choose|i: int| 0 <= i < init.len() && init[i] == key;
                assert(names[i] == key);
            }
        }
        if names.contains(key) {
            let i = choose|i: int| 0 <= i < names.len() && names[i] == key;
            if i == names.len() - 1 {
                lemma_put_value(earlier, last, value);
            } else {
                assert(init[i] == key);
                assert(has_key(earlier, key));
                let at = choose|j: int| 0 <= j < earlier.len() && #[trigger] earlier[j].0 == key;
                if has_key(earlier, last) {
                    lemma_put_present(earlier, last, value);
                    assert(keys(whole)[at] == keys(earlier)[at]);
                    assert(whole[at].0 == key);
                } else {
                    lemma_put_absent(earlier, last, value);
                    assert(whole[at].0 == key);
                }
            }
        }
    }
}

/// No key stands twice in a mapping, however often its name came.
pub proof fn lemma_mapping_keys_distinct(names: Seq<Seq<char>>, namespace: Seq<char>)
    ensures
        distinct_keys(mapping_of(names, namespace)),
    decreases names.len(),
{
    if names.len() > 0 {
        lemma_mapping_keys_distinct(names.drop_last(), namespace);
        lemma_put_keeps_distinct(
            mapping_of(names.drop_last(), namespace),
            names.last(),
            discriminator(namespace, snake_case(names.last())),
        );
    }
}

/// Every key of a mapping has the discriminator of its own snake-case form:
/// where a name came more than once, that of its last coming, which is the
/// same.
pub proof fn lemma_mapping_values(names: Seq<Seq<char>>, namespace: Seq<char>, at: int)
    requires
        0 <= at < mapping_of(names, namespace).len(),
    ensures
        mapping_of(names, namespace)[at].1 == discriminator(
            namespace,
            snake_case(mapping_of(names, namespace)[at].0),
        ),
    decreases names.len(),
{
    if names.len() > 0 {
        let earlier = mapping_of(names.drop_last(), namespace);
        let value = discriminator(namespace, snake_case(names.last()));
        lemma_put_entries(earlier, names.last(), value, at);
        if mapping_of(names, namespace)[at] != (names.last(), value) {
            lemma_mapping_values(names.drop_last(), namespace, at);
        }
    }
}

/// Names that are all different give a mapping with one key for each name,
/// in the order of the names.
pub proof fn lemma_distinct_names_kept(names: Seq<Seq<char>>, namespace: Seq<char>)
    requires
        names.no_duplicates(),
    ensures
        keys(mapping_of(names, namespace)) == names,
        mapping_of(names, namespace).len() == names.len(),
    decreases names.len(),
{
    if names.len() == 0 {
        assert(keys(mapping_of(names, namespace)) =~= names);
    } else {
        let init = names.drop_last();
        let last = names.last();
        let earlier = mapping_of(init, namespace);
        let value = discriminator(namespace, snake_case(last));
        lemma_distinct_names_kept(init, namespace);
        lemma_mapping_has_key(init, namespace, last);
        if init.contains(last) {
            let i = choose|i: int| 0 <= i < init.len() && init[i] == last;
            assert(names[i] == names[names.len() - 1]);
        }
        lemma_put_absent(earlier, last, value);
        assert(keys(earlier.push((last, value))) =~= keys(earlier).push(last));
        assert(init.push(last) =~= names);
    }
}

/// Batch completeness: a document whose entries all have names, no two the
/// same, has a mapping with one key for each entry, in the order of the
/// entries.
pub proof fn lemma_batch_complete(document: JsonValue, namespace: Seq<char>)
    requires
        forall|i: int|
            0 <= i < instructions(document).len() ==> (#[trigger] entry_name(
                instructions(document)[i],
            )) is Some,
        names_of(instructions(document)).no_duplicates(),
    ensures
        processed(document, namespace).len() == instructions(document).len(),
        forall|i: int|
            0 <= i < instructions(document).len() ==> Some(
                #[trigger] processed(document, namespace)[i].0,
            ) == entry_name(instructions(document)[i]),
{
    let entries = instructions(document);
    let names = names_of(entries);
    lemma_all_named(entries);
    lemma_distinct_names_kept(names, namespace);
    assert forall|i: int| 0 <= i < entries.len() implies Some(
        #[trigger] processed(document, namespace)[i].0,
    ) == entry_name(entries[i]) by {
        assert(keys(processed(document, namespace))[i] == names[i]);
        assert(Some(names_of(entries)[i]) == entry_name(entries[i]));
    }
}

/// Duplicate handling: a name that came before adds no key when it comes
/// again. The keys stay as they were, in their order, and the name has the
/// discriminator of its later coming.
pub proof fn lemma_repeated_name_one_key(
    names: Seq<Seq<char>>,
    namespace: Seq<char>,
    name: Seq<char>,
)
    requires
        names.contains(name),
    ensures
        keys(mapping_of(names.push(name), namespace)) == keys(mapping_of(names, namespace)),
        mapping_of(names.push(name), namespace).len() == mapping_of(names, namespace).len(),
        value_of(mapping_of(names.push(name), namespace), name) == Some(
            discriminator(namespace, snake_case(name)),
        ),
{
    let earlier = mapping_of(names, namespace);
    let value = discriminator(namespace, snake_case(name));
    assert(names.push(name).drop_last() =~= names);
    lemma_mapping_has_key(names, namespace, name);
    lemma_put_present(earlier, name, value);
    lemma_put_value(earlier, name, value);
}

} // verus!
