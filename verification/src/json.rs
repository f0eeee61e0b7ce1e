//! JSON documents in canonical form: the members of every object in ascending
//! order of their keys.
use vstd::prelude::*;

use crate::order::stable_sort;

verus! {

// ---------------------------------------------------------------------------
// Documents
// ---------------------------------------------------------------------------

/// A JSON document. A number is given by the text in which it is written; an
/// object by its members in order.
pub enum Json {
    Null,
    Bool(bool),
    Number(Seq<char>),
    Text(Seq<char>),
    Array(Seq<Json>),
    Object(Seq<(Seq<char>, Json)>),
}

/// A `serde_json` value is opaque; [`value_json`] is the document it holds.
#[verifier::external_type_specification]
#[verifier::external_body]
pub struct ExValue(serde_json::Value);

/// A `serde_json` map is opaque; [`map_members`] is what it holds.
#[verifier::external_type_specification]
#[verifier::external_body]
#[verifier::reject_recursive_types(K)]
#[verifier::reject_recursive_types(V)]
pub struct ExMap<K, V>(serde_json::Map<K, V>);

/// The error of `serde_json`, carried without looking inside.
#[verifier::external_type_specification]
#[verifier::external_body]
pub struct ExError(serde_json::Error);

/// The document that a value holds.
pub uninterp spec fn value_json(v: serde_json::Value) -> Json;

/// The members that a map holds, in the order in which it is walked.
pub uninterp spec fn map_members(
    m: serde_json::Map<String, serde_json::Value>,
) -> Seq<(Seq<char>, Json)>;

/// What `serde_json::from_str` makes of a text: a document, or nothing if the
/// text is not JSON.
pub uninterp spec fn parsed_json(text: Seq<char>) -> Option<Json>;

/// A character of a string as it is written: a quote, a backslash and the
/// control characters below the space are escaped, five of them in short.
pub open spec fn escaped_char(c: char) -> Seq<char> {
    if c == '"' || c == '\\' {
        seq!['\\', c]
    } else if c as nat == 8 {
        seq!['\\', 'b']
    } else if c as nat == 9 {
        seq!['\\', 't']
    } else if c as nat == 10 {
        seq!['\\', 'n']
    } else if c as nat == 12 {
        seq!['\\', 'f']
    } else if c as nat == 13 {
        seq!['\\', 'r']
    } else if (c as nat) < 32 {
        seq![
            '\\',
            'u',
            '0',
            '0',
            crate::digest::hex_digit(c as nat / 16),
            crate::digest::hex_digit(c as nat % 16),
        ]
    } else {
        seq![c]
    }
}

/// The characters of a string as they are written.
pub open spec fn escaped(s: Seq<char>) -> Seq<char>
    decreases s.len(),
{
    if s.len() == 0 {
        Seq::empty()
    } else {
        escaped_char(s[0]) + escaped(s.drop_first())
    }
}

/// A string as it is written: between quotes, with escapes where it needs them.
pub open spec fn string_text(s: Seq<char>) -> Seq<char> {
    seq!['"'] + escaped(s) + seq!['"']
}

/// A character that numbers are written with.
pub open spec fn number_char(c: char) -> bool {
    '0' <= c <= '9' || c == '-' || c == '+' || c == '.' || c == 'e'
}

/// A text that is written with the characters of numbers.
pub open spec fn numeral(text: Seq<char>) -> bool {
    text.len() > 0 && forall|i: int| 0 <= i < text.len() ==> number_char(#[trigger] text[i])
}

/// Every number of a document is a numeral.
pub open spec fn holds_numerals(doc: Json) -> bool
    decreases doc,
{
    match doc {
        Json::Number(text) => numeral(text),
        Json::Array(items) => forall|i: int|
            0 <= i < items.len() ==> holds_numerals(#[trigger] items[i]),
        Json::Object(members) => forall|i: int| #![trigger members[i]]
            0 <= i < members.len() ==> holds_numerals(members[i].1),
        _ => true,
    }
}

/// The document that a text stands for, if it is JSON: what `serde_json` makes
/// of it, with numerals for numbers.
pub open spec fn read_json(text: Seq<char>) -> Option<Json> {
    match parsed_json(text) {
        Some(doc) => if holds_numerals(doc) {
            Some(doc)
        } else {
            None
        },
        None => None,
    }
}

/// A document as it is written, without white space: elements and members are
/// separated by commas, keys from values by colons.
pub open spec fn json_text(doc: Json) -> Seq<char>
    decreases doc,
{
    match doc {
        Json::Null => "null"@,
        Json::Bool(b) => if b {
            "true"@
        } else {
            "false"@
        },
        Json::Number(text) => text,
        Json::Text(s) => string_text(s),
        Json::Array(items) => seq!['['] + crate::text::joined(json_texts(items), seq![','])
            + seq![']'],
        Json::Object(members) => seq!['{'] + crate::text::joined(
            member_texts(members),
            seq![','],
        ) + seq!['}'],
    }
}

/// Documents as they are written.
pub open spec fn json_texts(items: Seq<Json>) -> Seq<Seq<char>>
    decreases items,
{
    if items.len() == 0 {
        Seq::empty()
    } else {
        json_texts(items.drop_last()).push(json_text(items.last()))
    }
}

/// Members as they are written.
pub open spec fn member_texts(members: Seq<(Seq<char>, Json)>) -> Seq<Seq<char>>
    decreases members,
{
    if members.len() == 0 {
        Seq::empty()
    } else {
        member_texts(members.drop_last()).push(
            string_text(members.last().0) + seq![':'] + json_text(members.last().1),
        )
    }
}

/// The documents that values hold.
pub open spec fn jsons(values: Seq<serde_json::Value>) -> Seq<Json> {
    values.map_values(|v: serde_json::Value| value_json(v))
}

/// The value of the member with a key, if there is one.
pub open spec fn member_value(members: Seq<(Seq<char>, Json)>, key: Seq<char>) -> Option<Json>
    decreases members.len(),
{
    if members.len() == 0 {
        None
    } else if members.last().0 == key {
        Some(members.last().1)
    } else {
        member_value(members.drop_last(), key)
    }
}

// ---------------------------------------------------------------------------
// Outside calls
// ---------------------------------------------------------------------------

/// `serde_json::from_str` parses a text into a value. Which document comes out
/// is named by [`parsed_json`]; it fails exactly where there is none. A number is
/// an integer or a finite float, and both are written as numerals.
#[verifier::external_body]
pub(crate) fn parse_value(raw: &str) -> (r: Result<serde_json::Value, serde_json::Error>)
    ensures
        match r {
            Ok(v) => parsed_json(raw@) == Some(value_json(v)) && holds_numerals(value_json(v)),
            Err(_) => parsed_json(raw@) is None,
        },
{
    serde_json::from_str::<serde_json::Value>(raw)
}

/// `serde_json::to_vec` writes a value as JSON text in UTF-8. A value has only
/// string keys and its own `Serialize` never refuses, so the call succeeds. The
/// text is compact: no white space, commas and colons between the parts, strings
/// in quotes, with escapes where [`escaped_char`] has them.
#[verifier::external_body]
pub(crate) fn value_bytes(v: &serde_json::Value) -> (r: Result<Vec<u8>, serde_json::Error>)
    ensures
        r is Ok,
        r->Ok_0@ == vstd::utf8::encode_utf8(json_text(value_json(*v))),
{
    serde_json::to_vec(v)
}

/// `serde_json::to_string` writes a value as JSON text. It succeeds for the
/// same reason as [`value_bytes`].
#[verifier::external_body]
pub(crate) fn value_text(v: &serde_json::Value) -> (r: Result<String, serde_json::Error>)
    ensures
        r is Ok,
        r->Ok_0@ == json_text(value_json(*v)),
{
    serde_json::to_string(v)
}

/// `Value::as_array` hands out the elements of an array, and nothing for any
/// other value.
pub assume_specification[ serde_json::Value::as_array ](v: &serde_json::Value) -> (r: Option<
    &Vec<serde_json::Value>,
>)
    ensures
        match r {
            Some(items) => value_json(*v) == Json::Array(jsons(items@)),
            None => !(value_json(*v) is Array),
        },
;

/// `Value::as_object` hands out the map of an object, and nothing for any
/// other value.
pub assume_specification[ serde_json::Value::as_object ](v: &serde_json::Value) -> (r: Option<
    &serde_json::Map<String, serde_json::Value>,
>)
    ensures
        match r {
            Some(m) => value_json(*v) == Json::Object(map_members(*m)),
            None => !(value_json(*v) is Object),
        },
;

/// `Value::clone` copies a value; the copy holds the same document.
pub assume_specification[ <serde_json::Value as Clone>::clone ](
    v: &serde_json::Value,
) -> (r: serde_json::Value)
    ensures
        value_json(r) == value_json(*v),
;

/// `Map::new` makes an empty map.
pub assume_specification[ serde_json::Map::<String, serde_json::Value>::new ]() -> (r:
    serde_json::Map<String, serde_json::Value>)
    ensures
        map_members(r) == Seq::<(Seq<char>, Json)>::empty(),
;

/// `Map::insert` gives a key its value and hands back the value it had. A key
/// that comes after every key of the map is walked last.
pub assume_specification[ serde_json::Map::<String, serde_json::Value>::insert ](
    m: &mut serde_json::Map<String, serde_json::Value>,
    k: String,
    v: serde_json::Value,
) -> (r: Option<serde_json::Value>)
    ensures
        match r {
            Some(prior) => member_value(map_members(*old(m)), k@) == Some(value_json(prior)),
            None => member_value(map_members(*old(m)), k@) is None,
        },
        forall|key: Seq<char>| #[trigger]
            member_value(map_members(*final(m)), key) == if key == k@ {
                Some(value_json(v))
            } else {
                member_value(map_members(*old(m)), key)
            },
        (forall|i: int|
            0 <= i < map_members(*old(m)).len() ==> crate::order::text_lt(
                (#[trigger] map_members(*old(m))[i]).0,
                k@,
            )) ==> map_members(*final(m)) == map_members(*old(m)).push((k@, value_json(v))),
;

/// `Map::keys` walks the keys of a map; each occurs once.
#[verifier::external_body]
pub(crate) fn map_keys(m: &serde_json::Map<String, serde_json::Value>) -> (r: Vec<String>)
    ensures
        r@.len() == map_members(*m).len(),
        forall|i: int| 0 <= i < r@.len() ==> (#[trigger] r@[i])@ == map_members(*m)[i].0,
        forall|i: int, j: int|
            0 <= i < j < r@.len() ==> (#[trigger] r@[i])@ != (#[trigger] r@[j])@,
{
    m.keys().cloned().collect()
}

/// `Map::get` finds the value of a key, if the map has the key.
#[verifier::external_body]
pub(crate) fn map_get<'a>(
    m: &'a serde_json::Map<String, serde_json::Value>,
    key: &str,
) -> (r: Option<&'a serde_json::Value>)
    ensures
        match r {
            Some(v) => member_value(map_members(*m), key@) == Some(value_json(*v)),
            None => member_value(map_members(*m), key@) is None,
        },
{
    m.get(key)
}

/// `Value::Null` is the null document.
#[verifier::external_body]
pub(crate) fn null_value() -> (r: serde_json::Value)
    ensures
        value_json(r) == Json::Null,
{
    serde_json::Value::Null
}

/// `Value::Bool` holds a truth value.
#[verifier::external_body]
pub(crate) fn bool_value(b: bool) -> (r: serde_json::Value)
    ensures
        value_json(r) == Json::Bool(b),
{
    serde_json::Value::Bool(b)
}

/// `Value::Number` over `Number::from` holds an integer, which is written in
/// decimal.
#[verifier::external_body]
pub(crate) fn integer_value(n: i64) -> (r: serde_json::Value)
    ensures
        value_json(r) == Json::Number(crate::text::integer_text(n as int)),
{
    serde_json::Value::Number(serde_json::Number::from(n))
}

/// `Value::Number` over `Number::from` holds a natural number, which is written
/// in decimal.
#[verifier::external_body]
pub(crate) fn natural_value(n: u64) -> (r: serde_json::Value)
    ensures
        value_json(r) == Json::Number(crate::text::decimal(n as nat)),
{
    serde_json::Value::Number(serde_json::Number::from(n))
}

/// `Value::String` holds a text.
#[verifier::external_body]
pub(crate) fn text_value(s: String) -> (r: serde_json::Value)
    ensures
        value_json(r) == Json::Text(s@),
{
    serde_json::Value::String(s)
}

/// `Value::Array` holds a list of values.
#[verifier::external_body]
pub(crate) fn array_value(items: Vec<serde_json::Value>) -> (r: serde_json::Value)
    ensures
        value_json(r) == Json::Array(jsons(items@)),
{
    serde_json::Value::Array(items)
}

/// `Value::Object` holds the members of a map.
#[verifier::external_body]
pub(crate) fn object_value(m: serde_json::Map<String, serde_json::Value>) -> (r: serde_json::Value)
    ensures
        value_json(r) == Json::Object(map_members(m)),
{
    serde_json::Value::Object(m)
}

// ---------------------------------------------------------------------------
// Canonical form
// ---------------------------------------------------------------------------

/// The order of members: by key.
pub open spec fn key_order() -> spec_fn((Seq<char>, Json), (Seq<char>, Json)) -> bool {
    |a: (Seq<char>, Json), b: (Seq<char>, Json)| crate::order::text_le(a.0, b.0)
}

/// A document with the members of every object sorted by key.
pub open spec fn canonical(doc: Json) -> Json
    decreases doc,
{
    match doc {
        Json::Array(items) => Json::Array(canonical_items(items)),
        Json::Object(members) => Json::Object(
            crate::order::stable_sorted(canonical_members(members), key_order()),
        ),
        other => other,
    }
}

/// Each of a list of documents in canonical form.
pub open spec fn canonical_items(items: Seq<Json>) -> Seq<Json>
    decreases items,
{
    if items.len() == 0 {
        Seq::empty()
    } else {
        canonical_items(items.drop_last()).push(canonical(items.last()))
    }
}

/// Members, each with its value in canonical form.
pub open spec fn canonical_members(members: Seq<(Seq<char>, Json)>) -> Seq<(Seq<char>, Json)>
    decreases members,
{
    if members.len() == 0 {
        Seq::empty()
    } else {
        canonical_members(members.drop_last()).push(
            (members.last().0, canonical(members.last().1)),
        )
    }
}

pub(crate) proof fn lemma_canonical_items(items: Seq<Json>)
    ensures
        canonical_items(items).len() == items.len(),
        forall|i: int|
            0 <= i < items.len() ==> #[trigger] canonical_items(items)[i] == canonical(items[i]),
    decreases items.len(),
{
    if items.len() > 0 {
        lemma_canonical_items(items.drop_last());
    }
}

proof fn lemma_canonical_members(members: Seq<(Seq<char>, Json)>)
    ensures
        canonical_members(members).len() == members.len(),
        forall|i: int|
            0 <= i < members.len() ==> #[trigger] canonical_members(members)[i] == (
                members[i].0,
                canonical(members[i].1),
            ),
    decreases members.len(),
{
    if members.len() > 0 {
        lemma_canonical_members(members.drop_last());
    }
}

/// The order of members is total.
proof fn lemma_key_order()
    ensures
        crate::order::total_preorder(key_order()),
{
    crate::order::text_order_is_total();
}

/// The keys are pairwise different.
pub open spec fn distinct_keys(members: Seq<(Seq<char>, Json)>) -> bool {
    forall|i: int, j: int|
        0 <= i < j < members.len() ==> (#[trigger] members[i]).0 != (#[trigger] members[j]).0
}

/// Where keys do not repeat, each member is the one with its key.
proof fn lemma_member_value(members: Seq<(Seq<char>, Json)>, i: int)
    requires
        distinct_keys(members),
        0 <= i < members.len(),
    ensures
        member_value(members, members[i].0) == Some(members[i].1),
    decreases members.len(),
{
    if i < members.len() - 1 {
        assert(members[i].0 != members[members.len() - 1].0);
        assert forall|p: int, q: int| 0 <= p < q < members.drop_last().len() implies (
        #[trigger] members.drop_last()[p]).0 != (#[trigger] members.drop_last()[q]).0 by {
            assert(members[p].0 != members[q].0);
        }
        lemma_member_value(members.drop_last(), i);
    }
}

/// A member that is found is there.
proof fn lemma_member_found(members: Seq<(Seq<char>, Json)>, key: Seq<char>) -> (i: int)
    requires
        member_value(members, key) is Some,
    ensures
        0 <= i < members.len(),
        members[i] == (key, member_value(members, key)->0),
    decreases members.len(),
{
    if members.last().0 == key {
        members.len() - 1
    } else {
        lemma_member_found(members.drop_last(), key)
    }
}

/// The sorted members of an object, given its keys in ascending order.
proof fn lemma_sorted_members(
    members: Seq<(Seq<char>, Json)>,
    keys: Seq<Seq<char>>,
    built: Seq<(Seq<char>, Json)>,
)
    requires
        distinct_keys(members),
        keys == crate::order::stable_sorted(
            members.map_values(|m: (Seq<char>, Json)| m.0),
            crate::order::text_order(),
        ),
        built.len() == keys.len(),
        forall|i: int| #![trigger built[i]]
            0 <= i < built.len() ==> built[i].0 == keys[i] && member_value(members, keys[i]) is Some
                && built[i].1 == canonical(member_value(members, keys[i])->0),
    ensures
        built == crate::order::stable_sorted(canonical_members(members), key_order()),
{
    broadcast use vstd::seq_lib::group_to_multiset_ensures;

    let done = canonical_members(members);
    let key_of = |m: (Seq<char>, Json)| m.0;
    lemma_canonical_members(members);
    lemma_key_order();
    assert(done.map_values(key_of) =~= members.map_values(key_of));
    crate::order::sorting_commutes_with_map(
        done,
        key_order(),
        key_of,
        crate::order::text_order(),
    );
    crate::order::stable_sorted_is_a_sort(done, key_order());
    let sorted = crate::order::stable_sorted(done, key_order());
    assert(sorted.map_values(key_of) =~= keys);
    assert forall|i: int| 0 <= i < built.len() implies built[i] == sorted[i] by {
        assert(sorted[i].0 == sorted.map_values(key_of)[i]);
        assert(built[i].0 == keys[i]);
        assert(sorted.contains(sorted[i]));
        assert(sorted.to_multiset().contains(sorted[i]));
        assert(done.to_multiset().contains(sorted[i]));
        assert(done.contains(sorted[i]));
        let k = choose|k: int| 0 <= k < done.len() && done[k] == sorted[i];
        assert(done[k] == (members[k].0, canonical(members[k].1)));
        lemma_member_value(members, k);
    }
    assert(built =~= sorted);
}

/// The value of a member is smaller than the object.
proof fn lemma_member_smaller(doc: Json, at: int)
    requires
        doc is Object,
        0 <= at < doc->Object_0.len(),
    ensures
        decreases_to!(doc => doc->Object_0[at].1),
{
    assert(decreases_to!(doc => doc->Object_0));
    assert(decreases_to!(doc->Object_0 => doc->Object_0[at]));
    assert(decreases_to!(doc->Object_0[at] => doc->Object_0[at].1));
}

/// An element is smaller than the array.
proof fn lemma_item_smaller(doc: Json, at: int)
    requires
        doc is Array,
        0 <= at < doc->Array_0.len(),
    ensures
        decreases_to!(doc => doc->Array_0[at]),
{
    assert(decreases_to!(doc => doc->Array_0));
    assert(decreases_to!(doc->Array_0 => doc->Array_0[at]));
}

/// The value in canonical form: the members of every object in ascending order
/// of their keys.
pub fn canonicalize(v: &serde_json::Value) -> (r: serde_json::Value)
    ensures
        value_json(r) == canonical(value_json(*v)),
    decreases value_json(*v),
{
    if let Some(map) = v.as_object() {
        let ghost members = map_members(*map);
        let unsorted = map_keys(map);
        let ghost key_of = |m: (Seq<char>, Json)| m.0;
        proof {
            assert(crate::text::texts(unsorted@) =~= members.map_values(key_of));
            assert forall|i: int, j: int| 0 <= i < j < members.len() implies (
            #[trigger] members[i]).0 != (#[trigger] members[j]).0 by {
                assert(unsorted@[i]@ != unsorted@[j]@);
            }
            crate::order::sorting_commutes_with_map(
                unsorted@,
                crate::order::rank_order::<String>(),
                |s: String| s@,
                crate::order::text_order(),
            );
        }
        let keys = stable_sort(unsorted);
        let ghost key_texts = crate::text::texts(keys@);
        proof {
            lemma_keys_ascending(members, key_texts);
        }
        let mut out = serde_json::Map::<String, serde_json::Value>::new();
        let mut i: usize = 0;
        while i < keys.len()
            invariant
                i <= keys@.len(),
                key_texts == crate::text::texts(keys@),
                value_json(*v) == Json::Object(members),
                members == map_members(*map),
                crate::order::ascending(key_texts, crate::order::text_order()),
                forall|k: int|
                    0 <= k < key_texts.len() ==> member_value(
                        members,
                        #[trigger] key_texts[k],
                    ) is Some,
                map_members(out).len() == i,
                forall|k: int| #![trigger map_members(out)[k]]
                    0 <= k < i ==> map_members(out)[k].0 == key_texts[k] && map_members(out)[k].1
                        == canonical(member_value(members, key_texts[k])->0),
            decreases keys@.len() - i,
        {
            assert(key_texts[i as int] == keys@[i as int]@);
            if let Some(value) = map_get(map, keys[i].as_str()) {
                proof {
                    let at = lemma_member_found(members, keys@[i as int]@);
                    assert(members[at].1 == value_json(*value));
                    lemma_member_smaller(value_json(*v), at);
                }
                let ghost before = map_members(out);
                let canon = canonicalize(value);
                proof {
                    assert forall|k: int| 0 <= k < before.len() implies crate::order::text_lt(
                        (#[trigger] before[k]).0,
                        keys@[i as int]@,
                    ) by {
                        assert(crate::order::text_order()(key_texts[k], key_texts[i as int])
                            && !crate::order::text_order()(key_texts[i as int], key_texts[k]));
                    }
                }
                let _ = out.insert(keys[i].clone(), canon);
            }
            i += 1;
        }
        proof {
            lemma_sorted_members(members, key_texts, map_members(out));
        }
        return object_value(out);
    }
    if let Some(items) = v.as_array() {
        let mut out: Vec<serde_json::Value> = Vec::new();
        let mut i: usize = 0;
        while i < items.len()
            invariant
                i <= items@.len(),
                value_json(*v) == Json::Array(jsons(items@)),
                out@.len() == i,
                forall|k: int|
                    0 <= k < i ==> value_json(#[trigger] out@[k]) == canonical(
                        value_json(items@[k]),
                    ),
            decreases items@.len() - i,
        {
            assert(jsons(items@)[i as int] == value_json(items@[i as int]));
            proof {
                lemma_item_smaller(value_json(*v), i as int);
            }
            out.push(canonicalize(&items[i]));
            i += 1;
        }
        proof {
            lemma_canonical_items(jsons(items@));
            assert(jsons(out@) =~= canonical_items(jsons(items@)));
        }
        return array_value(out);
    }
    v.clone()
}

/// The sorted keys of an object are strictly ascending, and each is there.
proof fn lemma_keys_ascending(members: Seq<(Seq<char>, Json)>, keys: Seq<Seq<char>>)
    requires
        distinct_keys(members),
        keys == crate::order::stable_sorted(
            members.map_values(|m: (Seq<char>, Json)| m.0),
            crate::order::text_order(),
        ),
    ensures
        crate::order::ascending(keys, crate::order::text_order()),
        forall|k: int| 0 <= k < keys.len() ==> member_value(members, #[trigger] keys[k]) is Some,
{
    broadcast use vstd::seq_lib::group_to_multiset_ensures;

    let all = members.map_values(|m: (Seq<char>, Json)| m.0);
    crate::order::text_order_is_total();
    crate::order::stable_sorted_is_a_sort(all, crate::order::text_order());
    assert(all.no_duplicates()) by {
        assert forall|i: int, j: int| 0 <= i < all.len() && 0 <= j < all.len() && i != j implies all[i]
            != all[j] by {
            if i < j {
                assert(members[i].0 != members[j].0);
            } else {
                assert(members[j].0 != members[i].0);
            }
        }
    }
    all.lemma_multiset_has_no_duplicates();
    assert forall|a: Seq<char>| keys.to_multiset().contains(a) implies keys.to_multiset().count(a)
        == 1 by {
        assert(all.to_multiset().contains(a));
    }
    keys.lemma_multiset_has_no_duplicates_conv();
    assert forall|i: int, j: int| 0 <= i < j < keys.len() implies crate::order::text_order()(
        #[trigger] keys[i],
        #[trigger] keys[j],
    ) && !crate::order::text_order()(keys[j], keys[i]) by {
        assert(crate::order::text_order()(keys[i], keys[j]));
        assert(keys[i] != keys[j]);
    }
    assert forall|k: int| 0 <= k < keys.len() implies member_value(
        members,
        #[trigger] keys[k],
    ) is Some by {
        assert(keys.contains(keys[k]));
        assert(all.to_multiset().contains(keys[k]));
        assert(all.contains(keys[k]));
        let m = choose|m: int| 0 <= m < all.len() && all[m] == keys[k];
        lemma_member_value(members, m);
    }
}

// ---------------------------------------------------------------------------
// Laws
// ---------------------------------------------------------------------------

/// Every sorted member is one of the members, with its value in canonical
/// form.
proof fn lemma_sorted_member(members: Seq<(Seq<char>, Json)>, i: int) -> (k: int)
    requires
        0 <= i < members.len(),
    ensures
        0 <= k < members.len(),
        crate::order::stable_sorted(canonical_members(members), key_order()).len() == members.len(),
        crate::order::stable_sorted(canonical_members(members), key_order())[i] == (
            members[k].0,
            canonical(members[k].1),
        ),
{
    broadcast use vstd::seq_lib::group_to_multiset_ensures;

    let done = canonical_members(members);
    let sorted = crate::order::stable_sorted(done, key_order());
    lemma_canonical_members(members);
    lemma_key_order();
    crate::order::stable_sorted_is_a_sort(done, key_order());
    assert(sorted.contains(sorted[i]));
    assert(sorted.to_multiset().contains(sorted[i]));
    assert(done.contains(sorted[i]));
    let k = choose|k: int| 0 <= k < done.len() && done[k] == sorted[i];
    assert(done[k] == (members[k].0, canonical(members[k].1)));
    k
}

/// Bringing a document into canonical form twice is the same as once.
pub proof fn canonical_is_idempotent(doc: Json)
    ensures
        canonical(canonical(doc)) == canonical(doc),
    decreases doc,
{
    match doc {
        Json::Array(items) => {
            let done = canonical_items(items);
            lemma_canonical_items(items);
            lemma_canonical_items(done);
            assert forall|i: int| 0 <= i < done.len() implies canonical_items(done)[i]
                == done[i] by {
                lemma_item_smaller(doc, i);
                canonical_is_idempotent(items[i]);
                assert(canonical_items(done)[i] == canonical(done[i]));
                assert(done[i] == canonical(items[i]));
            }
            assert(canonical_items(done) =~= done);
        },
        Json::Object(members) => {
            let sorted = crate::order::stable_sorted(canonical_members(members), key_order());
            lemma_canonical_members(members);
            lemma_key_order();
            crate::order::stable_sorted_is_a_sort(canonical_members(members), key_order());
            lemma_canonical_members(sorted);
            assert forall|i: int| 0 <= i < sorted.len() implies canonical_members(sorted)[i]
                == sorted[i] by {
                let k = lemma_sorted_member(members, i);
                lemma_member_smaller(doc, k);
                canonical_is_idempotent(members[k].1);
                assert(canonical_members(sorted)[i] == (sorted[i].0, canonical(sorted[i].1)));
            }
            assert(canonical_members(sorted) =~= sorted);
            crate::order::sorted_list_is_kept(sorted, key_order());
        },
        _ => {},
    }
}

/// The members of every object of a document are in ascending order of their
/// keys.
pub open spec fn members_sorted(doc: Json) -> bool
    decreases doc,
{
    match doc {
        Json::Array(items) => forall|i: int| 0 <= i < items.len() ==> members_sorted(items[i]),
        Json::Object(members) => crate::order::sorted(members, key_order()) && forall|i: int|
            0 <= i < members.len() ==> members_sorted(members[i].1),
        _ => true,
    }
}

/// In canonical form the members of every object are sorted by key.
pub proof fn canonical_members_are_sorted(doc: Json)
    ensures
        members_sorted(canonical(doc)),
    decreases doc,
{
    match doc {
        Json::Array(items) => {
            lemma_canonical_items(items);
            assert forall|i: int| 0 <= i < items.len() implies members_sorted(
                canonical_items(items)[i],
            ) by {
                lemma_item_smaller(doc, i);
                canonical_members_are_sorted(items[i]);
                assert(canonical_items(items)[i] == canonical(items[i]));
            }
        },
        Json::Object(members) => {
            let sorted = crate::order::stable_sorted(canonical_members(members), key_order());
            lemma_canonical_members(members);
            lemma_key_order();
            crate::order::stable_sorted_is_a_sort(canonical_members(members), key_order());
            assert forall|i: int| 0 <= i < sorted.len() implies members_sorted(sorted[i].1) by {
                let k = lemma_sorted_member(members, i);
                lemma_member_smaller(doc, k);
                canonical_members_are_sorted(members[k].1);
            }
        },
        _ => {},
    }
}

/// Two documents differ at most in the order of the members of their objects.
pub open spec fn same_document(a: Json, b: Json) -> bool
    decreases a,
{
    match (a, b) {
        (Json::Array(x), Json::Array(y)) => x.len() == y.len() && forall|i: int|
            0 <= i < x.len() ==> same_document(#[trigger] x[i], y[i]),
        (Json::Object(x), Json::Object(y)) => distinct_keys(x) && distinct_keys(y) && x.len()
            == y.len() && forall|i: int|
            0 <= i < x.len() ==> {
                &&& member_value(y, (#[trigger] x[i]).0) is Some
                &&& same_document(x[i].1, member_value(y, x[i].0)->0)
            },
        _ => a == b,
    }
}

/// Member order does not leak into the canonical form.
pub proof fn canonical_ignores_member_order(a: Json, b: Json)
    requires
        same_document(a, b),
    ensures
        canonical(a) == canonical(b),
    decreases a,
{
    match (a, b) {
        (Json::Array(x), Json::Array(y)) => {
            lemma_canonical_items(x);
            lemma_canonical_items(y);
            assert forall|i: int| 0 <= i < x.len() implies canonical_items(x)[i]
                == canonical_items(y)[i] by {
                lemma_item_smaller(a, i);
                assert(same_document(x[i], y[i]));
                canonical_ignores_member_order(x[i], y[i]);
                assert(canonical_items(x)[i] == canonical(x[i]));
                assert(canonical_items(y)[i] == canonical(y[i]));
            }
            assert(canonical_items(x) =~= canonical_items(y));
        },
        (Json::Object(x), Json::Object(y)) => {
            let cx = canonical_members(x);
            let cy = canonical_members(y);
            lemma_canonical_members(x);
            lemma_canonical_members(y);
            assert forall|i: int| 0 <= i < cx.len() implies cy.contains(#[trigger] cx[i]) by {
                assert(member_value(y, x[i].0) is Some);
                let k = lemma_member_found(y, x[i].0);
                lemma_member_smaller(a, i);
                canonical_ignores_member_order(x[i].1, y[k].1);
                assert(cx[i] == (x[i].0, canonical(x[i].1)));
                assert(cy[k] == (y[k].0, canonical(y[k].1)));
            }
            lemma_same_members(cx, cy);
            lemma_sorted_unique(cx, cy);
        },
        _ => {},
    }
}

/// Where one list of members with pairwise different keys lies inside another
/// of the same length, they hold the same members.
proof fn lemma_same_members(x: Seq<(Seq<char>, Json)>, y: Seq<(Seq<char>, Json)>)
    requires
        distinct_keys(x),
        distinct_keys(y),
        x.len() == y.len(),
        forall|i: int| 0 <= i < x.len() ==> y.contains(#[trigger] x[i]),
    ensures
        forall|j: int| 0 <= j < y.len() ==> x.contains(#[trigger] y[j]),
{
    broadcast use vstd::seq_lib::seq_to_set_is_finite;

    lemma_no_duplicates(x);
    lemma_no_duplicates(y);
    x.unique_seq_to_set();
    y.unique_seq_to_set();
    assert(x.to_set().subset_of(y.to_set())) by {
        assert forall|m: (Seq<char>, Json)| x.to_set().contains(m) implies y.to_set().contains(
            m,
        ) by {
            let i = choose|i: int| 0 <= i < x.len() && x[i] == m;
            assert(y.contains(x[i]));
        }
    }
    vstd::set_lib::lemma_subset_equality(x.to_set(), y.to_set());
    assert forall|j: int| 0 <= j < y.len() implies x.contains(#[trigger] y[j]) by {
        assert(y.to_set().contains(y[j]));
        assert(x.to_set().contains(y[j]));
    }
}

proof fn lemma_no_duplicates(members: Seq<(Seq<char>, Json)>)
    requires
        distinct_keys(members),
    ensures
        members.no_duplicates(),
{
    assert forall|i: int, j: int| 0 <= i < members.len() && 0 <= j < members.len() && i
        != j implies members[i] != members[j] by {
        if i < j {
            assert(members[i].0 != members[j].0);
        } else {
            assert(members[j].0 != members[i].0);
        }
    }
}

/// Members with pairwise different keys have one sorted order.
proof fn lemma_sorted_unique(x: Seq<(Seq<char>, Json)>, y: Seq<(Seq<char>, Json)>)
    requires
        distinct_keys(x),
        distinct_keys(y),
        forall|i: int| 0 <= i < x.len() ==> y.contains(#[trigger] x[i]),
        forall|j: int| 0 <= j < y.len() ==> x.contains(#[trigger] y[j]),
    ensures
        crate::order::stable_sorted(x, key_order()) == crate::order::stable_sorted(y, key_order()),
{
    let sx = crate::order::stable_sorted(x, key_order());
    let sy = crate::order::stable_sorted(y, key_order());
    lemma_sorted_ascending(x);
    lemma_sorted_ascending(y);
    lemma_key_order();
    assert forall|m: (Seq<char>, Json)|
        #![trigger sx.contains(m)]
        #![trigger sy.contains(m)]
        sx.contains(m) <==> sy.contains(m) by {
        if x.contains(m) {
            let i = choose|i: int| 0 <= i < x.len() && x[i] == m;
            assert(y.contains(x[i]));
        }
        if y.contains(m) {
            let j = choose|j: int| 0 <= j < y.len() && y[j] == m;
            assert(x.contains(y[j]));
        }
    }
    crate::order::ascending_lists_are_unique(sx, sy, key_order());
}

/// Sorted members with pairwise different keys are strictly ascending.
proof fn lemma_sorted_ascending(members: Seq<(Seq<char>, Json)>)
    requires
        distinct_keys(members),
    ensures
        crate::order::ascending(
            crate::order::stable_sorted(members, key_order()),
            key_order(),
        ),
        forall|m: (Seq<char>, Json)|
            #![trigger crate::order::stable_sorted(members, key_order()).contains(m)]
            crate::order::stable_sorted(members, key_order()).contains(m) <==> members.contains(m),
{
    broadcast use vstd::seq_lib::group_to_multiset_ensures;

    let sorted = crate::order::stable_sorted(members, key_order());
    let key_of = |m: (Seq<char>, Json)| m.0;
    lemma_key_order();
    crate::order::stable_sorted_is_a_sort(members, key_order());
    crate::order::sorting_commutes_with_map(
        members,
        key_order(),
        key_of,
        crate::order::text_order(),
    );
    lemma_keys_ascending(members, sorted.map_values(key_of));
    assert forall|i: int, j: int| 0 <= i < j < sorted.len() implies key_order()(
        #[trigger] sorted[i],
        #[trigger] sorted[j],
    ) && !key_order()(sorted[j], sorted[i]) by {
        let keys = sorted.map_values(key_of);
        assert(crate::order::text_order()(keys[i], keys[j]) && !crate::order::text_order()(
            keys[j],
            keys[i],
        ));
    }
    assert forall|m: (Seq<char>, Json)|
        #![trigger sorted.contains(m)]
        sorted.contains(m) <==> members.contains(m) by {
        assert(sorted.contains(m) <==> sorted.to_multiset().contains(m));
        assert(members.contains(m) <==> members.to_multiset().contains(m));
    }
}

/// A numeral keeps its characters in canonical form.
pub(crate) proof fn lemma_canonical_numerals(doc: Json)
    requires
        holds_numerals(doc),
    ensures
        holds_numerals(canonical(doc)),
    decreases doc,
{
    match doc {
        Json::Array(items) => {
            lemma_canonical_items(items);
            assert forall|i: int| 0 <= i < items.len() implies holds_numerals(
                #[trigger] canonical_items(items)[i],
            ) by {
                lemma_item_smaller(doc, i);
                assert(holds_numerals(items[i]));
                lemma_canonical_numerals(items[i]);
                assert(canonical_items(items)[i] == canonical(items[i]));
            }
        },
        Json::Object(members) => {
            let sorted = crate::order::stable_sorted(canonical_members(members), key_order());
            lemma_canonical_members(members);
            lemma_key_order();
            crate::order::stable_sorted_is_a_sort(canonical_members(members), key_order());
            assert forall|i: int| #![trigger sorted[i]] 0 <= i < sorted.len() implies holds_numerals(
                sorted[i].1,
            ) by {
                let k = lemma_sorted_member(members, i);
                lemma_member_smaller(doc, k);
                assert(holds_numerals(members[k].1));
                lemma_canonical_numerals(members[k].1);
            }
        },
        _ => {},
    }
}

/// Where a character ends and which one it is can be read off from the front.
proof fn lemma_escaped_char(c: char, d: char, s: Seq<char>, t: Seq<char>)
    requires
        escaped_char(c) + s == escaped_char(d) + t,
    ensures
        c == d,
        s == t,
{
    let x = escaped_char(c) + s;
    let y = escaped_char(d) + t;
    assert(x[0] == escaped_char(c)[0]);
    assert(y[0] == escaped_char(d)[0]);
    if escaped_char(c).len() > 1 {
        assert(x[1] == escaped_char(c)[1]);
        assert(y[1] == escaped_char(d)[1]);
        if escaped_char(c).len() > 2 {
            assert(x[4] == escaped_char(c)[4] && x[5] == escaped_char(c)[5]);
            assert(y[4] == escaped_char(d)[4] && y[5] == escaped_char(d)[5]);
            assert(c as nat / 16 == d as nat / 16);
            assert(c as nat % 16 == d as nat % 16);
        }
    }
    assert(c == d);
    let n = escaped_char(c).len() as int;
    assert(x.skip(n) =~= s);
    assert(y.skip(n) =~= t);
}

/// Where a string ends and what it holds can be read off from the front.
proof fn lemma_escaped(a: Seq<char>, b: Seq<char>, s: Seq<char>, t: Seq<char>)
    requires
        escaped(a) + seq!['"'] + s == escaped(b) + seq!['"'] + t,
    ensures
        a == b,
        s == t,
    decreases a.len(),
{
    let x = escaped(a) + seq!['"'] + s;
    let y = escaped(b) + seq!['"'] + t;
    if a.len() > 0 {
        let rest = escaped(a.drop_first()) + seq!['"'] + s;
        assert(x =~= escaped_char(a[0]) + rest);
        assert(x[0] == escaped_char(a[0])[0]);
    } else {
        assert(x =~= seq!['"'] + s);
        assert(x.skip(1) =~= s);
    }
    if b.len() > 0 {
        let rest = escaped(b.drop_first()) + seq!['"'] + t;
        assert(y =~= escaped_char(b[0]) + rest);
        assert(y[0] == escaped_char(b[0])[0]);
    } else {
        assert(y =~= seq!['"'] + t);
        assert(y.skip(1) =~= t);
    }
    if a.len() > 0 && b.len() > 0 {
        lemma_escaped_char(
            a[0],
            b[0],
            escaped(a.drop_first()) + seq!['"'] + s,
            escaped(b.drop_first()) + seq!['"'] + t,
        );
        lemma_escaped(a.drop_first(), b.drop_first(), s, t);
        assert(a =~= seq![a[0]] + a.drop_first());
        assert(b =~= seq![b[0]] + b.drop_first());
    } else {
        assert(a =~= b);
    }
}

/// What may follow a document: nothing, a comma or a closing bracket.
spec fn ended(s: Seq<char>) -> bool {
    s.len() > 0 ==> s[0] == ',' || s[0] == ']' || s[0] == '}'
}

/// Where a numeral ends can be read off from the front.
proof fn lemma_numeral(a: Seq<char>, b: Seq<char>, s: Seq<char>, t: Seq<char>)
    requires
        numeral(a),
        numeral(b),
        ended(s),
        ended(t),
        a + s == b + t,
    ensures
        a == b,
        s == t,
{
    let x = a + s;
    let y = b + t;
    if a.len() < b.len() {
        assert(x[a.len() as int] == s[0]);
        assert(y[a.len() as int] == b[a.len() as int]);
    } else if b.len() < a.len() {
        assert(y[b.len() as int] == t[0]);
        assert(x[b.len() as int] == a[b.len() as int]);
    }
    assert(x.take(a.len() as int) =~= a);
    assert(y.take(b.len() as int) =~= b);
    assert(x.skip(a.len() as int) =~= s);
    assert(y.skip(b.len() as int) =~= t);
}

/// The first character tells documents of different kinds apart.
proof fn lemma_first_char(doc: Json)
    requires
        holds_numerals(doc),
    ensures
        json_text(doc).len() > 0,
        match doc {
            Json::Null => json_text(doc)[0] == 'n',
            Json::Bool(b) => json_text(doc)[0] == if b {
                't'
            } else {
                'f'
            },
            Json::Number(_) => number_char(json_text(doc)[0]),
            Json::Text(_) => json_text(doc)[0] == '"',
            Json::Array(_) => json_text(doc)[0] == '[',
            Json::Object(_) => json_text(doc)[0] == '{',
        },
{
    reveal_strlit("null");
    reveal_strlit("true");
    reveal_strlit("false");
}

/// Joined texts, from the front.
proof fn lemma_joined_front(parts: Seq<Seq<char>>, sep: Seq<char>)
    requires
        parts.len() > 1,
    ensures
        crate::text::joined(parts, sep) == parts[0] + sep + crate::text::joined(
            parts.drop_first(),
            sep,
        ),
    decreases parts.len(),
{
    let rest = parts.drop_first();
    if parts.len() > 2 {
        lemma_joined_front(parts.drop_last(), sep);
        assert(parts.drop_last().drop_first() =~= rest.drop_last());
        assert(crate::text::joined(parts, sep) =~= parts[0] + sep + crate::text::joined(rest, sep));
    } else {
        reveal_with_fuel(crate::text::joined, 2);
        assert(rest[0] == parts.last());
    }
}

proof fn lemma_json_texts(items: Seq<Json>)
    ensures
        json_texts(items).len() == items.len(),
        forall|i: int| 0 <= i < items.len() ==> #[trigger] json_texts(items)[i] == json_text(items[i]),
    decreases items.len(),
{
    if items.len() > 0 {
        lemma_json_texts(items.drop_last());
    }
}

/// A member as it is written.
spec fn member_text(member: (Seq<char>, Json)) -> Seq<char> {
    string_text(member.0) + seq![':'] + json_text(member.1)
}

proof fn lemma_member_texts(members: Seq<(Seq<char>, Json)>)
    ensures
        member_texts(members).len() == members.len(),
        forall|i: int|
            0 <= i < members.len() ==> #[trigger] member_texts(members)[i] == member_text(members[i]),
    decreases members.len(),
{
    if members.len() > 0 {
        lemma_member_texts(members.drop_last());
    }
}

/// What follows the first of some joined texts, up to the closing bracket and
/// beyond.
spec fn after_first(parts: Seq<Seq<char>>, close: char, s: Seq<char>) -> Seq<char> {
    if parts.len() == 1 {
        seq![close] + s
    } else {
        seq![','] + (crate::text::joined(parts.drop_first(), seq![',']) + seq![close] + s)
    }
}

proof fn lemma_after_first(parts: Seq<Seq<char>>, close: char, s: Seq<char>)
    requires
        parts.len() > 0,
        close == ']' || close == '}',
    ensures
        crate::text::joined(parts, seq![',']) + seq![close] + s == parts[0] + after_first(
            parts,
            close,
            s,
        ),
        ended(after_first(parts, close, s)),
        after_first(parts, close, s)[0] == if parts.len() == 1 {
            close
        } else {
            ','
        },
        after_first(parts, close, s).skip(1) == if parts.len() == 1 {
            s
        } else {
            crate::text::joined(parts.drop_first(), seq![',']) + seq![close] + s
        },
{
    let text = crate::text::joined(parts, seq![',']) + seq![close] + s;
    if parts.len() > 1 {
        lemma_joined_front(parts, seq![',']);
    }
    assert(text =~= parts[0] + after_first(parts, close, s));
    assert(after_first(parts, close, s).skip(1) =~= if parts.len() == 1 {
        s
    } else {
        crate::text::joined(parts.drop_first(), seq![',']) + seq![close] + s
    });
}

/// Where a document ends and what it holds can be read off from the front.
proof fn lemma_document(x: Json, y: Json, s: Seq<char>, t: Seq<char>)
    requires
        holds_numerals(x),
        holds_numerals(y),
        ended(s),
        ended(t),
        json_text(x) + s == json_text(y) + t,
    ensures
        x == y,
        s == t,
    decreases x, 1int,
{
    let left = json_text(x) + s;
    let right = json_text(y) + t;
    lemma_first_char(x);
    lemma_first_char(y);
    assert(left[0] == json_text(x)[0]);
    assert(right[0] == json_text(y)[0]);
    match (x, y) {
        (Json::Number(a), Json::Number(b)) => {
            lemma_numeral(a, b, s, t);
        },
        (Json::Text(a), Json::Text(b)) => {
            assert(left.skip(1) =~= escaped(a) + seq!['"'] + s);
            assert(right.skip(1) =~= escaped(b) + seq!['"'] + t);
            lemma_escaped(a, b, s, t);
        },
        (Json::Array(a), Json::Array(b)) => {
            assert(left.skip(1) =~= crate::text::joined(json_texts(a), seq![',']) + seq![']'] + s);
            assert(right.skip(1) =~= crate::text::joined(json_texts(b), seq![',']) + seq![']'] + t);
            assert(decreases_to!(x => a));
            lemma_items(a, b, s, t);
        },
        (Json::Object(a), Json::Object(b)) => {
            assert(left.skip(1) =~= crate::text::joined(member_texts(a), seq![',']) + seq!['}'] + s);
            assert(right.skip(1) =~= crate::text::joined(member_texts(b), seq![',']) + seq!['}']
                + t);
            assert(decreases_to!(x => a));
            lemma_members(a, b, s, t);
        },
        _ => {
            assert(x == y);
            let n = json_text(x).len() as int;
            assert(left.skip(n) =~= s);
            assert(right.skip(n) =~= t);
        },
    }
}

/// The elements of an array can be read off from the front.
proof fn lemma_items(a: Seq<Json>, b: Seq<Json>, s: Seq<char>, t: Seq<char>)
    requires
        forall|i: int| 0 <= i < a.len() ==> holds_numerals(#[trigger] a[i]),
        forall|i: int| 0 <= i < b.len() ==> holds_numerals(#[trigger] b[i]),
        crate::text::joined(json_texts(a), seq![',']) + seq![']'] + s == crate::text::joined(
            json_texts(b),
            seq![','],
        ) + seq![']'] + t,
    ensures
        a == b,
        s == t,
    decreases a, 0int,
{
    let left = crate::text::joined(json_texts(a), seq![',']) + seq![']'] + s;
    let right = crate::text::joined(json_texts(b), seq![',']) + seq![']'] + t;
    lemma_json_texts(a);
    lemma_json_texts(b);
    if a.len() > 0 {
        lemma_after_first(json_texts(a), ']', s);
        lemma_first_char(a[0]);
        assert(left[0] == json_text(a[0])[0]);
    } else {
        assert(left =~= seq![']'] + s);
        assert(left.skip(1) =~= s);
    }
    if b.len() > 0 {
        lemma_after_first(json_texts(b), ']', t);
        lemma_first_char(b[0]);
        assert(right[0] == json_text(b[0])[0]);
    } else {
        assert(right =~= seq![']'] + t);
        assert(right.skip(1) =~= t);
    }
    if a.len() > 0 && b.len() > 0 {
        let after = after_first(json_texts(a), ']', s);
        assert(decreases_to!(a => a[0]));
        lemma_document(a[0], b[0], after, after_first(json_texts(b), ']', t));
        assert(a.len() == 1 <==> b.len() == 1);
        if a.len() > 1 {
            let p = a.drop_first();
            let q = b.drop_first();
            lemma_json_texts(p);
            lemma_json_texts(q);
            assert(json_texts(a).drop_first() =~= json_texts(p));
            assert(json_texts(b).drop_first() =~= json_texts(q));
            assert(p == a.subrange(1, a.len() as int));
            lemma_items(p, q, s, t);
            assert(a =~= seq![a[0]] + p);
            assert(b =~= seq![b[0]] + q);
        } else {
            assert(a =~= b);
        }
    } else {
        assert(a =~= b);
    }
}

/// The members of an object can be read off from the front.
proof fn lemma_members(
    a: Seq<(Seq<char>, Json)>,
    b: Seq<(Seq<char>, Json)>,
    s: Seq<char>,
    t: Seq<char>,
)
    requires
        forall|i: int| #![trigger a[i]] 0 <= i < a.len() ==> holds_numerals(a[i].1),
        forall|i: int| #![trigger b[i]] 0 <= i < b.len() ==> holds_numerals(b[i].1),
        crate::text::joined(member_texts(a), seq![',']) + seq!['}'] + s == crate::text::joined(
            member_texts(b),
            seq![','],
        ) + seq!['}'] + t,
    ensures
        a == b,
        s == t,
    decreases a, 0int,
{
    let left = crate::text::joined(member_texts(a), seq![',']) + seq!['}'] + s;
    let right = crate::text::joined(member_texts(b), seq![',']) + seq!['}'] + t;
    lemma_member_texts(a);
    lemma_member_texts(b);
    if a.len() > 0 {
        lemma_after_first(member_texts(a), '}', s);
        assert(left[0] == member_text(a[0])[0]);
        assert(left[0] == '"');
    } else {
        assert(left =~= seq!['}'] + s);
        assert(left.skip(1) =~= s);
    }
    if b.len() > 0 {
        lemma_after_first(member_texts(b), '}', t);
        assert(right[0] == member_text(b[0])[0]);
        assert(right[0] == '"');
    } else {
        assert(right =~= seq!['}'] + t);
        assert(right.skip(1) =~= t);
    }
    if a.len() > 0 && b.len() > 0 {
        let after = after_first(member_texts(a), '}', s);
        let over = after_first(member_texts(b), '}', t);
        lemma_first_member(a[0], b[0], after, over);
        assert(decreases_to!(a => a[0]));
        assert(decreases_to!(a[0] => a[0].1));
        lemma_document(a[0].1, b[0].1, after, over);
        assert(a[0] == b[0]);
        assert(a.len() == 1 <==> b.len() == 1);
        if a.len() > 1 {
            let p = a.drop_first();
            let q = b.drop_first();
            lemma_member_texts(p);
            lemma_member_texts(q);
            assert(member_texts(a).drop_first() =~= member_texts(p));
            assert(member_texts(b).drop_first() =~= member_texts(q));
            assert(p == a.subrange(1, a.len() as int));
            lemma_members(p, q, s, t);
            assert(a =~= seq![a[0]] + p);
            assert(b =~= seq![b[0]] + q);
        } else {
            assert(a =~= b);
        }
    } else {
        assert(a =~= b);
    }
}

/// The key of a member can be read off from the front.
proof fn lemma_first_member(
    m: (Seq<char>, Json),
    n: (Seq<char>, Json),
    s: Seq<char>,
    t: Seq<char>,
)
    requires
        member_text(m) + s == member_text(n) + t,
    ensures
        m.0 == n.0,
        json_text(m.1) + s == json_text(n.1) + t,
{
    let left = member_text(m) + s;
    let right = member_text(n) + t;
    let x = seq![':'] + (json_text(m.1) + s);
    let y = seq![':'] + (json_text(n.1) + t);
    assert(left.skip(1) =~= escaped(m.0) + seq!['"'] + x);
    assert(right.skip(1) =~= escaped(n.0) + seq!['"'] + y);
    lemma_escaped(m.0, n.0, x, y);
    assert(x.skip(1) =~= json_text(m.1) + s);
    assert(y.skip(1) =~= json_text(n.1) + t);
}

/// Different documents are written differently.
pub proof fn texts_tell_documents_apart(x: Json, y: Json)
    requires
        holds_numerals(x),
        holds_numerals(y),
    ensures
        json_text(x) == json_text(y) <==> x == y,
{
    if json_text(x) == json_text(y) {
        let s = Seq::<char>::empty();
        assert(json_text(x) + s =~= json_text(x));
        assert(json_text(y) + s =~= json_text(y));
        lemma_document(x, y, s, s);
    }
}

} // verus!
