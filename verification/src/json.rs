//! Conversion between JSON-shaped trees and the wire value trees.
//!
//! A JSON tree is nulls, booleans, 64-bit integers, 64-bit float bit
//! patterns, strings, arrays, and objects keyed by strings. Every JSON tree
//! converts to a wire value; a wire value converts back to JSON unless a map
//! key is not a string, and binary leaves come back as arrays of byte-valued
//! integers. Converting a JSON tree to the wire and back is the identity —
//! proved below.

use vstd::prelude::*;

use crate::protocol::{SpecValue, Value};

verus! {

broadcast use
    vstd::seq::axiom_seq_index_decreases,
    vstd::std_specs::vec::axiom_vec_index_decreases,
    vstd::std_specs::vec::axiom_vec_decreases_to_view;

/// A JSON-shaped tree.
#[derive(Debug)]
pub enum JsonValue {
    Null,
    Bool(bool),
    Int(i64),
    /// A 64-bit float, held as its IEEE 754 bit pattern.
    Float(u64),
    Str(String),
    Array(Vec<JsonValue>),
    /// Key-value entries in order; keys are strings.
    Object(Vec<(String, JsonValue)>),
}

/// The ghost shape of a `JsonValue`.
pub enum SpecJson {
    Null,
    Bool(bool),
    Int(i64),
    Float(u64),
    Str(Seq<char>),
    Array(Seq<SpecJson>),
    Object(Seq<(Seq<char>, SpecJson)>),
}

impl View for JsonValue {
    type V = SpecJson;

    open spec fn view(&self) -> SpecJson
        decreases self,
    {
        match self {
            JsonValue::Null => SpecJson::Null,
            JsonValue::Bool(b) => SpecJson::Bool(*b),
            JsonValue::Int(i) => SpecJson::Int(*i),
            JsonValue::Float(bits) => SpecJson::Float(*bits),
            JsonValue::Str(s) => SpecJson::Str(s@),
            JsonValue::Array(items) => SpecJson::Array(spec_json_seq_view(items@)),
            JsonValue::Object(entries) => SpecJson::Object(spec_json_entry_seq_view(entries@)),
        }
    }
}

/// The views of a sequence of JSON values, element by element.
pub open spec fn spec_json_seq_view(items: Seq<JsonValue>) -> Seq<SpecJson>
    decreases items,
{
    if items.len() == 0 {
        Seq::empty()
    } else {
        proof {
            vstd::seq::axiom_seq_subrange_decreases(items, 0, items.len() - 1);
            vstd::seq::axiom_seq_index_decreases(items, items.len() - 1);
        }
        spec_json_seq_view(items.drop_last()).push(items.last()@)
    }
}

/// The views of a sequence of JSON object entries, element by element.
pub open spec fn spec_json_entry_seq_view(entries: Seq<(String, JsonValue)>) -> Seq<
    (Seq<char>, SpecJson),
>
    decreases entries,
{
    if entries.len() == 0 {
        Seq::empty()
    } else {
        proof {
            vstd::seq::axiom_seq_subrange_decreases(entries, 0, entries.len() - 1);
            vstd::seq::axiom_seq_index_decreases(entries, entries.len() - 1);
        }
        spec_json_entry_seq_view(entries.drop_last()).push(
            (entries.last().0@, entries.last().1@),
        )
    }
}

/// The element views keep the length.
pub broadcast proof fn lemma_json_seq_view_len(items: Seq<JsonValue>)
    ensures
        (#[trigger] spec_json_seq_view(items)).len() == items.len(),
    decreases items.len(),
{
    if items.len() > 0 {
        lemma_json_seq_view_len(items.drop_last());
        assert(spec_json_seq_view(items) == spec_json_seq_view(items.drop_last()).push(
            items.last()@,
        ));
    }
}

/// The element views are taken pointwise.
pub broadcast proof fn lemma_json_seq_view_index(items: Seq<JsonValue>, i: int)
    requires
        0 <= i < items.len(),
    ensures
        (#[trigger] spec_json_seq_view(items)[i]) == items[i]@,
    decreases items.len(),
{
    let pre = items.drop_last();
    assert(spec_json_seq_view(items) == spec_json_seq_view(pre).push(items.last()@));
    lemma_json_seq_view_len(pre);
    if i < items.len() - 1 {
        lemma_json_seq_view_index(pre, i);
        assert(pre[i] == items[i]);
    }
}

/// The entry views keep the length.
pub broadcast proof fn lemma_json_entry_seq_view_len(entries: Seq<(String, JsonValue)>)
    ensures
        (#[trigger] spec_json_entry_seq_view(entries)).len() == entries.len(),
    decreases entries.len(),
{
    if entries.len() > 0 {
        lemma_json_entry_seq_view_len(entries.drop_last());
        assert(spec_json_entry_seq_view(entries) == spec_json_entry_seq_view(
            entries.drop_last(),
        ).push((entries.last().0@, entries.last().1@)));
    }
}

/// The entry views are taken pointwise.
pub broadcast proof fn lemma_json_entry_seq_view_index(entries: Seq<(String, JsonValue)>, i: int)
    requires
        0 <= i < entries.len(),
    ensures
        (#[trigger] spec_json_entry_seq_view(entries)[i]) == (entries[i].0@, entries[i].1@),
    decreases entries.len(),
{
    let pre = entries.drop_last();
    assert(spec_json_entry_seq_view(entries) == spec_json_entry_seq_view(pre).push(
        (entries.last().0@, entries.last().1@),
    ));
    lemma_json_entry_seq_view_len(pre);
    if i < entries.len() - 1 {
        lemma_json_entry_seq_view_index(pre, i);
        assert(pre[i] == entries[i]);
    }
}

/// The wire value a JSON tree converts to: every leaf carries over, and an
/// object becomes a map with string keys.
pub open spec fn spec_json_to_value(j: SpecJson) -> SpecValue
    decreases j,
{
    match j {
        SpecJson::Null => SpecValue::Nil,
        SpecJson::Bool(b) => SpecValue::Bool(b),
        SpecJson::Int(i) => SpecValue::Int(i),
        SpecJson::Float(bits) => SpecValue::Float(bits),
        SpecJson::Str(s) => SpecValue::Str(s),
        SpecJson::Array(items) => SpecValue::Array(spec_jsons_to_values(items)),
        SpecJson::Object(entries) => SpecValue::Mapping(spec_entries_to_pairs(entries)),
    }
}

/// Elementwise conversion of a JSON array's items.
pub open spec fn spec_jsons_to_values(items: Seq<SpecJson>) -> Seq<SpecValue>
    decreases items,
{
    if items.len() == 0 {
        Seq::empty()
    } else {
        proof {
            vstd::seq::axiom_seq_subrange_decreases(items, 0, items.len() - 1);
            vstd::seq::axiom_seq_index_decreases(items, items.len() - 1);
        }
        spec_jsons_to_values(items.drop_last()).push(spec_json_to_value(items.last()))
    }
}

/// Elementwise conversion of a JSON object's entries.
pub open spec fn spec_entries_to_pairs(entries: Seq<(Seq<char>, SpecJson)>) -> Seq<
    (SpecValue, SpecValue),
>
    decreases entries,
{
    if entries.len() == 0 {
        Seq::empty()
    } else {
        proof {
            vstd::seq::axiom_seq_subrange_decreases(entries, 0, entries.len() - 1);
            vstd::seq::axiom_seq_index_decreases(entries, entries.len() - 1);
        }
        spec_entries_to_pairs(entries.drop_last()).push(
            (SpecValue::Str(entries.last().0), spec_json_to_value(entries.last().1)),
        )
    }
}

/// The JSON tree a wire value converts back to: binary leaves become arrays
/// of byte-valued integers, and a map whose keys are not all strings has no
/// JSON form.
pub open spec fn spec_value_to_json(v: SpecValue) -> Option<SpecJson>
    decreases v,
{
    match v {
        SpecValue::Nil => Some(SpecJson::Null),
        SpecValue::Bool(b) => Some(SpecJson::Bool(b)),
        SpecValue::Int(i) => Some(SpecJson::Int(i)),
        SpecValue::Float(bits) => Some(SpecJson::Float(bits)),
        SpecValue::Str(s) => Some(SpecJson::Str(s)),
        SpecValue::Binary(b) => Some(SpecJson::Array(spec_bytes_to_jsons(b))),
        SpecValue::Array(items) => match spec_values_to_jsons(items) {
            Some(js) => Some(SpecJson::Array(js)),
            None => None,
        },
        SpecValue::Mapping(pairs) => match spec_pairs_to_entries(pairs) {
            Some(entries) => Some(SpecJson::Object(entries)),
            None => None,
        },
    }
}

/// A binary leaf as byte-valued integers.
pub open spec fn spec_bytes_to_jsons(b: Seq<u8>) -> Seq<SpecJson> {
    Seq::new(b.len(), |i: int| SpecJson::Int(b[i] as i64))
}

/// Elementwise conversion of a wire array's items; nothing when any item has
/// no JSON form.
pub open spec fn spec_values_to_jsons(items: Seq<SpecValue>) -> Option<Seq<SpecJson>>
    decreases items,
{
    if items.len() == 0 {
        Some(Seq::empty())
    } else {
        proof {
            vstd::seq::axiom_seq_subrange_decreases(items, 0, items.len() - 1);
            vstd::seq::axiom_seq_index_decreases(items, items.len() - 1);
        }
        match spec_values_to_jsons(items.drop_last()) {
            Some(js) => match spec_value_to_json(items.last()) {
                Some(j) => Some(js.push(j)),
                None => None,
            },
            None => None,
        }
    }
}

/// Elementwise conversion of a wire map's pairs; nothing when any key is not
/// a string or any value has no JSON form.
pub open spec fn spec_pairs_to_entries(pairs: Seq<(SpecValue, SpecValue)>) -> Option<
    Seq<(Seq<char>, SpecJson)>,
>
    decreases pairs,
{
    if pairs.len() == 0 {
        Some(Seq::empty())
    } else {
        proof {
            vstd::seq::axiom_seq_subrange_decreases(pairs, 0, pairs.len() - 1);
            vstd::seq::axiom_seq_index_decreases(pairs, pairs.len() - 1);
        }
        match spec_pairs_to_entries(pairs.drop_last()) {
            Some(entries) => match pairs.last().0 {
                SpecValue::Str(k) => match spec_value_to_json(pairs.last().1) {
                    Some(j) => Some(entries.push((k, j))),
                    None => None,
                },
                _ => None,
            },
            None => None,
        }
    }
}

/// Elementwise conversion keeps the length.
pub proof fn lemma_jsons_to_values_len(items: Seq<SpecJson>)
    ensures
        spec_jsons_to_values(items).len() == items.len(),
    decreases items.len(),
{
    if items.len() > 0 {
        lemma_jsons_to_values_len(items.drop_last());
        assert(spec_jsons_to_values(items) == spec_jsons_to_values(items.drop_last()).push(
            spec_json_to_value(items.last()),
        ));
    }
}

/// Elementwise conversion is taken pointwise.
pub proof fn lemma_jsons_to_values_index(items: Seq<SpecJson>, i: int)
    requires
        0 <= i < items.len(),
    ensures
        spec_jsons_to_values(items)[i] == spec_json_to_value(items[i]),
    decreases items.len(),
{
    let pre = items.drop_last();
    assert(spec_jsons_to_values(items) == spec_jsons_to_values(pre).push(
        spec_json_to_value(items.last()),
    ));
    lemma_jsons_to_values_len(pre);
    if i < items.len() - 1 {
        lemma_jsons_to_values_index(pre, i);
        assert(pre[i] == items[i]);
    }
}

/// Entry conversion keeps the length.
pub proof fn lemma_entries_to_pairs_len(entries: Seq<(Seq<char>, SpecJson)>)
    ensures
        spec_entries_to_pairs(entries).len() == entries.len(),
    decreases entries.len(),
{
    if entries.len() > 0 {
        lemma_entries_to_pairs_len(entries.drop_last());
        assert(spec_entries_to_pairs(entries) == spec_entries_to_pairs(entries.drop_last()).push(
            (SpecValue::Str(entries.last().0), spec_json_to_value(entries.last().1)),
        ));
    }
}

/// Entry conversion is taken pointwise.
pub proof fn lemma_entries_to_pairs_index(entries: Seq<(Seq<char>, SpecJson)>, i: int)
    requires
        0 <= i < entries.len(),
    ensures
        spec_entries_to_pairs(entries)[i] == (
            SpecValue::Str(entries[i].0),
            spec_json_to_value(entries[i].1),
        ),
    decreases entries.len(),
{
    let pre = entries.drop_last();
    assert(spec_entries_to_pairs(entries) == spec_entries_to_pairs(pre).push(
        (SpecValue::Str(entries.last().0), spec_json_to_value(entries.last().1)),
    ));
    lemma_entries_to_pairs_len(pre);
    if i < entries.len() - 1 {
        lemma_entries_to_pairs_index(pre, i);
        assert(pre[i] == entries[i]);
    }
}

/// One more item extends an elementwise conversion.
pub proof fn lemma_values_to_jsons_take_step(items: Seq<SpecValue>, i: int)
    requires
        0 <= i < items.len(),
    ensures
        spec_values_to_jsons(items.take(i + 1)) == (match spec_values_to_jsons(items.take(i)) {
            Some(js) => match spec_value_to_json(items[i]) {
                Some(j) => Some(js.push(j)),
                None => None,
            },
            None => None,
        }),
{
    assert(items.take(i + 1).drop_last() =~= items.take(i));
    assert(items.take(i + 1).last() == items[i]);
}

/// One more pair extends an entrywise conversion.
pub proof fn lemma_pairs_to_entries_take_step(pairs: Seq<(SpecValue, SpecValue)>, i: int)
    requires
        0 <= i < pairs.len(),
    ensures
        spec_pairs_to_entries(pairs.take(i + 1)) == (match spec_pairs_to_entries(pairs.take(i)) {
            Some(entries) => match pairs[i].0 {
                SpecValue::Str(k) => match spec_value_to_json(pairs[i].1) {
                    Some(j) => Some(entries.push((k, j))),
                    None => None,
                },
                _ => None,
            },
            None => None,
        }),
{
    assert(pairs.take(i + 1).drop_last() =~= pairs.take(i));
    assert(pairs.take(i + 1).last() == pairs[i]);
}

/// A failed prefix fails the whole conversion.
pub proof fn lemma_values_to_jsons_prefix_none(items: Seq<SpecValue>, k: int)
    requires
        0 <= k <= items.len(),
        spec_values_to_jsons(items.take(k)) is None,
    ensures
        spec_values_to_jsons(items) is None,
    decreases items.len(),
{
    if k == items.len() {
        assert(items.take(k) =~= items);
    } else {
        assert(items.drop_last().take(k) =~= items.take(k));
        lemma_values_to_jsons_prefix_none(items.drop_last(), k);
    }
}

/// A failed prefix fails the whole entry conversion.
pub proof fn lemma_pairs_to_entries_prefix_none(pairs: Seq<(SpecValue, SpecValue)>, k: int)
    requires
        0 <= k <= pairs.len(),
        spec_pairs_to_entries(pairs.take(k)) is None,
    ensures
        spec_pairs_to_entries(pairs) is None,
    decreases pairs.len(),
{
    if k == pairs.len() {
        assert(pairs.take(k) =~= pairs);
    } else {
        assert(pairs.drop_last().take(k) =~= pairs.take(k));
        lemma_pairs_to_entries_prefix_none(pairs.drop_last(), k);
    }
}

/// Convert a JSON tree to a wire value. Every JSON tree has a wire form, so
/// this always succeeds; the fallible signature mirrors the conversion in
/// the opposite direction.
#[verifier::loop_isolation(false)]
pub fn json_to_msgpack_value(json: &JsonValue) -> (r: Result<Value, String>)
    ensures
        r matches Ok(v) && v@ == spec_json_to_value(json@),
    decreases json,
{
    match json {
        JsonValue::Null => Ok(Value::Nil),
        JsonValue::Bool(b) => Ok(Value::Bool(*b)),
        JsonValue::Int(i) => Ok(Value::Int(*i)),
        JsonValue::Float(bits) => Ok(Value::Float(*bits)),
        JsonValue::Str(s) => Ok(Value::Str(s.clone())),
        JsonValue::Array(items) => {
            let ghost jview = spec_json_seq_view(items@);
            let mut out: Vec<Value> = Vec::new();
            let mut i: usize = 0;
            while i < items.len()
                invariant
                    i <= items@.len(),
                    out@.len() == i,
                    forall|j: int| 0 <= j < i ==> (#[trigger] out@[j])@ == spec_json_to_value(
                        items@[j]@,
                    ),
                decreases items@.len() - i,
            {
                let v = match json_to_msgpack_value(&items[i]) {
                    Ok(v) => v,
                    Err(e) => {
                        return Err(e);
                    },
                };
                out.push(v);
                i = i + 1;
            }
            proof {
                lemma_json_seq_view_len(items@);
                lemma_jsons_to_values_len(jview);
                crate::protocol::lemma_value_seq_view_len(out@);
                assert forall|j: int| 0 <= j < items@.len() implies
                    crate::protocol::spec_value_seq_view(out@)[j] == spec_jsons_to_values(
                    jview,
                )[j] by {
                    crate::protocol::lemma_value_seq_view_index(out@, j);
                    lemma_json_seq_view_index(items@, j);
                    lemma_jsons_to_values_index(jview, j);
                }
                assert(crate::protocol::spec_value_seq_view(out@) =~= spec_jsons_to_values(jview));
            }
            Ok(Value::Array(out))
        },
        JsonValue::Object(entries) => {
            let ghost eview = spec_json_entry_seq_view(entries@);
            let mut out: Vec<(Value, Value)> = Vec::new();
            let mut i: usize = 0;
            while i < entries.len()
                invariant
                    i <= entries@.len(),
                    out@.len() == i,
                    forall|j: int| 0 <= j < i ==> (#[trigger] out@[j]).0@ == SpecValue::Str(
                        entries@[j].0@,
                    ) && out@[j].1@ == spec_json_to_value(entries@[j].1@),
                decreases entries@.len() - i,
            {
                let v = match json_to_msgpack_value(&entries[i].1) {
                    Ok(v) => v,
                    Err(e) => {
                        return Err(e);
                    },
                };
                let k = entries[i].0.clone();
                out.push((Value::Str(k), v));
                i = i + 1;
            }
            proof {
                lemma_json_entry_seq_view_len(entries@);
                lemma_entries_to_pairs_len(eview);
                crate::protocol::lemma_pair_seq_view_len(out@);
                assert forall|j: int| 0 <= j < entries@.len() implies
                    crate::protocol::spec_pair_seq_view(out@)[j] == spec_entries_to_pairs(
                    eview,
                )[j] by {
                    crate::protocol::lemma_pair_seq_view_index(out@, j);
                    lemma_json_entry_seq_view_index(entries@, j);
                    lemma_entries_to_pairs_index(eview, j);
                }
                assert(crate::protocol::spec_pair_seq_view(out@) =~= spec_entries_to_pairs(eview));
            }
            Ok(Value::Mapping(out))
        },
    }
}

/// Convert a wire value back to a JSON tree. Binary leaves become arrays of
/// byte-valued integers; a map with a non-string key is rejected.
#[verifier::loop_isolation(false)]
pub fn msgpack_value_to_json(msgpack: &Value) -> (r: Result<JsonValue, String>)
    ensures
        match spec_value_to_json(msgpack@) {
            Some(j) => r matches Ok(jv) && jv@ == j,
            None => r matches Err(e) && e@ == "Map keys must be strings"@,
        },
    decreases msgpack,
{
    match msgpack {
        Value::Nil => Ok(JsonValue::Null),
        Value::Bool(b) => Ok(JsonValue::Bool(*b)),
        Value::Int(i) => Ok(JsonValue::Int(*i)),
        Value::Float(bits) => Ok(JsonValue::Float(*bits)),
        Value::Str(s) => Ok(JsonValue::Str(s.clone())),
        Value::Binary(b) => {
            let mut out: Vec<JsonValue> = Vec::new();
            let mut i: usize = 0;
            while i < b.len()
                invariant
                    i <= b@.len(),
                    out@.len() == i,
                    forall|j: int| 0 <= j < i ==> (#[trigger] out@[j])@ == SpecJson::Int(
                        b@[j] as i64,
                    ),
                decreases b@.len() - i,
            {
                out.push(JsonValue::Int(b[i] as i64));
                i = i + 1;
            }
            proof {
                lemma_json_seq_view_len(out@);
                assert forall|j: int| 0 <= j < b@.len() implies spec_json_seq_view(out@)[j]
                    == spec_bytes_to_jsons(b@)[j] by {
                    lemma_json_seq_view_index(out@, j);
                }
                assert(spec_json_seq_view(out@) =~= spec_bytes_to_jsons(b@));
            }
            Ok(JsonValue::Array(out))
        },
        Value::Array(items) => {
            let ghost vview = crate::protocol::spec_value_seq_view(items@);
            proof {
                crate::protocol::lemma_value_seq_view_len(items@);
            }
            let mut out: Vec<JsonValue> = Vec::new();
            let mut i: usize = 0;
            while i < items.len()
                invariant
                    i <= items@.len(),
                    out@.len() == i,
                    spec_values_to_jsons(vview.take(i as int)) == Some(spec_json_seq_view(out@)),
                decreases items@.len() - i,
            {
                proof {
                    crate::protocol::lemma_value_seq_view_index(items@, i as int);
                    lemma_values_to_jsons_take_step(vview, i as int);
                }
                let j = match msgpack_value_to_json(&items[i]) {
                    Ok(j) => j,
                    Err(e) => {
                        proof {
                            lemma_values_to_jsons_prefix_none(vview, i + 1);
                        }
                        return Err(e);
                    },
                };
                let ghost pre = out@;
                out.push(j);
                proof {
                    assert(out@.drop_last() =~= pre);
                }
                i = i + 1;
            }
            proof {
                assert(vview.take(vview.len() as int) =~= vview);
            }
            Ok(JsonValue::Array(out))
        },
        Value::Mapping(pairs) => {
            let ghost pview = crate::protocol::spec_pair_seq_view(pairs@);
            proof {
                crate::protocol::lemma_pair_seq_view_len(pairs@);
            }
            let mut out: Vec<(String, JsonValue)> = Vec::new();
            let mut i: usize = 0;
            while i < pairs.len()
                invariant
                    i <= pairs@.len(),
                    out@.len() == i,
                    spec_pairs_to_entries(pview.take(i as int)) == Some(
                        spec_json_entry_seq_view(out@),
                    ),
                decreases pairs@.len() - i,
            {
                proof {
                    crate::protocol::lemma_pair_seq_view_index(pairs@, i as int);
                    lemma_pairs_to_entries_take_step(pview, i as int);
                }
                let k = match &pairs[i].0 {
                    Value::Str(k) => k.clone(),
                    _ => {
                        proof {
                            lemma_pairs_to_entries_prefix_none(pview, i + 1);
                        }
                        return Err(String::from_str("Map keys must be strings"));
                    },
                };
                let j = match msgpack_value_to_json(&pairs[i].1) {
                    Ok(j) => j,
                    Err(e) => {
                        proof {
                            lemma_pairs_to_entries_prefix_none(pview, i + 1);
                        }
                        return Err(e);
                    },
                };
                let ghost pre = out@;
                out.push((k, j));
                proof {
                    assert(out@.drop_last() =~= pre);
                }
                i = i + 1;
            }
            proof {
                assert(pview.take(pview.len() as int) =~= pview);
            }
            Ok(JsonValue::Object(out))
        },
    }
}

/// The JSON round-trip law: converting a JSON tree to its wire value and
/// back is the identity.
pub proof fn lemma_json_value_roundtrip(j: SpecJson)
    ensures
        spec_value_to_json(spec_json_to_value(j)) == Some(j),
    decreases j, 0int,
{
    match j {
        SpecJson::Array(items) => {
            lemma_jsons_values_roundtrip(items);
        },
        SpecJson::Object(entries) => {
            lemma_entries_pairs_roundtrip(entries);
        },
        _ => {},
    }
}

/// The round trip of a JSON array's items.
pub proof fn lemma_jsons_values_roundtrip(items: Seq<SpecJson>)
    ensures
        spec_values_to_jsons(spec_jsons_to_values(items)) == Some(items),
    decreases items, 1int,
{
    if items.len() == 0 {
        assert(spec_jsons_to_values(items) =~= Seq::<SpecValue>::empty());
        assert(items =~= Seq::<SpecJson>::empty());
    } else {
        vstd::seq::axiom_seq_subrange_decreases(items, 0, items.len() - 1);
        vstd::seq::axiom_seq_index_decreases(items, items.len() - 1);
        let pre = items.drop_last();
        let conv = spec_jsons_to_values(items);
        assert(conv == spec_jsons_to_values(pre).push(spec_json_to_value(items.last())));
        lemma_jsons_to_values_len(pre);
        assert(conv.drop_last() =~= spec_jsons_to_values(pre));
        lemma_jsons_values_roundtrip(pre);
        lemma_json_value_roundtrip(items.last());
        assert(pre.push(items.last()) =~= items);
    }
}

/// The round trip of a JSON object's entries.
pub proof fn lemma_entries_pairs_roundtrip(entries: Seq<(Seq<char>, SpecJson)>)
    ensures
        spec_pairs_to_entries(spec_entries_to_pairs(entries)) == Some(entries),
    decreases entries, 1int,
{
    if entries.len() == 0 {
        assert(spec_entries_to_pairs(entries) =~= Seq::<(SpecValue, SpecValue)>::empty());
        assert(entries =~= Seq::<(Seq<char>, SpecJson)>::empty());
    } else {
        vstd::seq::axiom_seq_subrange_decreases(entries, 0, entries.len() - 1);
        vstd::seq::axiom_seq_index_decreases(entries, entries.len() - 1);
        let pre = entries.drop_last();
        let conv = spec_entries_to_pairs(entries);
        assert(conv == spec_entries_to_pairs(pre).push(
            (SpecValue::Str(entries.last().0), spec_json_to_value(entries.last().1)),
        ));
        lemma_entries_to_pairs_len(pre);
        assert(conv.drop_last() =~= spec_entries_to_pairs(pre));
        lemma_entries_pairs_roundtrip(pre);
        lemma_json_value_roundtrip(entries.last().1);
        assert(pre.push(entries.last()) =~= entries);
    }
}

impl JsonValue {
    /// Structural equality of two JSON trees.
    #[verifier::loop_isolation(false)]
    pub fn deep_eq(&self, other: &JsonValue) -> (r: bool)
        ensures
            r == (self@ == other@),
        decreases self,
    {
        match (self, other) {
            (JsonValue::Null, JsonValue::Null) => true,
            (JsonValue::Bool(a), JsonValue::Bool(b)) => a == b,
            (JsonValue::Int(a), JsonValue::Int(b)) => a == b,
            (JsonValue::Float(a), JsonValue::Float(b)) => a == b,
            (JsonValue::Str(a), JsonValue::Str(b)) => {
                let r = *a == *b;
                proof {
                    if r {
                        assert(self@ == other@);
                    }
                }
                r
            },
            (JsonValue::Array(a), JsonValue::Array(b)) => {
                proof {
                    lemma_json_seq_view_len(a@);
                    lemma_json_seq_view_len(b@);
                }
                if a.len() != b.len() {
                    return false;
                }
                let mut i: usize = 0;
                while i < a.len()
                    invariant
                        i <= a@.len(),
                        a@.len() == b@.len(),
                        forall|j: int| 0 <= j < i ==> (#[trigger] a@[j])@ == b@[j]@,
                    decreases a@.len() - i,
                {
                    if !a[i].deep_eq(&b[i]) {
                        proof {
                            lemma_json_seq_view_index(a@, i as int);
                            lemma_json_seq_view_index(b@, i as int);
                            assert(self@->Array_0[i as int] != other@->Array_0[i as int]);
                        }
                        return false;
                    }
                    i = i + 1;
                }
                proof {
                    assert forall|j: int| 0 <= j < a@.len() implies self@->Array_0[j]
                        == other@->Array_0[j] by {
                        lemma_json_seq_view_index(a@, j);
                        lemma_json_seq_view_index(b@, j);
                    }
                    assert(self@->Array_0 =~= other@->Array_0);
                }
                true
            },
            (JsonValue::Object(a), JsonValue::Object(b)) => {
                proof {
                    lemma_json_entry_seq_view_len(a@);
                    lemma_json_entry_seq_view_len(b@);
                }
                if a.len() != b.len() {
                    return false;
                }
                let mut i: usize = 0;
                while i < a.len()
                    invariant
                        i <= a@.len(),
                        a@.len() == b@.len(),
                        forall|j: int| 0 <= j < i ==> (#[trigger] a@[j]).0@ == b@[j].0@
                            && a@[j].1@ == b@[j].1@,
                    decreases a@.len() - i,
                {
                    let keys_eq = a[i].0 == b[i].0;
                    if !keys_eq {
                        proof {
                            lemma_json_entry_seq_view_index(a@, i as int);
                            lemma_json_entry_seq_view_index(b@, i as int);
                            assert(self@->Object_0[i as int] != other@->Object_0[i as int]);
                        }
                        return false;
                    }
                    if !a[i].1.deep_eq(&b[i].1) {
                        proof {
                            lemma_json_entry_seq_view_index(a@, i as int);
                            lemma_json_entry_seq_view_index(b@, i as int);
                            assert(self@->Object_0[i as int] != other@->Object_0[i as int]);
                        }
                        return false;
                    }
                    i = i + 1;
                }
                proof {
                    assert forall|j: int| 0 <= j < a@.len() implies self@->Object_0[j]
                        == other@->Object_0[j] by {
                        lemma_json_entry_seq_view_index(a@, j);
                        lemma_json_entry_seq_view_index(b@, j);
                    }
                    assert(self@->Object_0 =~= other@->Object_0);
                }
                true
            },
            _ => {
                proof {
                    assert(self@ != other@);
                }
                false
            },
        }
    }
}

} // verus!
