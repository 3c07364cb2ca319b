//! A plain JSON tree: what one line of the log decodes to before the
//! session-specific decoding runs. The only trusted step is the call into
//! serde_json that turns text into this tree; everything that reads the tree
//! is verified.

use vstd::prelude::*;

verus! {

broadcast use vstd::std_specs::vec::group_vec_axioms, vstd::seq::group_seq_axioms;

/// One JSON value as plain data. A number outside the `i64` range (or not an
/// integer at all) is kept only as the mark `BigNumber`: no part of the log
/// format reads such numbers.
pub enum JsonValue {
    Null,
    Bool(bool),
    Int(i64),
    BigNumber,
    Text(String),
    Array(Vec<JsonValue>),
    Object(Vec<(String, JsonValue)>),
}

/// The mathematical shape of a JSON value: strings as character sequences,
/// integers unbounded.
#[verifier::ext_equal]
pub enum JsonV {
    Null,
    Bool(bool),
    Int(int),
    BigNumber,
    Text(Seq<char>),
    Array(Seq<JsonV>),
    Object(Seq<(Seq<char>, JsonV)>),
}

/// The mathematical shape of a `JsonValue`.
pub open spec fn jv_view(v: JsonValue) -> JsonV
    decreases v,
    via jv_view_decreases
{
    match v {
        JsonValue::Null => JsonV::Null,
        JsonValue::Bool(b) => JsonV::Bool(b),
        JsonValue::Int(i) => JsonV::Int(i as int),
        JsonValue::BigNumber => JsonV::BigNumber,
        JsonValue::Text(s) => JsonV::Text(s@),
        JsonValue::Array(items) => JsonV::Array(jv_seq_view(items@)),
        JsonValue::Object(fields) => JsonV::Object(jv_fields_view(fields@)),
    }
}

/// The shapes of the elements, in order.
pub open spec fn jv_seq_view(items: Seq<JsonValue>) -> Seq<JsonV>
    decreases items,
    via jv_seq_view_decreases
{
    if items.len() == 0 {
        Seq::empty()
    } else {
        seq![jv_view(items[0])] + jv_seq_view(items.drop_first())
    }
}

/// The shapes of the fields, names as character sequences, in order.
pub open spec fn jv_fields_view(fields: Seq<(String, JsonValue)>) -> Seq<(Seq<char>, JsonV)>
    decreases fields,
    via jv_fields_view_decreases
{
    if fields.len() == 0 {
        Seq::empty()
    } else {
        seq![(fields[0].0@, jv_view(fields[0].1))] + jv_fields_view(fields.drop_first())
    }
}

#[via_fn]
proof fn jv_view_decreases(v: JsonValue) {
    match v {
        JsonValue::Array(items) => {
            assert(decreases_to!(v => items));
            assert(decreases_to!(items => items@));
        },
        JsonValue::Object(fields) => {
            assert(decreases_to!(v => fields));
            assert(decreases_to!(fields => fields@));
        },
        _ => {},
    }
}

#[via_fn]
proof fn jv_seq_view_decreases(items: Seq<JsonValue>) {
    if items.len() > 0 {
        assert(decreases_to!(items => items[0]));
        assert(items.drop_first() == items.subrange(1, items.len() as int));
        assert(decreases_to!(items => items.subrange(1, items.len() as int)));
    }
}

#[via_fn]
proof fn jv_fields_view_decreases(fields: Seq<(String, JsonValue)>) {
    if fields.len() > 0 {
        assert(decreases_to!(fields => fields[0]));
        assert(decreases_to!(fields[0] => fields[0].1));
        assert(fields.drop_first() == fields.subrange(1, fields.len() as int));
        assert(decreases_to!(fields => fields.subrange(1, fields.len() as int)));
    }
}

/// How `jv_seq_view` reads element by element.
pub proof fn lemma_jv_seq_view(items: Seq<JsonValue>)
    ensures
        jv_seq_view(items).len() == items.len(),
        forall|i: int|
            0 <= i < items.len() ==> #[trigger] jv_seq_view(items)[i] == jv_view(items[i]),
    decreases items,
{
    if items.len() > 0 {
        lemma_jv_seq_view(items.drop_first());
    }
}

/// How `jv_fields_view` reads element by element.
pub proof fn lemma_jv_fields_view(fields: Seq<(String, JsonValue)>)
    ensures
        jv_fields_view(fields).len() == fields.len(),
        forall|i: int|
            0 <= i < fields.len() ==> #[trigger] jv_fields_view(fields)[i] == (
            fields[i].0@,
            jv_view(fields[i].1),
            ),
    decreases fields,
{
    if fields.len() > 0 {
        lemma_jv_fields_view(fields.drop_first());
    }
}

/// The value of the first field with the given name, if any.
pub open spec fn lookup_field(fields: Seq<(Seq<char>, JsonV)>, key: Seq<char>) -> Option<JsonV>
    decreases fields.len(),
{
    if fields.len() == 0 {
        None
    } else if fields[0].0 == key {
        Some(fields[0].1)
    } else {
        lookup_field(fields.drop_first(), key)
    }
}

/// The field lookup on the object's fields; `None` on everything that is not
/// an object.
pub open spec fn jv_get(v: JsonV, key: Seq<char>) -> Option<JsonV> {
    match v {
        JsonV::Object(fields) => lookup_field(fields, key),
        _ => None,
    }
}

/// A reference to the value of the first field with the given name.
pub fn obj_get<'a>(fields: &'a Vec<(String, JsonValue)>, key: &str) -> (r: Option<&'a JsonValue>)
    ensures
        match r {
            Some(v) => lookup_field(jv_fields_view(fields@), key@) == Some(jv_view(*v)),
            None => lookup_field(jv_fields_view(fields@), key@) is None,
        },
{
    proof {
        lemma_jv_fields_view(fields@);
    }
    let mut i: usize = 0;
    while i < fields.len()
        invariant
            0 <= i <= fields@.len(),
            forall|j: int| 0 <= j < i ==> #[trigger] fields@[j].0@ != key@,
        decreases fields@.len() - i,
    {
        if crate::text::str_eq(fields[i].0.as_str(), key) {
            proof {
                lemma_jv_fields_view(fields@);
                lemma_lookup_first_hit(jv_fields_view(fields@), key@, i as int);
            }
            return Some(&fields[i].1);
        }
        i += 1;
    }
    proof {
        lemma_jv_fields_view(fields@);
        lemma_lookup_no_hit(jv_fields_view(fields@), key@);
    }
    None
}

proof fn lemma_lookup_first_hit(fields: Seq<(Seq<char>, JsonV)>, key: Seq<char>, i: int)
    requires
        0 <= i < fields.len(),
        forall|j: int| 0 <= j < i ==> #[trigger] fields[j].0 != key,
        fields[i].0 == key,
    ensures
        lookup_field(fields, key) == Some(fields[i].1),
    decreases i,
{
    if i > 0 {
        lemma_lookup_first_hit(fields.drop_first(), key, i - 1);
    }
}

proof fn lemma_lookup_no_hit(fields: Seq<(Seq<char>, JsonV)>, key: Seq<char>)
    requires
        forall|j: int| 0 <= j < fields.len() ==> #[trigger] fields[j].0 != key,
    ensures
        lookup_field(fields, key) is None,
    decreases fields.len(),
{
    if fields.len() > 0 {
        lemma_lookup_no_hit(fields.drop_first(), key);
    }
}

/// A copy of the tree, equal in shape to the original.
pub fn json_clone(v: &JsonValue) -> (r: JsonValue)
    ensures
        jv_view(r) == jv_view(*v),
    decreases *v,
{
    match v {
        JsonValue::Null => JsonValue::Null,
        JsonValue::Bool(b) => JsonValue::Bool(*b),
        JsonValue::Int(i) => JsonValue::Int(*i),
        JsonValue::BigNumber => JsonValue::BigNumber,
        JsonValue::Text(s) => JsonValue::Text(s.clone()),
        JsonValue::Array(items) => {
            proof {
                assert(decreases_to!(*v => *items));
                assert(decreases_to!(*items => items@));
            }
            let mut out: Vec<JsonValue> = Vec::new();
            let mut i: usize = 0;
            while i < items.len()
                invariant
                    0 <= i <= items@.len(),
                    out@.len() == i,
                    decreases_to!(*v => items@),
                    forall|j: int|
                        0 <= j < i ==> jv_view(#[trigger] out@[j]) == jv_view(items@[j]),
                decreases items@.len() - i,
            {
                proof {
                    assert(decreases_to!(items@ => items@[i as int]));
                }
                let c = json_clone(&items[i]);
                out.push(c);
                i += 1;
            }
            proof {
                lemma_jv_seq_view(out@);
                lemma_jv_seq_view(items@);
                assert(jv_seq_view(out@) =~= jv_seq_view(items@));
            }
            JsonValue::Array(out)
        },
        JsonValue::Object(fields) => {
            proof {
                assert(decreases_to!(*v => *fields));
                assert(decreases_to!(*fields => fields@));
            }
            let mut out: Vec<(String, JsonValue)> = Vec::new();
            let mut i: usize = 0;
            while i < fields.len()
                invariant
                    0 <= i <= fields@.len(),
                    out@.len() == i,
                    decreases_to!(*v => fields@),
                    forall|j: int|
                        0 <= j < i ==> #[trigger] out@[j].0@ == fields@[j].0@ && jv_view(
                            out@[j].1,
                        ) == jv_view(fields@[j].1),
                decreases fields@.len() - i,
            {
                proof {
                    assert(decreases_to!(fields@ => fields@[i as int]));
                    assert(decreases_to!(fields@[i as int] => fields@[i as int].1));
                }
                let k = fields[i].0.clone();
                let c = json_clone(&fields[i].1);
                out.push((k, c));
                i += 1;
            }
            proof {
                lemma_jv_fields_view(out@);
                lemma_jv_fields_view(fields@);
                assert(jv_fields_view(out@) =~= jv_fields_view(fields@));
            }
            JsonValue::Object(out)
        },
    }
}

/// The tree that the given text decodes to, or nothing when the text is not
/// well-formed JSON. What this function returns is fixed by the text alone.
pub uninterp spec fn json_tree(s: Seq<char>) -> Option<JsonV>;

#[verifier::external_type_specification]
#[verifier::external_body]
pub struct ExSerdeValue(serde_json::Value);

/// Relies on the shape of serde_json::Value: each variant becomes the matching
/// variant of JsonValue, fields moved one for one; a number becomes `Int`
/// through serde_json::Number::as_i64 and `BigNumber` where that gives
/// nothing.
#[verifier::external_body]
fn from_serde_value(v: &serde_json::Value) -> JsonValue {
    match v {
        serde_json::Value::Null => JsonValue::Null,
        serde_json::Value::Bool(b) => JsonValue::Bool(*b),
        serde_json::Value::Number(n) => match n.as_i64() {
            Some(i) => JsonValue::Int(i),
            None => JsonValue::BigNumber,
        },
        serde_json::Value::String(s) => JsonValue::Text(s.clone()),
        serde_json::Value::Array(items) => JsonValue::Array(
            items.iter().map(from_serde_value).collect(),
        ),
        serde_json::Value::Object(fields) => JsonValue::Object(
            fields.iter().map(|(k, x)| (k.clone(), from_serde_value(x))).collect(),
        ),
    }
}

/// Relies on serde_json::from_str::<serde_json::Value>: well-formed JSON text
/// decodes to its one tree, anything else to an error; the result depends on
/// the text alone.
#[verifier::external_body]
pub fn parse_json_text(line: &str) -> (r: Option<JsonValue>)
    ensures
        match r {
            Some(v) => json_tree(line@) == Some(jv_view(v)),
            None => json_tree(line@) is None,
        },
{
    match serde_json::from_str::<serde_json::Value>(line) {
        Ok(v) => Some(from_serde_value(&v)),
        Err(_) => None,
    }
}

} // verus!
