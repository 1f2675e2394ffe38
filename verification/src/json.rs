//! The JSON value model that trace records decode into, and the bridge
//! from JSON text to that model.
//!
//! Numbers that fit a signed 64-bit integer arrive as `Int`; any other
//! number keeps its decimal text in `Num`, and a caller that needs its
//! integral part parses that text with `num_text_to_i64`.
use vstd::prelude::*;

verus! {

broadcast use vstd::std_specs::vec::group_vec_axioms, vstd::seq::axiom_seq_index_decreases;

/// One parsed JSON document.
#[derive(Debug, PartialEq)]
pub enum JsonValue {
    Null,
    Bool(bool),
    Int(i64),
    Num(String),
    Str(String),
    Arr(Vec<JsonValue>),
    Obj(Vec<(String, JsonValue)>),
}

/// The mathematical shape of a `JsonValue`: strings become character
/// sequences, vectors become sequences.
pub enum JVal {
    Null,
    Bool(bool),
    Int(i64),
    Num(Seq<char>),
    Str(Seq<char>),
    Arr(Seq<JVal>),
    Obj(Seq<(Seq<char>, JVal)>),
}

/// The mathematical value of a `JsonValue`.
pub open spec fn jval_of(v: JsonValue) -> JVal
    decreases v,
{
    match v {
        JsonValue::Null => JVal::Null,
        JsonValue::Bool(b) => JVal::Bool(b),
        JsonValue::Int(i) => JVal::Int(i),
        JsonValue::Num(s) => JVal::Num(s@),
        JsonValue::Str(s) => JVal::Str(s@),
        JsonValue::Arr(items) => JVal::Arr(jvals_of(items@)),
        JsonValue::Obj(fields) => JVal::Obj(jfields_of(fields@)),
    }
}

pub open spec fn jvals_of(items: Seq<JsonValue>) -> Seq<JVal>
    decreases items,
{
    if items.len() == 0 {
        Seq::empty()
    } else {
        jvals_of(items.drop_last()).push(jval_of(items.last()))
    }
}

pub open spec fn jfields_of(fields: Seq<(String, JsonValue)>) -> Seq<(Seq<char>, JVal)>
    decreases fields,
{
    if fields.len() == 0 {
        Seq::empty()
    } else {
        jfields_of(fields.drop_last()).push(
            (fields.last().0@, jval_of(fields.last().1)),
        )
    }
}

pub proof fn lemma_jvals_of(items: Seq<JsonValue>)
    ensures
        jvals_of(items).len() == items.len(),
        forall|i: int| 0 <= i < items.len() ==> jvals_of(items)[i] == jval_of(
            #[trigger] items[i],
        ),
    decreases items.len(),
{
    if items.len() > 0 {
        lemma_jvals_of(items.drop_last());
        assert(forall|i: int|
            0 <= i < items.len() - 1 ==> items.drop_last()[i] == #[trigger] items[i]);
    }
}

pub proof fn lemma_jfields_of(fields: Seq<(String, JsonValue)>)
    ensures
        jfields_of(fields).len() == fields.len(),
        forall|i: int| 0 <= i < fields.len() ==> jfields_of(fields)[i] == (
            (#[trigger] fields[i]).0@,
            jval_of(fields[i].1),
        ),
    decreases fields.len(),
{
    if fields.len() > 0 {
        lemma_jfields_of(fields.drop_last());
        assert(forall|i: int|
            0 <= i < fields.len() - 1 ==> fields.drop_last()[i] == #[trigger] fields[i]);
    }
}

impl View for JsonValue {
    type V = JVal;

    open spec fn view(&self) -> JVal {
        jval_of(*self)
    }
}

impl DeepView for JsonValue {
    type V = JVal;

    open spec fn deep_view(&self) -> JVal {
        self.view()
    }
}

/// What `serde_json` parses a line of text into: `None` where the text
/// is not one well-formed JSON document.
pub uninterp spec fn json_of(s: Seq<char>) -> Option<JVal>;

/// Relies on serde_json::from_str: parses exactly one JSON document,
/// returning an error on malformed text.  The parsed value is a pure
/// function of the text, named `json_of`.
#[verifier::external_body]
pub fn parse_json(s: &str) -> (r: Option<JsonValue>)
    ensures
        match r {
            Some(v) => json_of(s@) == Some(v@),
            None => json_of(s@) is None,
        },
{
    match serde_json::from_str::<serde_json::Value>(s) {
        Ok(v) => Some(from_serde(&v)),
        Err(_) => None,
    }
}

#[verifier::external_type_specification]
#[verifier::external_body]
pub struct ExSerdeValue(serde_json::Value);

/// Bridges `serde_json::Value` into the library's value type, variant by
/// variant; only `parse_json` calls it, and only `parse_json`'s contract
/// speaks for the pair.
#[verifier::external_body]
fn from_serde(v: &serde_json::Value) -> JsonValue {
    match v {
        serde_json::Value::Null => JsonValue::Null,
        serde_json::Value::Bool(b) => JsonValue::Bool(*b),
        serde_json::Value::Number(n) => match n.as_i64() {
            Some(i) => JsonValue::Int(i),
            None => JsonValue::Num(n.to_string()),
        },
        serde_json::Value::String(s) => JsonValue::Str(s.clone()),
        serde_json::Value::Array(a) => JsonValue::Arr(
            a.iter().map(from_serde).collect(),
        ),
        serde_json::Value::Object(m) => JsonValue::Obj(
            m.iter().map(|(k, v)| (k.clone(), from_serde(v))).collect(),
        ),
    }
}

/// The value under the first field named `key`, if any.
pub open spec fn obj_get(fields: Seq<(Seq<char>, JVal)>, key: Seq<char>) -> Option<JVal>
    decreases fields.len(),
{
    if fields.len() == 0 {
        None
    } else if fields[0].0 == key {
        Some(fields[0].1)
    } else {
        obj_get(fields.drop_first(), key)
    }
}

/// Looks `key` up in an object's fields; `None` for other values or a
/// missing field.
pub fn get_field<'a>(v: &'a JsonValue, key: &str) -> (r: Option<&'a JsonValue>)
    ensures
        match v@ {
            JVal::Obj(fields) => match r {
                Some(f) => obj_get(fields, key@) == Some(f@),
                None => obj_get(fields, key@) is None,
            },
            _ => r is None,
        },
{
    match v {
        JsonValue::Obj(fields) => {
            let ghost vfields = v@->Obj_0;
            proof {
                assert(v@ is Obj);
                lemma_jfields_of(fields@);
                assert(vfields.skip(0) =~= vfields);
            }
            let mut i: usize = 0;
            while i < fields.len()
                invariant
                    i <= fields@.len(),
                    vfields == v@->Obj_0,
                    v@ is Obj,
                    vfields.len() == fields@.len(),
                    forall|k: int|
                        0 <= k < fields@.len() ==> vfields[k] == (
                        (#[trigger] fields@[k]).0@,
                        jval_of(fields@[k].1),
                        ),
                    obj_get(vfields, key@) == obj_get(
                        vfields.skip(i as int),
                        key@,
                    ),
                decreases fields@.len() - i,
            {
                if fields[i].0.as_str().eq(key) {
                    proof {
                        let rest = vfields.skip(i as int);
                        assert(vfields[i as int] == (
                            fields@[i as int].0@,
                            jval_of(fields@[i as int].1),
                        ));
                        assert(rest.len() == vfields.len() - i);
                        assert(rest[0] == vfields[i as int]);
                        assert(rest[0].0 == key@);
                        assert(obj_get(rest, key@) == Some(rest[0].1));
                        assert(v@ == JVal::Obj(vfields));
                    }
                    return Some(&fields[i].1);
                }
                proof {
                    let rest = vfields.skip(i as int);
                    assert(vfields[i as int] == (
                        fields@[i as int].0@,
                        jval_of(fields@[i as int].1),
                    ));
                    assert(rest.len() == vfields.len() - i);
                    assert(rest[0] == vfields[i as int]);
                    assert(rest[0].0 != key@);
                    assert(obj_get(rest, key@) == obj_get(
                        rest.drop_first(),
                        key@,
                    ));
                    assert(rest.drop_first() =~= vfields.skip(i + 1));
                }
                i += 1;
            }
            proof {
                assert(vfields.skip(i as int) =~= Seq::<(Seq<char>, JVal)>::empty());
                assert(v@ == JVal::Obj(vfields));
            }
            None
        },
        _ => None,
    }
}

/// A structurally equal copy of `v`.
pub fn clone_json(v: &JsonValue) -> (r: JsonValue)
    ensures
        r@ == v@,
    decreases *v,
{
    match v {
        JsonValue::Null => JsonValue::Null,
        JsonValue::Bool(b) => JsonValue::Bool(*b),
        JsonValue::Int(i) => JsonValue::Int(*i),
        JsonValue::Num(s) => JsonValue::Num(s.clone()),
        JsonValue::Str(s) => JsonValue::Str(s.clone()),
        JsonValue::Arr(items) => {
            let mut out: Vec<JsonValue> = Vec::new();
            let mut i: usize = 0;
            while i < items.len()
                invariant
                    *v == JsonValue::Arr(*items),
                    i <= items@.len(),
                    out@.len() == i,
                    forall|k: int|
                        0 <= k < i ==> jval_of(#[trigger] out@[k]) == jval_of(
                        items@[k],
                        ),
                decreases items@.len() - i,
            {
                proof {
                    assert(*v == JsonValue::Arr(*items));
                    assert(decreases_to!(*v => v->Arr_0));
                    assert(decreases_to!(*v => *items));
                    assert(decreases_to!(*items => items@));
                    assert(decreases_to!(items@ => items@[i as int]));
                }
                out.push(clone_json(&items[i]));
                i += 1;
            }
            proof {
                lemma_jvals_of(out@);
                lemma_jvals_of(items@);
                assert forall|k: int| 0 <= k < out@.len() implies jvals_of(
                    out@,
                )[k] == jvals_of(items@)[k] by {
                    assert(jvals_of(out@)[k] == jval_of(out@[k]));
                    assert(jvals_of(items@)[k] == jval_of(items@[k]));
                }
                assert(jvals_of(out@) =~= jvals_of(items@));
            }
            JsonValue::Arr(out)
        },
        JsonValue::Obj(fields) => {
            let mut out: Vec<(String, JsonValue)> = Vec::new();
            let mut i: usize = 0;
            while i < fields.len()
                invariant
                    *v == JsonValue::Obj(*fields),
                    i <= fields@.len(),
                    out@.len() == i,
                    forall|k: int|
                        0 <= k < i ==> (#[trigger] out@[k]).0@ == fields@[k].0@
                            && jval_of(out@[k].1) == jval_of(fields@[k].1),
                decreases fields@.len() - i,
            {
                proof {
                    assert(*v == JsonValue::Obj(*fields));
                    assert(decreases_to!(*v => v->Obj_0));
                    assert(decreases_to!(*v => *fields));
                    assert(decreases_to!(*fields => fields@));
                    assert(decreases_to!(fields@ => fields@[i as int]));
                    assert(decreases_to!(fields@[i as int] => fields@[i as int].1));
                }
                let name = fields[i].0.clone();
                let value = clone_json(&fields[i].1);
                out.push((name, value));
                i += 1;
            }
            proof {
                lemma_jfields_of(out@);
                lemma_jfields_of(fields@);
                assert forall|k: int| 0 <= k < out@.len() implies jfields_of(
                    out@,
                )[k] == jfields_of(fields@)[k] by {
                    assert(jfields_of(out@)[k] == (out@[k].0@, jval_of(out@[k].1)));
                    assert(jfields_of(fields@)[k] == (
                        fields@[k].0@,
                        jval_of(fields@[k].1),
                    ));
                }
                assert(jfields_of(out@) =~= jfields_of(fields@));
            }
            JsonValue::Obj(out)
        },
    }
}

/// A copy of a parameter list whose view is unchanged.
pub fn clone_params(params: &Vec<(String, JsonValue)>) -> (r: Vec<(String, JsonValue)>)
    ensures
        r.deep_view() == params.deep_view(),
{
    let mut out: Vec<(String, JsonValue)> = Vec::new();
    let mut i: usize = 0;
    while i < params.len()
        invariant
            i <= params@.len(),
            out@.len() == i,
            forall|k: int|
                0 <= k < i ==> (#[trigger] out@[k]).0@ == params@[k].0@
                    && jval_of(out@[k].1) == jval_of(params@[k].1),
        decreases params@.len() - i,
    {
        let name = params[i].0.clone();
        let value = clone_json(&params[i].1);
        out.push((name, value));
        i += 1;
    }
    proof {
        assert(out.deep_view() =~= params.deep_view());
    }
    out
}

/// `deep_view` of a field vector coincides with `jfields_of` of its
/// view.
pub proof fn lemma_deep_view_is_jfields(v: Vec<(String, JsonValue)>)
    ensures
        v.deep_view() == jfields_of(v@),
{
    lemma_jfields_of(v@);
    assert forall|k: int| 0 <= k < v@.len() implies v.deep_view()[k]
        == jfields_of(v@)[k] by {
        assert(jfields_of(v@)[k] == (v@[k].0@, jval_of(v@[k].1)));
    }
    assert(v.deep_view() =~= jfields_of(v@));
}

} // verus!



