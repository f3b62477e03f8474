//! JSON values on their way into the script engine.

use vstd::prelude::*;

verus! {

/// What the runtime asks of a JSON number: its value where that is a 64-bit
/// integer, and otherwise the bits of the double that it denotes, if there is
/// one.
#[derive(Clone, Copy, Debug)]
pub struct JsonNumber {
    pub as_i64: Option<i64>,
    pub as_f64_bits: Option<u64>,
}

/// A JSON value. The members of an object are in the order in which they are to
/// be set.
#[derive(Debug)]
pub enum Json {
    Null,
    Bool(bool),
    Number(JsonNumber),
    Text(String),
    Array(Vec<Json>),
    Object(Vec<(String, Json)>),
}

impl Clone for Json {
    /// The same value again.
    fn clone(&self) -> (copy: Self)
        ensures
            same_json(*self, copy),
        decreases self,
    {
        match self {
            Json::Null => Json::Null,
            Json::Bool(b) => Json::Bool(*b),
            Json::Number(n) => Json::Number(*n),
            Json::Text(s) => Json::Text(s.clone()),
            Json::Array(items) => {
                let mut out: Vec<Json> = Vec::new();
                for i in 0..items.len()
                    invariant
                        decreases_to!(self => items),
                        out@.len() == i,
                        forall|k: int| 0 <= k < i ==> same_json(#[trigger] items@[k], out@[k]),
                {
                    assert(decreases_to!(items => items@));
                    out.push(items[i].clone());
                }
                Json::Array(out)
            },
            Json::Object(members) => {
                let mut out: Vec<(String, Json)> = Vec::new();
                for i in 0..members.len()
                    invariant
                        decreases_to!(self => members),
                        out@.len() == i,
                        forall|k: int|
                            0 <= k < i ==> (#[trigger] members@[k]).0@ == out@[k].0@ && same_json(
                                members@[k].1,
                                out@[k].1,
                            ),
                {
                    let (name, value) = &members[i];
                    assert(decreases_to!(members => members@));
                    out.push((name.clone(), value.clone()));
                }
                Json::Object(out)
            },
        }
    }
}

/// A value to be built in the script engine.
#[derive(Debug)]
pub enum JsValue {
    Null,
    Bool(bool),
    /// The number nearest to this integer.
    Integer(i64),
    /// The double with these bits.
    Double(u64),
    Text(String),
    Array(Vec<JsValue>),
    /// An object whose properties are set one after the other.
    Object(Vec<(String, JsValue)>),
}

/// The mathematical content of a [`JsValue`].
#[verifier::ext_equal]
pub enum JsView {
    Null,
    Bool(bool),
    Integer(i64),
    Double(u64),
    Text(Seq<char>),
    Array(Seq<JsView>),
    Object(Seq<(Seq<char>, JsView)>),
}

/// The content of a value.
pub open spec fn js_content(v: JsValue) -> JsView
    decreases v,
{
    match v {
        JsValue::Null => JsView::Null,
        JsValue::Bool(b) => JsView::Bool(b),
        JsValue::Integer(i) => JsView::Integer(i),
        JsValue::Double(d) => JsView::Double(d),
        JsValue::Text(s) => JsView::Text(s@),
        JsValue::Array(a) => JsView::Array(
            Seq::new(
                a@.len(),
                |i: int|
                    if 0 <= i < a@.len() {
                        js_content(a@[i])
                    } else {
                        JsView::Null
                    },
            ),
        ),
        JsValue::Object(o) => JsView::Object(
            Seq::new(
                o@.len(),
                |i: int|
                    if 0 <= i < o@.len() {
                        (o@[i].0@, js_content(o@[i].1))
                    } else {
                        (Seq::empty(), JsView::Null)
                    },
            ),
        ),
    }
}

impl View for JsValue {
    type V = JsView;

    open spec fn view(&self) -> JsView {
        js_content(*self)
    }
}

/// The contents of a list of values.
pub open spec fn js_items(items: Seq<JsValue>) -> Seq<JsView> {
    items.map_values(|v: JsValue| v@)
}

/// The contents of a list of properties.
pub open spec fn js_fields(fields: Seq<(String, JsValue)>) -> Seq<(Seq<char>, JsView)> {
    fields.map_values(|f: (String, JsValue)| (f.0@, f.1@))
}

/// What is found under a name in an object whose fields were set one after the
/// other: the value that was set last.
pub open spec fn property(fields: Seq<(Seq<char>, JsView)>, name: Seq<char>) -> Option<JsView>
    decreases fields.len(),
{
    if fields.len() == 0 {
        None
    } else if fields.last().0 == name {
        Some(fields.last().1)
    } else {
        property(fields.drop_last(), name)
    }
}

/// A text value.
pub fn js_text(s: &String) -> (v: JsValue)
    ensures
        v@ == JsView::Text(s@),
{
    JsValue::Text(s.clone())
}

/// A number value.
pub fn js_integer(i: i64) -> (v: JsValue)
    ensures
        v@ == JsView::Integer(i),
{
    JsValue::Integer(i)
}

/// An array with the given elements.
pub fn js_array(items: Vec<JsValue>) -> (v: JsValue)
    ensures
        v@ == JsView::Array(js_items(items@)),
{
    let v = JsValue::Array(items);
    assert(v@->Array_0 =~= js_items(items@));
    v
}

/// An object with the given properties.
pub fn js_object(fields: Vec<(String, JsValue)>) -> (v: JsValue)
    ensures
        v@ == JsView::Object(js_fields(fields@)),
{
    let v = JsValue::Object(fields);
    assert(v@->Object_0 =~= js_fields(fields@));
    v
}

/// Whether every number in a JSON value can be handed to the script engine.
pub open spec fn supported(j: Json) -> bool
    decreases j,
{
    match j {
        Json::Number(n) => n.as_i64 is Some || n.as_f64_bits is Some,
        Json::Array(a) => forall|i: int| 0 <= i < a@.len() ==> supported(#[trigger] a@[i]),
        Json::Object(o) => forall|i: int| 0 <= i < o@.len() ==> supported((#[trigger] o@[i]).1),
        _ => true,
    }
}

/// The script value that stands for a JSON value: the same structure, with
/// integers preferred to doubles.
pub open spec fn js_of(j: Json) -> JsView
    decreases j,
{
    match j {
        Json::Null => JsView::Null,
        Json::Bool(b) => JsView::Bool(b),
        Json::Number(n) => match n.as_i64 {
            Some(i) => JsView::Integer(i),
            None => JsView::Double(n.as_f64_bits->0),
        },
        Json::Text(s) => JsView::Text(s@),
        Json::Array(a) => JsView::Array(
            Seq::new(
                a@.len(),
                |i: int|
                    if 0 <= i < a@.len() {
                        js_of(a@[i])
                    } else {
                        JsView::Null
                    },
            ),
        ),
        Json::Object(o) => JsView::Object(
            Seq::new(
                o@.len(),
                |i: int|
                    if 0 <= i < o@.len() {
                        (o@[i].0@, js_of(o@[i].1))
                    } else {
                        (Seq::empty(), JsView::Null)
                    },
            ),
        ),
    }
}

/// Converts a JSON value for the script engine. It fails on a number that is
/// neither a 64-bit integer nor a double.
pub fn json_to_v8(value: &Json) -> (r: Result<JsValue, String>)
    ensures
        r is Ok <==> supported(*value),
        r matches Ok(v) ==> v@ == js_of(*value),
        r matches Err(e) ==> e@ == "Unsupported number value"@,
    decreases value,
{
    match value {
        Json::Null => Ok(JsValue::Null),
        Json::Bool(b) => Ok(JsValue::Bool(*b)),
        Json::Number(n) => {
            if let Some(i) = n.as_i64 {
                Ok(JsValue::Integer(i))
            } else if let Some(bits) = n.as_f64_bits {
                Ok(JsValue::Double(bits))
            } else {
                Err("Unsupported number value".to_string())
            }
        },
        Json::Text(s) => Ok(JsValue::Text(s.clone())),
        Json::Array(arr) => {
            let mut out: Vec<JsValue> = Vec::new();
            for i in 0..arr.len()
                invariant
                    decreases_to!(value => arr),
                    *value == Json::Array(*arr),
                    out@.len() == i,
                    forall|k: int| 0 <= k < i ==> supported(#[trigger] arr@[k]),
                    forall|k: int| 0 <= k < i ==> (#[trigger] out@[k])@ == js_of(arr@[k]),
            {
                assert(decreases_to!(arr => arr@));
                match json_to_v8(&arr[i]) {
                    Ok(v) => {
                        out.push(v);
                    },
                    Err(e) => {
                        assert(!supported(arr@[i as int]));
                        return Err(e);
                    },
                }
            }
            let r = JsValue::Array(out);
            assert(r@->Array_0 =~= js_of(*value)->Array_0);
            Ok(r)
        },
        Json::Object(map) => {
            let mut out: Vec<(String, JsValue)> = Vec::new();
            for i in 0..map.len()
                invariant
                    decreases_to!(value => map),
                    *value == Json::Object(*map),
                    out@.len() == i,
                    forall|k: int| 0 <= k < i ==> supported((#[trigger] map@[k]).1),
                    forall|k: int|
                        0 <= k < i ==> (#[trigger] out@[k]).0@ == map@[k].0@ && out@[k].1@ == js_of(
                            map@[k].1,
                        ),
            {
                let (key, val) = &map[i];
                assert(decreases_to!(map => map@));
                match json_to_v8(val) {
                    Ok(v) => {
                        out.push((key.clone(), v));
                    },
                    Err(e) => {
                        assert(!supported(map@[i as int].1));
                        return Err(e);
                    },
                }
            }
            let r = JsValue::Object(out);
            assert(r@->Object_0 =~= js_of(*value)->Object_0);
            Ok(r)
        },
    }
}

// ---- laws ----

/// Whether two JSON values are the same: the same structure at every depth, with
/// equal names and texts, in the same order, and equal numbers. Of a number that
/// is a 64-bit integer the integer counts, of others the double.
pub open spec fn same_json(a: Json, b: Json) -> bool
    decreases a,
{
    match (a, b) {
        (Json::Null, Json::Null) => true,
        (Json::Bool(x), Json::Bool(y)) => x == y,
        (Json::Number(x), Json::Number(y)) => x.as_i64 == y.as_i64 && (x.as_i64 is None
            ==> x.as_f64_bits == y.as_f64_bits),
        (Json::Text(x), Json::Text(y)) => x@ == y@,
        (Json::Array(x), Json::Array(y)) => x@.len() == y@.len() && forall|i: int|
            0 <= i < x@.len() ==> same_json(#[trigger] x@[i], y@[i]),
        (Json::Object(x), Json::Object(y)) => x@.len() == y@.len() && forall|i: int|
            0 <= i < x@.len() ==> (#[trigger] x@[i]).0@ == y@[i].0@ && same_json(x@[i].1, y@[i].1),
        _ => false,
    }
}

/// A JSON value can be read back from what the script engine is handed: two
/// values become the same script value exactly if they are the same.
pub proof fn law_json_can_be_read_back(a: Json, b: Json)
    requires
        supported(a),
        supported(b),
    ensures
        js_of(a) == js_of(b) <==> same_json(a, b),
    decreases a,
{
    match (a, b) {
        (Json::Array(x), Json::Array(y)) => {
            let u = js_of(a)->Array_0;
            let v = js_of(b)->Array_0;
            assert(u.len() == x@.len() && v.len() == y@.len());
            assert forall|i: int| 0 <= i < x@.len() && i < y@.len() implies (#[trigger] u[i] == v[i]
                <==> same_json(x@[i], y@[i])) by {
                assert(supported(x@[i]) && supported(y@[i]));
                law_json_can_be_read_back(x@[i], y@[i]);
            }
            if same_json(a, b) {
                assert forall|i: int| 0 <= i < u.len() implies #[trigger] u[i] == v[i] by {
                    assert(same_json(x@[i], y@[i]));
                }
                assert(u =~= v);
            }
            if js_of(a) == js_of(b) {
                assert forall|i: int| 0 <= i < x@.len() implies same_json(#[trigger] x@[i], y@[i]) by {
                    assert(u[i] == v[i]);
                }
            }
        },
        (Json::Object(x), Json::Object(y)) => {
            let u = js_of(a)->Object_0;
            let v = js_of(b)->Object_0;
            assert(u.len() == x@.len() && v.len() == y@.len());
            assert forall|i: int| 0 <= i < x@.len() && i < y@.len() implies (#[trigger] u[i] == v[i]
                <==> x@[i].0@ == y@[i].0@ && same_json(x@[i].1, y@[i].1)) by {
                assert(supported(x@[i].1) && supported(y@[i].1));
                law_json_can_be_read_back(x@[i].1, y@[i].1);
            }
            if same_json(a, b) {
                assert forall|i: int| 0 <= i < u.len() implies #[trigger] u[i] == v[i] by {
                    assert(x@[i].0@ == y@[i].0@ && same_json(x@[i].1, y@[i].1));
                }
                assert(u =~= v);
            }
            if js_of(a) == js_of(b) {
                assert forall|i: int| 0 <= i < x@.len() implies (#[trigger] x@[i]).0@ == y@[i].0@
                    && same_json(x@[i].1, y@[i].1) by {
                    assert(u[i] == v[i]);
                }
            }
        },
        _ => {},
    }
}

/// A script value has the content that its parts have: texts, numbers and truth
/// values as they are, items and fields each in their place.
pub proof fn law_a_value_is_what_it_holds(v: JsValue)
    ensures
        match v {
            JsValue::Null => v@ is Null,
            JsValue::Bool(b) => v@ is Bool && v@->Bool_0 == b,
            JsValue::Integer(i) => v@ is Integer && v@->Integer_0 == i,
            JsValue::Double(d) => v@ is Double && v@->Double_0 == d,
            JsValue::Text(s) => v@ is Text && v@->Text_0 == s@,
            JsValue::Array(a) => {
                &&& v@ is Array
                &&& v@->Array_0.len() == a@.len()
                &&& forall|i: int| 0 <= i < a@.len() ==> #[trigger] v@->Array_0[i] == a@[i]@
            },
            JsValue::Object(o) => {
                &&& v@ is Object
                &&& v@->Object_0.len() == o@.len()
                &&& forall|i: int|
                    0 <= i < o@.len() ==> {
                        &&& (#[trigger] v@->Object_0[i]).0 == o@[i].0@
                        &&& v@->Object_0[i].1 == o@[i].1@
                    }
            },
        },
{
}

/// A JSON value becomes a script value of the same kind with the same content:
/// a number that is a 64-bit integer that integer, another number its double, a
/// text the same text, and a list or an object one of the same length with its
/// items or members in the same places and under the same names.
pub proof fn law_json_keeps_its_content(j: Json)
    ensures
        match j {
            Json::Null => js_of(j) is Null,
            Json::Bool(b) => js_of(j) is Bool && js_of(j)->Bool_0 == b,
            Json::Number(n) => {
                &&& n.as_i64 matches Some(i) ==> js_of(j) is Integer && js_of(j)->Integer_0 == i
                &&& n.as_i64 is None ==> (n.as_f64_bits matches Some(d) ==> js_of(j) is Double && js_of(
                    j,
                )->Double_0 == d)
            },
            Json::Text(s) => js_of(j) is Text && js_of(j)->Text_0 == s@,
            Json::Array(a) => {
                &&& js_of(j) is Array
                &&& js_of(j)->Array_0.len() == a@.len()
                &&& forall|i: int| 0 <= i < a@.len() ==> #[trigger] js_of(j)->Array_0[i] == js_of(a@[i])
            },
            Json::Object(o) => {
                &&& js_of(j) is Object
                &&& js_of(j)->Object_0.len() == o@.len()
                &&& forall|i: int|
                    0 <= i < o@.len() ==> {
                        &&& (#[trigger] js_of(j)->Object_0[i]).0 == o@[i].0@
                        &&& js_of(j)->Object_0[i].1 == js_of(o@[i].1)
                    }
            },
        },
{
}

/// The only JSON values that cannot be handed to the script engine are numbers
/// that are neither 64-bit integers nor doubles, and what holds one of them.
pub proof fn law_only_numbers_are_unsupported(j: Json)
    ensures
        match j {
            Json::Number(n) => supported(j) <==> !(n.as_i64 is None && n.as_f64_bits is None),
            Json::Array(a) => supported(j) <==> !(exists|i: int|
                0 <= i < a@.len() && !supported(#[trigger] a@[i])),
            Json::Object(o) => supported(j) <==> !(exists|i: int|
                0 <= i < o@.len() && !supported((#[trigger] o@[i]).1)),
            Json::Null | Json::Bool(_) | Json::Text(_) => supported(j),
        },
{
}

/// In an object whose properties were set one after the other, the last value
/// that was set under a name is found under it, and nothing under a name that
/// was never set.
pub proof fn law_the_last_value_set_is_found(
    fields: Seq<(Seq<char>, JsView)>,
    name: Seq<char>,
    i: int,
)
    ensures
        0 <= i < fields.len() && fields[i].0 == name && (forall|k: int|
            i < k < fields.len() ==> (#[trigger] fields[k]).0 != name) ==> property(fields, name)
            == Some(fields[i].1),
        (forall|k: int| 0 <= k < fields.len() ==> (#[trigger] fields[k]).0 != name) ==> property(
            fields,
            name,
        ) is None,
    decreases fields.len(),
{
    if fields.len() > 0 {
        let rest = fields.drop_last();
        assert(forall|k: int| 0 <= k < rest.len() ==> #[trigger] rest[k] == fields[k]);
        law_the_last_value_set_is_found(rest, name, i);
        assert(fields[fields.len() - 1] == fields.last());
    }
}

} // verus!
