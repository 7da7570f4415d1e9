//! The JSON value model.
//!
//! `JsonValue` is the executable representation of a JSON document; its
//! mathematical counterpart is `JsonView`, built from sequences. Integers
//! are split into an unsigned and a (strictly negative) signed variant so
//! that every value has exactly one representation on the wire.

use vstd::prelude::*;

verus! {

/// Mathematical model of a JSON value.
#[verifier::ext_equal]
pub enum JsonView {
    Null,
    Bool(bool),
    UInt(u64),
    Int(i64),
    Text(Seq<char>),
    Arr(Seq<JsonView>),
    Obj(Seq<(Seq<char>, JsonView)>),
}

/// Executable JSON value. Its view is a `JsonView`.
#[derive(Debug, PartialEq)]
pub enum JsonValue {
    Null,
    Bool(bool),
    UInt(u64),
    Int(i64),
    Text(String),
    Arr(Vec<JsonValue>),
    Obj(Vec<(String, JsonValue)>),
}

/// The view of an executable JSON value.
pub open spec fn json_view(v: JsonValue) -> JsonView
    decreases v, 1int,
{
    match v {
        JsonValue::Null => JsonView::Null,
        JsonValue::Bool(b) => JsonView::Bool(b),
        JsonValue::UInt(n) => JsonView::UInt(n),
        JsonValue::Int(n) => JsonView::Int(n),
        JsonValue::Text(s) => JsonView::Text(s@),
        JsonValue::Arr(items) => JsonView::Arr(json_view_seq(items@)),
        JsonValue::Obj(pairs) => JsonView::Obj(json_view_pairs(pairs@)),
    }
}

/// The views of a sequence of executable JSON values.
pub open spec fn json_view_seq(items: Seq<JsonValue>) -> Seq<JsonView>
    decreases items, 0int,
{
    if items.len() == 0 {
        Seq::empty()
    } else {
        seq![json_view(items[0])] + json_view_seq(items.drop_first())
    }
}

/// The views of a sequence of key/value pairs.
pub open spec fn json_view_pairs(pairs: Seq<(String, JsonValue)>) -> Seq<(Seq<char>, JsonView)>
    decreases pairs, 0int,
{
    if pairs.len() == 0 {
        Seq::empty()
    } else {
        seq![(pairs[0].0@, json_view(pairs[0].1))] + json_view_pairs(pairs.drop_first())
    }
}

impl DeepView for JsonValue {
    type V = JsonView;

    open spec fn deep_view(&self) -> JsonView {
        json_view(*self)
    }
}

/// A value is well formed when every signed integer in it is strictly
/// negative: non-negative numbers are carried by the unsigned variant, so
/// a well-formed value has exactly one wire form.
pub open spec fn json_wf(v: JsonView) -> bool
    decreases v,
{
    match v {
        JsonView::Int(n) => n < 0,
        JsonView::Arr(items) => forall|i: int|
            0 <= i < items.len() ==> json_wf(#[trigger] items[i]),
        JsonView::Obj(pairs) => forall|i: int|
            0 <= i < pairs.len() ==> json_wf(#[trigger] pairs[i].1),
        _ => true,
    }
}

/// `json_view_seq` maps `json_view` over the sequence.
pub proof fn lemma_json_view_seq(items: Seq<JsonValue>)
    ensures
        json_view_seq(items).len() == items.len(),
        forall|i: int| 0 <= i < items.len() ==> json_view_seq(items)[i] == json_view(#[trigger] items[i]),
    decreases items.len(),
{
    if items.len() > 0 {
        lemma_json_view_seq(items.drop_first());
        assert forall|i: int| 0 <= i < items.len() implies json_view_seq(items)[i]
            == json_view(#[trigger] items[i]) by {
            if i > 0 {
                assert(items.drop_first()[i - 1] == items[i]);
                assert(json_view_seq(items)[i] == json_view_seq(items.drop_first())[i - 1]);
            }
        }
    }
}

/// `json_view_pairs` maps key views and `json_view` over the pairs.
pub proof fn lemma_json_view_pairs(pairs: Seq<(String, JsonValue)>)
    ensures
        json_view_pairs(pairs).len() == pairs.len(),
        forall|i: int| 0 <= i < pairs.len() ==> json_view_pairs(pairs)[i]
            == ((#[trigger] pairs[i]).0@, json_view(pairs[i].1)),
    decreases pairs.len(),
{
    if pairs.len() > 0 {
        lemma_json_view_pairs(pairs.drop_first());
        assert forall|i: int| 0 <= i < pairs.len() implies json_view_pairs(pairs)[i]
            == ((#[trigger] pairs[i]).0@, json_view(pairs[i].1)) by {
            if i > 0 {
                assert(pairs.drop_first()[i - 1] == pairs[i]);
                assert(json_view_pairs(pairs)[i] == json_view_pairs(pairs.drop_first())[i - 1]);
            }
        }
    }
}


/// The unique well-formed JSON number for a signed integer.
pub open spec fn json_of_i64(n: i64) -> JsonView {
    if n < 0 {
        JsonView::Int(n)
    } else {
        JsonView::UInt(n as u64)
    }
}

/// The value under the first occurrence of `key` among object members.
pub open spec fn obj_lookup(pairs: Seq<(Seq<char>, JsonView)>, key: Seq<char>) -> Option<JsonView>
    decreases pairs.len(),
{
    if pairs.len() == 0 {
        None
    } else if pairs[0].0 == key {
        Some(pairs[0].1)
    } else {
        obj_lookup(pairs.drop_first(), key)
    }
}

/// Finds the first member named `key`.
pub fn lookup_key<'a>(pairs: &'a Vec<(String, JsonValue)>, key: &str) -> (r: Option<
    &'a JsonValue,
>)
    ensures
        match r {
            Some(v) => obj_lookup(json_view_pairs(pairs@), key@) == Some(v.deep_view()),
            None => obj_lookup(json_view_pairs(pairs@), key@) is None,
        },
{
    let n = pairs.len();
    proof {
        assert(pairs@.subrange(0, n as int) =~= pairs@);
    }
    let mut i: usize = 0;
    while i < n
        invariant
            n == pairs@.len(),
            i <= n,
            obj_lookup(json_view_pairs(pairs@), key@) == obj_lookup(
                json_view_pairs(pairs@.subrange(i as int, n as int)),
                key@,
            ),
        decreases n - i,
    {
        proof {
            let rest = pairs@.subrange(i as int, n as int);
            let rest1 = pairs@.subrange(i as int + 1, n as int);
            lemma_json_view_pairs(rest);
            lemma_json_view_pairs(rest1);
            assert(rest[0] == pairs@[i as int]);
            assert(json_view_pairs(rest)[0] == (pairs@[i as int].0@, json_view(
                pairs@[i as int].1,
            )));
            assert forall|k: int| 0 <= k < json_view_pairs(rest1).len() implies json_view_pairs(
                rest,
            ).drop_first()[k] == json_view_pairs(rest1)[k] by {
                assert(rest[k + 1] == rest1[k]);
                assert(json_view_pairs(rest)[k + 1] == (rest[k + 1].0@, json_view(
                    rest[k + 1].1,
                )));
            }
            assert(json_view_pairs(rest).drop_first() =~= json_view_pairs(rest1));
        }
        if crate::text::str_eq_str(pairs[i].0.as_str(), key) {
            return Some(&pairs[i].1);
        }
        i = i + 1;
    }
    proof {
        assert(pairs@.subrange(n as int, n as int) =~= Seq::<(String, JsonValue)>::empty());
        assert(json_view_pairs(pairs@.subrange(n as int, n as int))
            =~= Seq::<(Seq<char>, JsonView)>::empty());
    }
    None
}

/// A structural copy of a JSON value.
pub fn clone_json(v: &JsonValue) -> (r: JsonValue)
    ensures
        r.deep_view() == v.deep_view(),
    decreases v, 1int,
{
    match v {
        JsonValue::Null => JsonValue::Null,
        JsonValue::Bool(b) => JsonValue::Bool(*b),
        JsonValue::UInt(n) => JsonValue::UInt(*n),
        JsonValue::Int(n) => JsonValue::Int(*n),
        JsonValue::Text(s) => JsonValue::Text(s.clone()),
        JsonValue::Arr(items) => JsonValue::Arr(clone_json_items(items)),
        JsonValue::Obj(pairs) => JsonValue::Obj(clone_json_pairs(pairs)),
    }
}

/// A structural copy of a sequence of JSON values.
pub fn clone_json_items(items: &Vec<JsonValue>) -> (r: Vec<JsonValue>)
    ensures
        json_view_seq(r@) == json_view_seq(items@),
        r@.len() == items@.len(),
    decreases items, 0int,
{
    let n = items.len();
    let mut out: Vec<JsonValue> = Vec::new();
    let mut i: usize = 0;
    while i < n
        invariant
            n == items@.len(),
            i <= n,
            out@.len() == i,
            forall|k: int| 0 <= k < i ==> (#[trigger] out@[k]).deep_view()
                == items@[k].deep_view(),
        decreases n - i,
    {
        out.push(clone_json(&items[i]));
        i = i + 1;
    }
    proof {
        lemma_json_view_seq(out@);
        lemma_json_view_seq(items@);
        assert forall|k: int| 0 <= k < n implies json_view_seq(out@)[k]
            == json_view_seq(items@)[k] by {
            assert(json_view_seq(out@)[k] == json_view(out@[k]));
            assert(json_view_seq(items@)[k] == json_view(items@[k]));
        }
        assert(json_view_seq(out@) =~= json_view_seq(items@));
    }
    out
}

/// A structural copy of a sequence of object members.
pub fn clone_json_pairs(pairs: &Vec<(String, JsonValue)>) -> (r: Vec<(String, JsonValue)>)
    ensures
        json_view_pairs(r@) == json_view_pairs(pairs@),
        r@.len() == pairs@.len(),
    decreases pairs, 0int,
{
    let n = pairs.len();
    let mut out: Vec<(String, JsonValue)> = Vec::new();
    let mut i: usize = 0;
    while i < n
        invariant
            n == pairs@.len(),
            i <= n,
            out@.len() == i,
            forall|k: int| 0 <= k < i ==> (#[trigger] out@[k]).0@ == pairs@[k].0@
                && out@[k].1.deep_view() == pairs@[k].1.deep_view(),
        decreases n - i,
    {
        let key = pairs[i].0.clone();
        let val = clone_json(&pairs[i].1);
        out.push((key, val));
        i = i + 1;
    }
    proof {
        lemma_json_view_pairs(out@);
        lemma_json_view_pairs(pairs@);
        assert forall|k: int| 0 <= k < n implies json_view_pairs(out@)[k]
            == json_view_pairs(pairs@)[k] by {
            assert(json_view_pairs(out@)[k] == (out@[k].0@, json_view(out@[k].1)));
            assert(json_view_pairs(pairs@)[k] == (pairs@[k].0@, json_view(pairs@[k].1)));
        }
        assert(json_view_pairs(out@) =~= json_view_pairs(pairs@));
    }
    out
}

impl JsonValue {
    /// Builds the unique well-formed JSON number for a signed integer.
    pub fn from_i64(n: i64) -> (r: JsonValue)
        ensures
            r.deep_view() == json_of_i64(n),
            json_wf(r.deep_view()),
    {
        if n >= 0 {
            JsonValue::UInt(n as u64)
        } else {
            JsonValue::Int(n)
        }
    }
}

} // verus!
