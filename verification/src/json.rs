//! A model of JSON documents. The pipeline reads and rewrites upstream
//! bodies through this type; the process boundary converts it to and from
//! the wire encoding. Integer numbers are carried exactly; any other
//! number is carried as its decimal text. Object member order is the
//! insertion order, and lookup finds the first member with the given key.
//!
//! Contracts speak of [`JsonV`], the mathematical shape of a document,
//! reached through `deep_view`.

use vstd::prelude::*;

verus! {

pub enum Json {
    Null,
    Bool(bool),
    Int(i64),
    UInt(u64),
    NumText(String),
    Text(String),
    Arr(Vec<Json>),
    Obj(Vec<(String, Json)>),
}

/// The mathematical shape of a document: strings are character
/// sequences, integer numbers are unbounded integers, other numbers are
/// their decimal text.
pub enum JsonV {
    Null,
    Bool(bool),
    Int(int),
    NumText(Seq<char>),
    Str(Seq<char>),
    Arr(Seq<JsonV>),
    Obj(Seq<(Seq<char>, JsonV)>),
}

/// The shapes of the elements of an array.
pub open spec fn arr_view(items: Seq<Json>) -> Seq<JsonV>
    decreases items,
{
    if items.len() == 0 {
        Seq::empty()
    } else {
        seq![items[0].deep_view()] + arr_view(items.subrange(1, items.len() as int))
    }
}

/// The shapes of the members of an object.
pub open spec fn obj_view(pairs: Seq<(String, Json)>) -> Seq<(Seq<char>, JsonV)>
    decreases pairs,
{
    if pairs.len() == 0 {
        Seq::empty()
    } else {
        seq![(pairs[0].0@, pairs[0].1.deep_view())]
            + obj_view(pairs.subrange(1, pairs.len() as int))
    }
}

impl DeepView for Json {
    type V = JsonV;

    open spec fn deep_view(&self) -> JsonV
        decreases self,
    {
        match self {
            Json::Null => JsonV::Null,
            Json::Bool(b) => JsonV::Bool(*b),
            Json::Int(i) => JsonV::Int(*i as int),
            Json::UInt(u) => JsonV::Int(*u as int),
            Json::NumText(s) => JsonV::NumText(s@),
            Json::Text(s) => JsonV::Str(s@),
            Json::Arr(items) => JsonV::Arr(arr_view(items@)),
            Json::Obj(pairs) => JsonV::Obj(obj_view(pairs@)),
        }
    }
}

pub broadcast proof fn lemma_arr_view(items: Seq<Json>)
    ensures
        (#[trigger] arr_view(items)).len() == items.len(),
        forall|i: int| 0 <= i < items.len()
            ==> arr_view(items)[i] == items[i].deep_view(),
    decreases items.len(),
{
    if items.len() > 0 {
        let rest = items.subrange(1, items.len() as int);
        lemma_arr_view(rest);
        assert(arr_view(items) == seq![items[0].deep_view()] + arr_view(rest));
        assert(arr_view(items).len() == items.len());
        assert forall|i: int| 0 <= i < items.len()
            implies arr_view(items)[i] == items[i].deep_view() by {
            if i > 0 {
                assert(rest[i - 1] == items[i]);
                assert(arr_view(items)[i] == arr_view(rest)[i - 1]);
            }
        }
    }
}

pub broadcast proof fn lemma_obj_view(pairs: Seq<(String, Json)>)
    ensures
        (#[trigger] obj_view(pairs)).len() == pairs.len(),
        forall|i: int| 0 <= i < pairs.len()
            ==> obj_view(pairs)[i] == (pairs[i].0@, pairs[i].1.deep_view()),
    decreases pairs.len(),
{
    if pairs.len() > 0 {
        let rest = pairs.subrange(1, pairs.len() as int);
        lemma_obj_view(rest);
        assert(obj_view(pairs) == seq![(pairs[0].0@, pairs[0].1.deep_view())] + obj_view(rest));
        assert(obj_view(pairs).len() == pairs.len());
        assert forall|i: int| 0 <= i < pairs.len()
            implies obj_view(pairs)[i] == (pairs[i].0@, pairs[i].1.deep_view()) by {
            if i > 0 {
                assert(rest[i - 1] == pairs[i]);
                assert(obj_view(pairs)[i] == obj_view(rest)[i - 1]);
            }
        }
    }
}

/// The value of the first member named `key`, if any.
pub open spec fn obj_get_v(pairs: Seq<(Seq<char>, JsonV)>, key: Seq<char>) -> Option<JsonV>
    decreases pairs.len(),
{
    if pairs.len() == 0 {
        None
    } else if pairs[0].0 == key {
        Some(pairs[0].1)
    } else {
        obj_get_v(pairs.subrange(1, pairs.len() as int), key)
    }
}

/// `pairs` with the first member named `key` replaced by `val`, or with
/// `(key, val)` appended when no member has that name.
pub open spec fn obj_set_v(pairs: Seq<(Seq<char>, JsonV)>, key: Seq<char>, val: JsonV)
    -> Seq<(Seq<char>, JsonV)>
    decreases pairs.len(),
{
    if pairs.len() == 0 {
        seq![(key, val)]
    } else if pairs[0].0 == key {
        seq![(key, val)] + pairs.subrange(1, pairs.len() as int)
    } else {
        seq![pairs[0]] + obj_set_v(pairs.subrange(1, pairs.len() as int), key, val)
    }
}

/// Member lookup on a value: `None` unless the value is an object with
/// a member of that name.
pub open spec fn jget(v: JsonV, key: Seq<char>) -> Option<JsonV> {
    match v {
        JsonV::Obj(pairs) => obj_get_v(pairs, key),
        _ => None,
    }
}

/// `v` with member `key` set to `val`; only meaningful on objects.
pub open spec fn jset(v: JsonV, key: Seq<char>, val: JsonV) -> JsonV {
    match v {
        JsonV::Obj(pairs) => JsonV::Obj(obj_set_v(pairs, key, val)),
        _ => v,
    }
}

/// The string content of a value, when it is a string.
pub open spec fn jstr(v: JsonV) -> Option<Seq<char>> {
    match v {
        JsonV::Str(s) => Some(s),
        _ => None,
    }
}

/// The value as an unsigned integer, when it is a non-negative integer
/// number that fits in 64 bits.
pub open spec fn ju64(v: JsonV) -> Option<u64> {
    match v {
        JsonV::Int(i) => if 0 <= i <= u64::MAX { Some(i as u64) } else { None },
        _ => None,
    }
}

pub broadcast proof fn lemma_jset_get(v: JsonV, key: Seq<char>, val: JsonV)
    requires
        v is Obj,
    ensures
        #[trigger] jget(jset(v, key, val), key) == Some(val),
{
    let pairs = v->Obj_0;
    lemma_obj_set_get(pairs, key, val);
}

proof fn lemma_obj_set_get(pairs: Seq<(Seq<char>, JsonV)>, key: Seq<char>, val: JsonV)
    ensures
        obj_get_v(obj_set_v(pairs, key, val), key) == Some(val),
    decreases pairs.len(),
{
    if pairs.len() == 0 {
    } else if pairs[0].0 == key {
    } else {
        lemma_obj_set_get(pairs.subrange(1, pairs.len() as int), key, val);
        let out = obj_set_v(pairs, key, val);
        assert(out[0] == pairs[0]);
        assert(out.subrange(1, out.len() as int)
            =~= obj_set_v(pairs.subrange(1, pairs.len() as int), key, val));
    }
}

impl Json {
    /// Reference to the first member named `key`, when this is an object
    /// that has one.
    pub fn get<'a>(&'a self, key: &str) -> (r: Option<&'a Json>)
        ensures
            match r {
                Some(j) => jget(self.deep_view(), key@) == Some(j.deep_view()),
                None => jget(self.deep_view(), key@) is None,
            },
    {
        broadcast use lemma_obj_view;

        match self {
            Json::Obj(pairs) => {
                let ghost pv = obj_view(pairs@);
                let n: usize = pairs.len();
                let mut i: usize = 0;
                proof {
                    lemma_obj_view(pairs@);
                    assert(pv.subrange(0, n as int) =~= pv);
                }
                while i < n
                    invariant
                        n == pairs@.len(),
                        pv == obj_view(pairs@),
                        self.deep_view() == JsonV::Obj(pv),
                        i <= n,
                        obj_get_v(pv, key@) == obj_get_v(pv.subrange(i as int, n as int), key@),
                    decreases n - i,
                {
                    proof {
                        lemma_obj_view(pairs@);
                        assert(obj_view(pairs@)[i as int]
                            == (pairs@[i as int].0@, pairs@[i as int].1.deep_view()));
                        let rest = pv.subrange(i as int, n as int);
                        assert(rest[0] == pv[i as int]);
                        assert(rest.subrange(1, rest.len() as int)
                            =~= pv.subrange(i + 1, n as int));
                    }
                    if crate::strutil::eq_str(pairs[i].0.as_str(), key) {
                        proof {
                            let rest = pv.subrange(i as int, n as int);
                            assert(rest[0].0 == key@);
                            assert(obj_get_v(rest, key@) == Some(pv[i as int].1));
                            assert(self.deep_view() == JsonV::Obj(pv));
                        }
                        return Some(&pairs[i].1);
                    }
                    i = i + 1;
                }
                proof {
                    assert(pv.subrange(n as int, n as int).len() == 0);
                    assert(self.deep_view() == JsonV::Obj(pv));
                }
                None
            },
            _ => None,
        }
    }

    /// The string content, when this is a string.
    pub fn as_str<'a>(&'a self) -> (r: Option<&'a String>)
        ensures
            match r {
                Some(s) => jstr(self.deep_view()) == Some(s@),
                None => jstr(self.deep_view()) is None,
            },
    {
        match self {
            Json::Text(s) => Some(s),
            _ => None,
        }
    }

    /// The value as `u64`, when it is a non-negative integer number.
    pub fn as_u64(&self) -> (r: Option<u64>)
        ensures
            r == ju64(self.deep_view()),
    {
        match self {
            Json::UInt(u) => Some(*u),
            Json::Int(i) => {
                if *i >= 0 {
                    Some(*i as u64)
                } else {
                    None
                }
            },
            _ => None,
        }
    }

    /// The elements, when this is an array.
    pub fn as_arr<'a>(&'a self) -> (r: Option<&'a Vec<Json>>)
        ensures
            match r {
                Some(items) => self.deep_view() == JsonV::Arr(items.deep_view()),
                None => !(self.deep_view() is Arr),
            },
    {
        proof {
            if self is Arr {
                lemma_arr_view(self->Arr_0@);
                assert(arr_view(self->Arr_0@) =~= self->Arr_0.deep_view());
            }
        }
        match self {
            Json::Arr(items) => Some(items),
            _ => None,
        }
    }

    /// An exact copy of the value.
    pub fn duplicate(&self) -> (r: Json)
        ensures
            r.deep_view() == self.deep_view(),
        decreases *self,
    {
        broadcast use lemma_arr_view, lemma_obj_view;

        match self {
            Json::Null => Json::Null,
            Json::Bool(b) => Json::Bool(*b),
            Json::Int(i) => Json::Int(*i),
            Json::UInt(u) => Json::UInt(*u),
            Json::NumText(s) => Json::NumText(s.clone()),
            Json::Text(s) => Json::Text(s.clone()),
            Json::Arr(items) => {
                let n: usize = items.len();
                let mut out: Vec<Json> = Vec::new();
                let mut i: usize = 0;
                while i < n
                    invariant
                        n == items@.len(),
                        i <= n,
                        out@.len() == i,
                        forall|k: int| 0 <= k < i
                            ==> #[trigger] out@[k].deep_view() == items@[k].deep_view(),
                        *self == Json::Arr(*items),
                    decreases n - i,
                {
                    proof {
                        assert(decreases_to!(*self => self->Arr_0));
                        assert(decreases_to!(*items => items@));
                        assert(decreases_to!(items@ => items@[i as int]));
                    }
                    let elem: Json = (&items[i]).duplicate();
                    out.push(elem);
                    i = i + 1;
                }
                let r = Json::Arr(out);
                proof {
                    assert(arr_view(r->Arr_0@) =~= arr_view(items@));
                }
                r
            },
            Json::Obj(pairs) => {
                let n: usize = pairs.len();
                let mut out: Vec<(String, Json)> = Vec::new();
                let mut i: usize = 0;
                while i < n
                    invariant
                        n == pairs@.len(),
                        i <= n,
                        out@.len() == i,
                        forall|k: int| 0 <= k < i
                            ==> #[trigger] out@[k].0@ == pairs@[k].0@
                                && out@[k].1.deep_view() == pairs@[k].1.deep_view(),
                        *self == Json::Obj(*pairs),
                    decreases n - i,
                {
                    proof {
                        assert(decreases_to!(*self => self->Obj_0));
                        assert(decreases_to!(*pairs => pairs@));
                        assert(decreases_to!(pairs@ => pairs@[i as int]));
                        assert(decreases_to!(pairs@[i as int] => pairs@[i as int].1));
                    }
                    let key: String = pairs[i].0.clone();
                    let val: Json = (&pairs[i].1).duplicate();
                    out.push((key, val));
                    i = i + 1;
                }
                let r = Json::Obj(out);
                proof {
                    assert(obj_view(r->Obj_0@) =~= obj_view(pairs@));
                }
                r
            },
        }
    }

    /// This object with the first member named `key` replaced by `val`,
    /// or with the member appended when absent.
    pub fn set(self, key: &str, val: Json) -> (r: Json)
        requires
            self is Obj,
        ensures
            r.deep_view() == jset(self.deep_view(), key@, val.deep_view()),
            r is Obj,
    {
        broadcast use lemma_obj_view;

        let ghost valv = val.deep_view();
        match self {
            Json::Obj(pairs) => {
                let ghost pv = obj_view(pairs@);
                let mut pairs: Vec<(String, Json)> = pairs;
                let n: usize = pairs.len();
                let mut i: usize = 0;
                while i < n
                    invariant
                        n == pairs@.len(),
                        pv == obj_view(pairs@),
                        self.deep_view() == JsonV::Obj(pv),
                        i <= n,
                        forall|k: int| 0 <= k < i ==> #[trigger] pv[k].0 != key@,
                        valv == val.deep_view(),
                    decreases n - i,
                {
                    proof {
                        lemma_obj_view(pairs@);
                        assert(obj_view(pairs@)[i as int]
                            == (pairs@[i as int].0@, pairs@[i as int].1.deep_view()));
                    }
                    if crate::strutil::eq_str(pairs[i].0.as_str(), key) {
                        let keyed: String = key.to_owned();
                        let ghost before = pairs@;
                        pairs[i] = (keyed, val);
                        let r = Json::Obj(pairs);
                        proof {
                            lemma_obj_set_at(pv, key@, valv, i as int);
                            lemma_obj_view_update(before, i as int, (key@, valv),
                                r->Obj_0@);
                            assert(obj_view(r->Obj_0@) =~= pv.update(i as int, (key@, valv)));
                            assert(self.deep_view() == JsonV::Obj(pv));
                            assert(r.deep_view() == JsonV::Obj(obj_view(r->Obj_0@)));
                            assert(jset(self.deep_view(), key@, valv)
                                == JsonV::Obj(obj_set_v(pv, key@, valv)));
                        }
                        return r;
                    }
                    i = i + 1;
                }
                let keyed: String = key.to_owned();
                let ghost before = pairs@;
                pairs.push((keyed, val));
                let r = Json::Obj(pairs);
                proof {
                    lemma_obj_set_end(pv, key@, valv);
                    lemma_obj_view(before);
                    lemma_obj_view(r->Obj_0@);
                    assert(obj_view(r->Obj_0@) =~= pv + seq![(key@, valv)]);
                    assert(self.deep_view() == JsonV::Obj(pv));
                    assert(r.deep_view() == JsonV::Obj(obj_view(r->Obj_0@)));
                    assert(jset(self.deep_view(), key@, valv)
                        == JsonV::Obj(obj_set_v(pv, key@, valv)));
                }
                r
            },
            _ => vstd::pervasive::unreached(),
        }
    }
}

proof fn lemma_obj_view_update(before: Seq<(String, Json)>, i: int, entry: (Seq<char>, JsonV),
    after: Seq<(String, Json)>)
    requires
        0 <= i < before.len(),
        after.len() == before.len(),
        forall|k: int| 0 <= k < before.len() && k != i ==> after[k] == before[k],
        after[i].0@ == entry.0,
        after[i].1.deep_view() == entry.1,
    ensures
        obj_view(after) =~= obj_view(before).update(i, entry),
{
    lemma_obj_view(before);
    lemma_obj_view(after);
}

proof fn lemma_obj_set_at(pairs: Seq<(Seq<char>, JsonV)>, key: Seq<char>, val: JsonV, i: int)
    requires
        0 <= i < pairs.len(),
        pairs[i].0 == key,
        forall|k: int| 0 <= k < i ==> #[trigger] pairs[k].0 != key,
    ensures
        obj_set_v(pairs, key, val) =~= pairs.update(i, (key, val)),
    decreases pairs.len(),
{
    if i == 0 {
        assert(obj_set_v(pairs, key, val)
            == seq![(key, val)] + pairs.subrange(1, pairs.len() as int));
    } else {
        let rest = pairs.subrange(1, pairs.len() as int);
        assert(rest[i - 1] == pairs[i]);
        assert(forall|k: int| 0 <= k < i - 1 ==> #[trigger] rest[k].0 != key);
        lemma_obj_set_at(rest, key, val, i - 1);
        assert(obj_set_v(pairs, key, val) == seq![pairs[0]] + obj_set_v(rest, key, val));
    }
}

proof fn lemma_obj_set_end(pairs: Seq<(Seq<char>, JsonV)>, key: Seq<char>, val: JsonV)
    requires
        forall|k: int| 0 <= k < pairs.len() ==> #[trigger] pairs[k].0 != key,
    ensures
        obj_set_v(pairs, key, val) =~= pairs + seq![(key, val)],
    decreases pairs.len(),
{
    if pairs.len() > 0 {
        let rest = pairs.subrange(1, pairs.len() as int);
        assert(forall|k: int| 0 <= k < rest.len() ==> #[trigger] rest[k].0 != key);
        lemma_obj_set_end(rest, key, val);
    }
}

/// `pairs` without its first member named `key`.
pub open spec fn obj_remove_v(pairs: Seq<(Seq<char>, JsonV)>, key: Seq<char>)
    -> Seq<(Seq<char>, JsonV)>
    decreases pairs.len(),
{
    if pairs.len() == 0 {
        pairs
    } else if pairs[0].0 == key {
        pairs.subrange(1, pairs.len() as int)
    } else {
        seq![pairs[0]] + obj_remove_v(pairs.subrange(1, pairs.len() as int), key)
    }
}

/// `v` without its first member named `key`; only meaningful on objects.
pub open spec fn jremove(v: JsonV, key: Seq<char>) -> JsonV {
    match v {
        JsonV::Obj(pairs) => JsonV::Obj(obj_remove_v(pairs, key)),
        _ => v,
    }
}

/// `v` with element `i` replaced; only meaningful on arrays.
pub open spec fn jset_at(v: JsonV, i: int, val: JsonV) -> JsonV {
    match v {
        JsonV::Arr(items) => JsonV::Arr(items.update(i, val)),
        _ => v,
    }
}

impl Json {
    /// This object without its first member named `key`.
    pub fn remove(self, key: &str) -> (r: Json)
        requires
            self is Obj,
        ensures
            r.deep_view() == jremove(self.deep_view(), key@),
            r is Obj,
    {
        broadcast use lemma_obj_view;

        let ghost pv = obj_view(self->Obj_0@);
        match self {
            Json::Obj(pairs) => {
                let mut pairs: Vec<(String, Json)> = pairs;
                let n: usize = pairs.len();
                let mut i: usize = 0;
                while i < n
                    invariant
                        n == pairs@.len(),
                        pv == obj_view(pairs@),
                        self.deep_view() == JsonV::Obj(pv),
                        i <= n,
                        forall|k: int| 0 <= k < i ==> #[trigger] pv[k].0 != key@,
                    decreases n - i,
                {
                    proof {
                        lemma_obj_view(pairs@);
                        assert(obj_view(pairs@)[i as int]
                            == (pairs@[i as int].0@, pairs@[i as int].1.deep_view()));
                    }
                    if crate::strutil::eq_str(pairs[i].0.as_str(), key) {
                        let ghost before = pairs@;
                        pairs.remove(i);
                        let r = Json::Obj(pairs);
                        proof {
                            lemma_obj_remove_at(pv, key@, i as int);
                            lemma_obj_view(before);
                            lemma_obj_view(r->Obj_0@);
                            assert(r->Obj_0@
                                =~= before.subrange(0, i as int)
                                    + before.subrange(i + 1, n as int));
                            assert(obj_view(r->Obj_0@)
                                =~= pv.subrange(0, i as int) + pv.subrange(i + 1, n as int));
                        }
                        return r;
                    }
                    i = i + 1;
                }
                proof {
                    lemma_obj_remove_absent(pv, key@);
                }
                Json::Obj(pairs)
            },
            _ => vstd::pervasive::unreached(),
        }
    }

    /// This array with element `i` replaced.
    pub fn set_at(self, i: usize, val: Json) -> (r: Json)
        requires
            self is Arr,
            i < self->Arr_0@.len(),
        ensures
            r.deep_view() == jset_at(self.deep_view(), i as int, val.deep_view()),
            r is Arr,
    {
        broadcast use lemma_arr_view;

        let ghost av = arr_view(self->Arr_0@);
        match self {
            Json::Arr(items) => {
                let mut items: Vec<Json> = items;
                let ghost before = items@;
                items[i] = val;
                let r = Json::Arr(items);
                proof {
                    lemma_arr_view(before);
                    lemma_arr_view(r->Arr_0@);
                    assert(arr_view(r->Arr_0@) =~= av.update(i as int, val.deep_view()));
                }
                r
            },
            _ => vstd::pervasive::unreached(),
        }
    }
}

proof fn lemma_obj_remove_at(pairs: Seq<(Seq<char>, JsonV)>, key: Seq<char>, i: int)
    requires
        0 <= i < pairs.len(),
        pairs[i].0 == key,
        forall|k: int| 0 <= k < i ==> #[trigger] pairs[k].0 != key,
    ensures
        obj_remove_v(pairs, key)
            =~= pairs.subrange(0, i) + pairs.subrange(i + 1, pairs.len() as int),
    decreases pairs.len(),
{
    if i == 0 {
        assert(pairs.subrange(0, 0) + pairs.subrange(1, pairs.len() as int)
            =~= pairs.subrange(1, pairs.len() as int));
    } else {
        let rest = pairs.subrange(1, pairs.len() as int);
        assert(rest[i - 1] == pairs[i]);
        assert(forall|k: int| 0 <= k < i - 1 ==> #[trigger] rest[k].0 != key);
        lemma_obj_remove_at(rest, key, i - 1);
        assert(rest.subrange(0, i - 1) =~= pairs.subrange(1, i));
        assert(rest.subrange(i, rest.len() as int)
            =~= pairs.subrange(i + 1, pairs.len() as int));
    }
}

proof fn lemma_obj_remove_absent(pairs: Seq<(Seq<char>, JsonV)>, key: Seq<char>)
    requires
        forall|k: int| 0 <= k < pairs.len() ==> #[trigger] pairs[k].0 != key,
    ensures
        obj_remove_v(pairs, key) =~= pairs,
    decreases pairs.len(),
{
    if pairs.len() > 0 {
        let rest = pairs.subrange(1, pairs.len() as int);
        assert(forall|k: int| 0 <= k < rest.len() ==> #[trigger] rest[k].0 != key);
        lemma_obj_remove_absent(rest, key);
    }
}

/// Builds a string value.
pub fn jtext(s: &str) -> (r: Json)
    ensures
        r.deep_view() == JsonV::Str(s@),
{
    let owned: String = s.to_owned();
    Json::Text(owned)
}

/// An empty object, the seed for the request-body builders.
pub fn jobj_new() -> (r: Json)
    ensures
        r.deep_view() == JsonV::Obj(Seq::empty()),
        r is Obj,
{
    let r = Json::Obj(Vec::new());
    proof {
        assert(obj_view(r->Obj_0@) =~= Seq::<(Seq<char>, JsonV)>::empty());
    }
    r
}

} // verus!

verus! {
proof fn debug_unfold(items: Seq<Json>)
    requires items.len() == 0,
{
    assert(arr_view(items).len() == 0);
}
proof fn debug_unfold2(items: Seq<Json>)
    requires items.len() == 2,
{
    assert(arr_view(items) == seq![items[0].deep_view()] + arr_view(items.subrange(1, 2)));
}
} // verus!


verus! {

/// Looking a key up after appending one member: the old members win;
/// the new member answers only for a key not yet present.
pub broadcast proof fn lemma_obj_get_push(pairs: Seq<(Seq<char>, JsonV)>, p: (Seq<char>, JsonV),
    key: Seq<char>)
    ensures
        #[trigger] obj_get_v(pairs.push(p), key) == (match obj_get_v(pairs, key) {
            Some(v) => Some(v),
            None => if p.0 == key {
                Some(p.1)
            } else {
                None
            },
        }),
    decreases pairs.len(),
{
    let ext = pairs.push(p);
    if pairs.len() == 0 {
        assert(ext[0] == p);
        assert(ext.subrange(1, ext.len() as int).len() == 0);
    } else {
        assert(ext[0] == pairs[0]);
        assert(ext.subrange(1, ext.len() as int)
            =~= pairs.subrange(1, pairs.len() as int).push(p));
        lemma_obj_get_push(pairs.subrange(1, pairs.len() as int), p, key);
    }
}

} // verus!
