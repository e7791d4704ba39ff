//! A JSON document model: the values the cache, hook, protocol and secret
//! logic read and build. Object entries keep the order in which they were
//! read or inserted; keys are unique.

use vstd::prelude::*;
use crate::text::{chars_eq, to_chars};

verus! {

/// A JSON number as the JSON reader classifies it: a non-negative integer,
/// a negative integer, or a floating-point number held by its bit pattern
/// (with negative zero stored as positive zero, so equal numbers have equal
/// bits).
#[derive(Clone, Copy, Debug, PartialEq, Eq, Structural)]
pub enum JsonNumber {
    PosInt(u64),
    NegInt(i64),
    Float(u64),
}

/// A JSON value.
#[derive(Debug)]
pub enum Json {
    Null,
    Bool(bool),
    Number(JsonNumber),
    String(String),
    Array(Vec<Json>),
    Object(Vec<(String, Json)>),
}

/// The mathematical value of a JSON document.
pub enum JsonV {
    Null,
    Bool(bool),
    Num(JsonNumber),
    Str(Seq<char>),
    Arr(Seq<JsonV>),
    Obj(Seq<(Seq<char>, JsonV)>),
}

pub open spec fn json_view(j: Json) -> JsonV
    decreases j, 0int,
{
    match j {
        Json::Null => JsonV::Null,
        Json::Bool(b) => JsonV::Bool(b),
        Json::Number(n) => JsonV::Num(n),
        Json::String(s) => JsonV::Str(s@),
        Json::Array(v) => JsonV::Arr(arr_view(v, v@.len() as int)),
        Json::Object(v) => JsonV::Obj(obj_view(v, v@.len() as int)),
    }
}

pub open spec fn arr_view(v: Vec<Json>, n: int) -> Seq<JsonV>
    decreases v, n,
{
    if n <= 0 || n > v@.len() {
        Seq::empty()
    } else {
        proof { vstd::std_specs::vec::axiom_vec_index_decreases(v, n - 1); }
        arr_view(v, n - 1).push(json_view(v@[n - 1]))
    }
}

pub open spec fn obj_view(v: Vec<(String, Json)>, n: int) -> Seq<(Seq<char>, JsonV)>
    decreases v, n,
{
    if n <= 0 || n > v@.len() {
        Seq::empty()
    } else {
        proof { vstd::std_specs::vec::axiom_vec_index_decreases(v, n - 1); }
        obj_view(v, n - 1).push((v@[n - 1].0@, json_view(v@[n - 1].1)))
    }
}

impl View for Json {
    type V = JsonV;

    open spec fn view(&self) -> JsonV {
        json_view(*self)
    }
}

pub proof fn lemma_arr_view(v: Vec<Json>, n: int)
    requires
        0 <= n <= v@.len(),
    ensures
        arr_view(v, n).len() == n,
        forall|i: int| 0 <= i < n ==> #[trigger] arr_view(v, n)[i] == json_view(v@[i]),
    decreases n,
{
    if n > 0 {
        lemma_arr_view(v, n - 1);
    }
}

pub proof fn lemma_obj_view(v: Vec<(String, Json)>, n: int)
    requires
        0 <= n <= v@.len(),
    ensures
        obj_view(v, n).len() == n,
        forall|i: int| 0 <= i < n ==> #[trigger] obj_view(v, n)[i] == (v@[i].0@, json_view(v@[i].1)),
    decreases n,
{
    if n > 0 {
        lemma_obj_view(v, n - 1);
    }
}

/// The value stored under `key` in an object's entries (the first entry
/// with that key).
pub open spec fn entries_get(entries: Seq<(Seq<char>, JsonV)>, key: Seq<char>) -> Option<JsonV>
    decreases entries.len(),
{
    if entries.len() == 0 {
        None
    } else if entries[0].0 == key {
        Some(entries[0].1)
    } else {
        entries_get(entries.drop_first(), key)
    }
}

/// `value.get(key)`: the member `key` of an object, `None` for other values.
pub open spec fn jget(value: JsonV, key: Seq<char>) -> Option<JsonV> {
    match value {
        JsonV::Obj(entries) => entries_get(entries, key),
        _ => None,
    }
}

pub open spec fn jis_null(value: JsonV) -> bool {
    value is Null
}

pub open spec fn jis_string(value: JsonV) -> bool {
    value is Str
}

pub open spec fn jas_str(value: JsonV) -> Option<Seq<char>> {
    match value {
        JsonV::Str(s) => Some(s),
        _ => None,
    }
}

pub open spec fn jas_bool(value: JsonV) -> Option<bool> {
    match value {
        JsonV::Bool(b) => Some(b),
        _ => None,
    }
}

pub open spec fn jas_u64(value: JsonV) -> Option<u64> {
    match value {
        JsonV::Num(JsonNumber::PosInt(n)) => Some(n),
        _ => None,
    }
}

pub open spec fn jas_i64(value: JsonV) -> Option<i64> {
    match value {
        JsonV::Num(JsonNumber::PosInt(n)) => if n <= i64::MAX as u64 { Some(n as i64) } else { None },
        JsonV::Num(JsonNumber::NegInt(n)) => Some(n),
        _ => None,
    }
}

/// `get(key)` present and not null.
pub open spec fn jhas_non_null(value: JsonV, key: Seq<char>) -> bool {
    match jget(value, key) {
        Some(v) => !(v is Null),
        None => false,
    }
}

/// `get(key)` as a string.
pub open spec fn jget_str(value: JsonV, key: Seq<char>) -> Option<Seq<char>> {
    match jget(value, key) {
        Some(v) => jas_str(v),
        None => None,
    }
}

impl Json {
    pub fn is_null(&self) -> (b: bool)
        ensures
            b == jis_null(self@),
    {
        match self {
            Json::Null => true,
            _ => false,
        }
    }

    pub fn is_string(&self) -> (b: bool)
        ensures
            b == jis_string(self@),
    {
        match self {
            Json::String(_) => true,
            _ => false,
        }
    }

    pub fn is_object(&self) -> (b: bool)
        ensures
            b == (self@ is Obj),
    {
        match self {
            Json::Object(_) => true,
            _ => false,
        }
    }

    pub fn as_bool(&self) -> (b: Option<bool>)
        ensures
            b == jas_bool(self@),
    {
        match self {
            Json::Bool(b) => Some(*b),
            _ => None,
        }
    }

    pub fn as_u64(&self) -> (n: Option<u64>)
        ensures
            n == jas_u64(self@),
    {
        match self {
            Json::Number(JsonNumber::PosInt(n)) => Some(*n),
            _ => None,
        }
    }

    pub fn as_i64(&self) -> (n: Option<i64>)
        ensures
            n == jas_i64(self@),
    {
        match self {
            Json::Number(JsonNumber::PosInt(n)) => if *n <= i64::MAX as u64 { Some(*n as i64) } else { None },
            Json::Number(JsonNumber::NegInt(n)) => Some(*n),
            _ => None,
        }
    }

    /// The text of a string value.
    pub fn as_text(&self) -> (s: Option<&String>)
        ensures
            match s {
                Some(t) => jas_str(self@) == Some(t@),
                None => jas_str(self@) is None,
            },
    {
        match self {
            Json::String(s) => Some(s),
            _ => None,
        }
    }

    /// The elements of an array value.
    pub fn as_array(&self) -> (a: Option<&Vec<Json>>)
        ensures
            match a {
                Some(v) => self@ == JsonV::Arr(arr_view(*v, v@.len() as int)) && *self == Json::Array(*v),
                None => !(self@ is Arr),
            },
    {
        match self {
            Json::Array(v) => Some(v),
            _ => None,
        }
    }

    /// The entries of an object value.
    pub fn as_object(&self) -> (o: Option<&Vec<(String, Json)>>)
        ensures
            match o {
                Some(v) => self@ == JsonV::Obj(obj_view(*v, v@.len() as int)) && *self == Json::Object(*v),
                None => !(self@ is Obj),
            },
    {
        match self {
            Json::Object(v) => Some(v),
            _ => None,
        }
    }

    /// The member `key` of an object value.
    pub fn get(&self, key: &str) -> (r: Option<&Json>)
        ensures
            match r {
                Some(v) => jget(self@, key@) == Some(v@),
                None => jget(self@, key@) is None,
            },
    {
        match self {
            Json::Object(entries) => {
                let k = to_chars(key);
                let ghost ev = obj_view(*entries, entries@.len() as int);
                proof { lemma_obj_view(*entries, entries@.len() as int); }
                assert(ev.skip(0) =~= ev);
                assert(self@ == JsonV::Obj(ev));
                let mut i: usize = 0;
                while i < entries.len()
                    invariant
                        k@ == key@,
                        i <= entries@.len(),
                        ev == obj_view(*entries, entries@.len() as int),
                        ev.len() == entries@.len(),
                        self@ == JsonV::Obj(ev),
                        forall|t: int| 0 <= t < ev.len() ==> #[trigger] ev[t] == (entries@[t].0@, json_view(entries@[t].1)),
                        entries_get(ev, key@) == entries_get(ev.skip(i as int), key@),
                    decreases entries.len() - i,
                {
                    let name = to_chars(entries[i].0.as_str());
                    assert(ev.skip(i as int)[0] == ev[i as int]);
                    if chars_eq(name.as_slice(), k.as_slice()) {
                        assert(ev.skip(i as int)[0].0 == key@);
                        return Some(&entries[i].1);
                    }
                    assert(ev.skip(i as int).drop_first() =~= ev.skip(i + 1));
                    i = i + 1;
                }
                None
            },
            _ => None,
        }
    }

    /// The text of member `key`, when it is a string.
    pub fn get_str(&self, key: &str) -> (r: Option<&String>)
        ensures
            match r {
                Some(s) => jget_str(self@, key@) == Some(s@),
                None => jget_str(self@, key@) is None,
            },
    {
        match self.get(key) {
            Some(v) => v.as_text(),
            None => None,
        }
    }

    /// Whether member `key` is present and not null.
    pub fn has_non_null(&self, key: &str) -> (b: bool)
        ensures
            b == jhas_non_null(self@, key@),
    {
        match self.get(key) {
            Some(v) => !v.is_null(),
            None => false,
        }
    }
}

/// A string value.
pub fn jstr(s: &str) -> (j: Json)
    ensures
        j@ == JsonV::Str(s@),
{
    Json::String(s.to_owned())
}

/// A deep copy of a JSON value.
pub fn json_clone(j: &Json) -> (out: Json)
    ensures
        out@ == j@,
    decreases j,
{
    match j {
        Json::Null => Json::Null,
        Json::Bool(b) => Json::Bool(*b),
        Json::Number(n) => Json::Number(*n),
        Json::String(s) => Json::String(s.clone()),
        Json::Array(v) => {
            let mut out: Vec<Json> = Vec::new();
            let mut i: usize = 0;
            proof { lemma_arr_view(*v, v@.len() as int); }
            while i < v.len()
                invariant
                    i <= v@.len(),
                    out@.len() == i,
                    forall|t: int| 0 <= t < i ==> #[trigger] json_view(out@[t]) == json_view(v@[t]),
                    forall|t: int| 0 <= t < v@.len() ==> decreases_to!(*j => v@[t]),
                decreases v.len() - i,
            {
                proof { vstd::std_specs::vec::axiom_vec_index_decreases(*v, i as int); }
                let c = json_clone(&v[i]);
                out.push(c);
                i = i + 1;
            }
            proof {
                lemma_arr_view(out, out@.len() as int);
                assert(arr_view(out, out@.len() as int) =~= arr_view(*v, v@.len() as int));
            }
            Json::Array(out)
        },
        Json::Object(v) => {
            let mut out: Vec<(String, Json)> = Vec::new();
            let mut i: usize = 0;
            proof { lemma_obj_view(*v, v@.len() as int); }
            while i < v.len()
                invariant
                    i <= v@.len(),
                    out@.len() == i,
                    forall|t: int| 0 <= t < i ==> #[trigger] out@[t].0@ == v@[t].0@,
                    forall|t: int| 0 <= t < i ==> #[trigger] json_view(out@[t].1) == json_view(v@[t].1),
                    forall|t: int| 0 <= t < v@.len() ==> decreases_to!(*j => v@[t].1),
                decreases v.len() - i,
            {
                let c = json_clone(&v[i].1);
                out.push((v[i].0.clone(), c));
                i = i + 1;
            }
            proof {
                lemma_obj_view(out, out@.len() as int);
                assert(obj_view(out, out@.len() as int) =~= obj_view(*v, v@.len() as int));
            }
            Json::Object(out)
        },
    }
}


/// Structural equality of two JSON values.
pub fn json_eq(a: &Json, b: &Json) -> (same: bool)
    ensures
        same == (a@ == b@),
    decreases a,
{
    match (a, b) {
        (Json::Null, Json::Null) => true,
        (Json::Bool(x), Json::Bool(y)) => *x == *y,
        (Json::Number(x), Json::Number(y)) => *x == *y,
        (Json::String(x), Json::String(y)) => {
            let xs = to_chars(x.as_str());
            let ys = to_chars(y.as_str());
            chars_eq(xs.as_slice(), ys.as_slice())
        },
        (Json::Array(x), Json::Array(y)) => {
            proof {
                lemma_arr_view(*x, x@.len() as int);
                lemma_arr_view(*y, y@.len() as int);
            }
            if x.len() != y.len() {
                assert(arr_view(*x, x@.len() as int).len() != arr_view(*y, y@.len() as int).len());
                return false;
            }
            let mut i: usize = 0;
            while i < x.len()
                invariant
                    i <= x@.len(),
                    x@.len() == y@.len(),
                    *a == Json::Array(*x),
                    *b == Json::Array(*y),
                    arr_view(*x, x@.len() as int).len() == x@.len(),
                    arr_view(*y, y@.len() as int).len() == y@.len(),
                    forall|t: int| 0 <= t < x@.len() ==> #[trigger] arr_view(*x, x@.len() as int)[t] == json_view(x@[t]),
                    forall|t: int| 0 <= t < y@.len() ==> #[trigger] arr_view(*y, y@.len() as int)[t] == json_view(y@[t]),
                    forall|t: int| 0 <= t < i ==> json_view(#[trigger] x@[t]) == json_view(y@[t]),
                    forall|t: int| 0 <= t < x@.len() ==> decreases_to!(*a => x@[t]),
                decreases x.len() - i,
            {
                proof { vstd::std_specs::vec::axiom_vec_index_decreases(*x, i as int); }
                if !json_eq(&x[i], &y[i]) {
                    assert(arr_view(*x, x@.len() as int)[i as int] != arr_view(*y, y@.len() as int)[i as int]);
                    return false;
                }
                i = i + 1;
            }
            assert(arr_view(*x, x@.len() as int) =~= arr_view(*y, y@.len() as int));
            true
        },
        (Json::Object(x), Json::Object(y)) => {
            proof {
                lemma_obj_view(*x, x@.len() as int);
                lemma_obj_view(*y, y@.len() as int);
            }
            if x.len() != y.len() {
                assert(obj_view(*x, x@.len() as int).len() != obj_view(*y, y@.len() as int).len());
                return false;
            }
            let mut i: usize = 0;
            while i < x.len()
                invariant
                    i <= x@.len(),
                    x@.len() == y@.len(),
                    *a == Json::Object(*x),
                    *b == Json::Object(*y),
                    obj_view(*x, x@.len() as int).len() == x@.len(),
                    obj_view(*y, y@.len() as int).len() == y@.len(),
                    forall|t: int| 0 <= t < x@.len() ==> #[trigger] obj_view(*x, x@.len() as int)[t] == (x@[t].0@, json_view(x@[t].1)),
                    forall|t: int| 0 <= t < y@.len() ==> #[trigger] obj_view(*y, y@.len() as int)[t] == (y@[t].0@, json_view(y@[t].1)),
                    forall|t: int| 0 <= t < i ==> obj_view(*x, x@.len() as int)[t] == #[trigger] obj_view(*y, y@.len() as int)[t],
                    forall|t: int| 0 <= t < x@.len() ==> decreases_to!(*a => x@[t].1),
                decreases x.len() - i,
            {
                let xk = to_chars(x[i].0.as_str());
                let yk = to_chars(y[i].0.as_str());
                if !chars_eq(xk.as_slice(), yk.as_slice()) {
                    assert(obj_view(*x, x@.len() as int)[i as int] != obj_view(*y, y@.len() as int)[i as int]);
                    return false;
                }
                if !json_eq(&x[i].1, &y[i].1) {
                    assert(obj_view(*x, x@.len() as int)[i as int] != obj_view(*y, y@.len() as int)[i as int]);
                    return false;
                }
                assert(obj_view(*x, x@.len() as int)[i as int] == obj_view(*y, y@.len() as int)[i as int]);
                i = i + 1;
            }
            assert(obj_view(*x, x@.len() as int) =~= obj_view(*y, y@.len() as int));
            true
        },
        _ => false,
    }
}

} // verus!
