//! Structured values: what payloads, index records, requests and responses
//! are made of.

use vstd::prelude::*;
use crate::decimal::{decimal_of_i64, decimal_of_text, parse_decimal, Decimal};
use crate::text::str_eq;

verus! {

/// One named entry of an object.
pub struct Member {
    pub key: String,
    pub value: Json,
}

/// A structured value. A whole number is an `Int` where it fits in 64
/// signed bits and a `UInt` where it lies above them; a number with a
/// fraction or an exponent is a `Float` and is held by the text that writes
/// it.
pub enum Json {
    Null,
    Bool(bool),
    Int(i64),
    UInt(u64),
    Float(String),
    Str(String),
    Array(Vec<Json>),
    Object(Vec<Member>),
}

/// The mathematical value of a [`Json`].
pub ghost enum JsonModel {
    Null,
    Bool(bool),
    Int(i64),
    UInt(u64),
    Float(Seq<char>),
    Str(Seq<char>),
    Array(Seq<JsonModel>),
    Object(Seq<(Seq<char>, JsonModel)>),
}

/// The mathematical value of `j`.
pub open spec fn json_model(j: Json) -> JsonModel
    decreases j,
{
    match j {
        Json::Null => JsonModel::Null,
        Json::Bool(b) => JsonModel::Bool(b),
        Json::Int(n) => JsonModel::Int(n),
        Json::UInt(n) => JsonModel::UInt(n),
        Json::Float(t) => JsonModel::Float(t@),
        Json::Str(s) => JsonModel::Str(s@),
        Json::Array(a) => JsonModel::Array(
            Seq::new(
                a@.len(),
                |i: int|
                    if 0 <= i < a@.len() {
                        json_model(a@[i])
                    } else {
                        JsonModel::Null
                    },
            ),
        ),
        Json::Object(o) => JsonModel::Object(
            Seq::new(
                o@.len(),
                |i: int|
                    if 0 <= i < o@.len() {
                        (o@[i].key@, json_model(o@[i].value))
                    } else {
                        (Seq::empty(), JsonModel::Null)
                    },
            ),
        ),
    }
}

impl View for Json {
    type V = JsonModel;

    open spec fn view(&self) -> JsonModel {
        json_model(*self)
    }
}

impl View for Member {
    type V = (Seq<char>, JsonModel);

    open spec fn view(&self) -> (Seq<char>, JsonModel) {
        (self.key@, self.value@)
    }
}

/// The values of a run of items.
pub open spec fn models(a: Seq<Json>) -> Seq<JsonModel> {
    a.map_values(|x: Json| x@)
}

/// The entries of a run of members.
pub open spec fn entries(o: Seq<Member>) -> Seq<(Seq<char>, JsonModel)> {
    o.map_values(|m: Member| m@)
}

/// The value of an array is the array of the values of its items.
pub proof fn lemma_array_view(a: Vec<Json>)
    ensures
        Json::Array(a)@ == JsonModel::Array(models(a@)),
{
    assert(Json::Array(a)@->Array_0 =~= models(a@));
}

/// The value of an object is the object of the entries of its members.
pub proof fn lemma_object_view(o: Vec<Member>)
    ensures
        Json::Object(o)@ == JsonModel::Object(entries(o@)),
{
    assert(Json::Object(o)@->Object_0 =~= entries(o@));
}

/// The value of the first entry named `key`.
pub open spec fn lookup(o: Seq<(Seq<char>, JsonModel)>, key: Seq<char>) -> Option<JsonModel>
    decreases o.len(),
{
    if o.len() == 0 {
        None
    } else if o[0].0 == key {
        Some(o[0].1)
    } else {
        lookup(o.drop_first(), key)
    }
}

impl JsonModel {
    /// The entry named `key` of an object; `None` for a missing entry and
    /// for a value that is no object.
    pub open spec fn get(self, key: Seq<char>) -> Option<JsonModel> {
        match self {
            JsonModel::Object(o) => lookup(o, key),
            _ => None,
        }
    }

    /// The text of a string.
    pub open spec fn as_str(self) -> Option<Seq<char>> {
        match self {
            JsonModel::Str(s) => Some(s),
            _ => None,
        }
    }

    /// The text of a string that is not empty.
    pub open spec fn as_text(self) -> Option<Seq<char>> {
        match self {
            JsonModel::Str(s) => if s.len() > 0 {
                Some(s)
            } else {
                None
            },
            _ => None,
        }
    }

    /// The truth value, when the value is one.
    pub open spec fn as_bool(self) -> Option<bool> {
        match self {
            JsonModel::Bool(b) => Some(b),
            _ => None,
        }
    }

    /// The number, when it is an `Int`.
    pub open spec fn as_i64(self) -> Option<i64> {
        match self {
            JsonModel::Int(n) => Some(n),
            _ => None,
        }
    }

    /// The number, when it is a whole number from 0 to 2^64 - 1.
    pub open spec fn as_u64(self) -> Option<u64> {
        match self {
            JsonModel::Int(n) => if n >= 0 {
                Some(n as u64)
            } else {
                None
            },
            JsonModel::UInt(n) => Some(n),
            _ => None,
        }
    }

    /// The number as an exact decimal, when the value is a number that can
    /// be read as one.
    pub open spec fn as_decimal(self) -> Option<Decimal> {
        match self {
            JsonModel::Int(n) => Some(decimal_of_i64(n)),
            JsonModel::UInt(n) => Some(Decimal { neg: false, mant: n, exp: 0 }),
            JsonModel::Float(t) => decimal_of_text(t),
            _ => None,
        }
    }

    /// Whether the value is a number.
    pub open spec fn is_number(self) -> bool {
        self is Int || self is UInt || self is Float
    }

    /// The members of an object; none for any other value.
    pub open spec fn members(self) -> Seq<(Seq<char>, JsonModel)> {
        match self {
            JsonModel::Object(o) => o,
            _ => Seq::empty(),
        }
    }

    /// The items of an array; none for any other value.
    pub open spec fn items(self) -> Seq<JsonModel> {
        match self {
            JsonModel::Array(a) => a,
            _ => Seq::empty(),
        }
    }
}

/// Whether two values are equal: the same kind and the same content, item by
/// item and member by member in order. Two `Float`s that both read as
/// decimals are equal when the decimals are; a whole number never equals a
/// `Float`.
pub open spec fn same_json(a: JsonModel, b: JsonModel) -> bool
    decreases a,
{
    match (a, b) {
        (JsonModel::Null, JsonModel::Null) => true,
        (JsonModel::Bool(x), JsonModel::Bool(y)) => x == y,
        (JsonModel::Int(x), JsonModel::Int(y)) => x == y,
        (JsonModel::UInt(x), JsonModel::UInt(y)) => x == y,
        (JsonModel::Float(x), JsonModel::Float(y)) => match (
            decimal_of_text(x),
            decimal_of_text(y),
        ) {
            (Some(p), Some(q)) => p.same_spec(q),
            _ => x == y,
        },
        (JsonModel::Str(x), JsonModel::Str(y)) => x == y,
        (JsonModel::Array(x), JsonModel::Array(y)) => x.len() == y.len() && forall|i: int|
            0 <= i < x.len() ==> same_json(#[trigger] x[i], y[i]),
        (JsonModel::Object(x), JsonModel::Object(y)) => x.len() == y.len() && forall|i: int|
            0 <= i < x.len() ==> (#[trigger] x[i]).0 == y[i].0 && same_json(x[i].1, y[i].1),
        _ => false,
    }
}

impl Json {
    /// The entry named `key` of an object.
    pub fn get(&self, key: &str) -> (r: Option<&Json>)
        ensures
            match r {
                Some(v) => self@.get(key@) == Some(v@),
                None => self@.get(key@) is None,
            },
    {
        match self {
            Json::Object(o) => {
                proof {
                    lemma_object_view(*o);
                    assert(entries(o@).skip(0) =~= entries(o@));
                }
                let mut i: usize = 0;
                while i < o.len()
                    invariant
                        i <= o.len(),
                        self@ == JsonModel::Object(entries(o@)),
                        lookup(entries(o@), key@) == lookup(entries(o@).skip(i as int), key@),
                    decreases o.len() - i,
                {
                    proof {
                        assert(entries(o@).skip(i as int).drop_first() =~= entries(o@).skip(
                            i as int + 1,
                        ));
                        assert(entries(o@).skip(i as int)[0] == o@[i as int]@);
                    }
                    if str_eq(o[i].key.as_str(), key) {
                        return Some(&o[i].value);
                    }
                    i += 1;
                }
                None
            },
            _ => None,
        }
    }

    /// The text of a string.
    pub fn as_str(&self) -> (r: Option<&str>)
        ensures
            match r {
                Some(s) => self@.as_str() == Some(s@),
                None => self@.as_str() is None,
            },
    {
        match self {
            Json::Str(s) => Some(s.as_str()),
            _ => None,
        }
    }

    /// The text of a string that is not empty.
    pub fn as_text(&self) -> (r: Option<&str>)
        ensures
            match r {
                Some(s) => self@.as_text() == Some(s@),
                None => self@.as_text() is None,
            },
    {
        match self {
            Json::Str(s) => {
                if s.as_str().unicode_len() > 0 {
                    Some(s.as_str())
                } else {
                    None
                }
            },
            _ => None,
        }
    }

    /// The truth value, when the value is one.
    pub fn as_bool(&self) -> (r: Option<bool>)
        ensures
            r == self@.as_bool(),
    {
        match self {
            Json::Bool(b) => Some(*b),
            _ => None,
        }
    }

    /// The number, when it is an `Int`.
    pub fn as_i64(&self) -> (r: Option<i64>)
        ensures
            r == self@.as_i64(),
    {
        match self {
            Json::Int(n) => Some(*n),
            _ => None,
        }
    }

    /// The number, when it is a whole number from 0 to 2^64 - 1.
    pub fn as_u64(&self) -> (r: Option<u64>)
        ensures
            r == self@.as_u64(),
    {
        match self {
            Json::Int(n) => {
                if *n >= 0 {
                    Some(*n as u64)
                } else {
                    None
                }
            },
            Json::UInt(n) => Some(*n),
            _ => None,
        }
    }

    /// The number as an exact decimal.
    pub fn as_decimal(&self) -> (r: Option<Decimal>)
        ensures
            r == self@.as_decimal(),
            r is Some ==> r->0.wf(),
    {
        match self {
            Json::Int(n) => {
                let d = Decimal::from_i64(*n);
                Some(d)
            },
            Json::UInt(n) => Some(Decimal::from_u64(*n)),
            Json::Float(t) => parse_decimal(t.as_str()),
            _ => None,
        }
    }

    /// Whether the value is a number.
    pub fn is_number(&self) -> (r: bool)
        ensures
            r == self@.is_number(),
    {
        match self {
            Json::Int(_) => true,
            Json::UInt(_) => true,
            Json::Float(_) => true,
            _ => false,
        }
    }

    /// Whether the value is a string.
    pub fn is_string(&self) -> (r: bool)
        ensures
            r == (self@ is Str),
    {
        match self {
            Json::Str(_) => true,
            _ => false,
        }
    }

    /// Whether the value is an object.
    pub fn is_object(&self) -> (r: bool)
        ensures
            r == (self@ is Object),
    {
        match self {
            Json::Object(_) => true,
            _ => false,
        }
    }

    /// Whether the value is an array.
    pub fn is_array(&self) -> (r: bool)
        ensures
            r == (self@ is Array),
    {
        match self {
            Json::Array(_) => true,
            _ => false,
        }
    }

    /// Whether the value is null.
    pub fn is_null(&self) -> (r: bool)
        ensures
            r == (self@ is Null),
    {
        match self {
            Json::Null => true,
            _ => false,
        }
    }

    /// A string value holding `s`.
    pub fn text(s: &str) -> (r: Json)
        ensures
            r@ == JsonModel::Str(s@),
    {
        Json::Str(String::from_str(s))
    }

    /// The whole number `n`: an `Int` when it fits, else a `UInt`.
    pub fn from_u64(n: u64) -> (r: Json)
        ensures
            r@ == json_of_u64(n),
    {
        if n <= 0x7fff_ffff_ffff_ffff {
            Json::Int(n as i64)
        } else {
            Json::UInt(n)
        }
    }

    /// The number `d`, written as coefficient, `e`, power of ten.
    pub fn from_decimal(d: &Decimal) -> (r: Json)
        ensures
            r@ == JsonModel::Float(d.literal_text()),
    {
        Json::Float(d.literal())
    }

    /// A copy of the value.
    #[verifier::loop_isolation(false)]
    pub fn duplicate(&self) -> (r: Json)
        ensures
            r@ == self@,
        decreases self,
    {
        match self {
            Json::Null => Json::Null,
            Json::Bool(b) => Json::Bool(*b),
            Json::Int(n) => Json::Int(*n),
            Json::UInt(n) => Json::UInt(*n),
            Json::Float(t) => Json::Float(t.clone()),
            Json::Str(s) => Json::Str(s.clone()),
            Json::Array(a) => {
                let mut out: Vec<Json> = Vec::new();
                let mut i: usize = 0;
                while i < a.len()
                    invariant
                        i <= a.len(),
                        out.len() == i,
                        forall|j: int| 0 <= j < i ==> out@[j]@ == a@[j]@,
                    decreases a.len() - i,
                {
                    let c = a[i].duplicate();
                    out.push(c);
                    i += 1;
                }
                proof {
                    lemma_array_view(*a);
                    lemma_array_view(out);
                    assert(models(out@) =~= models(a@));
                }
                Json::Array(out)
            },
            Json::Object(o) => {
                let mut out: Vec<Member> = Vec::new();
                let mut i: usize = 0;
                while i < o.len()
                    invariant
                        i <= o.len(),
                        out.len() == i,
                        forall|j: int| 0 <= j < i ==> out@[j]@ == o@[j]@,
                    decreases o.len() - i,
                {
                    let c = o[i].value.duplicate();
                    out.push(Member { key: o[i].key.clone(), value: c });
                    i += 1;
                }
                proof {
                    lemma_object_view(*o);
                    lemma_object_view(out);
                    assert(entries(out@) =~= entries(o@));
                }
                Json::Object(out)
            },
        }
    }

    /// Whether two values are equal.
    #[verifier::loop_isolation(false)]
    pub fn same(&self, other: &Json) -> (r: bool)
        ensures
            r == same_json(self@, other@),
        decreases self,
    {
        match (self, other) {
            (Json::Null, Json::Null) => true,
            (Json::Bool(x), Json::Bool(y)) => *x == *y,
            (Json::Int(x), Json::Int(y)) => *x == *y,
            (Json::UInt(x), Json::UInt(y)) => *x == *y,
            (Json::Float(x), Json::Float(y)) => {
                match (parse_decimal(x.as_str()), parse_decimal(y.as_str())) {
                    (Some(p), Some(q)) => p.same(&q),
                    _ => str_eq(x.as_str(), y.as_str()),
                }
            },
            (Json::Str(x), Json::Str(y)) => str_eq(x.as_str(), y.as_str()),
            (Json::Array(x), Json::Array(y)) => {
                proof {
                    lemma_array_view(*x);
                    lemma_array_view(*y);
                }
                if x.len() != y.len() {
                    return false;
                }
                let mut i: usize = 0;
                while i < x.len()
                    invariant
                        i <= x.len(),
                        x.len() == y.len(),
                        forall|j: int| 0 <= j < i ==> same_json(x@[j]@, y@[j]@),
                    decreases x.len() - i,
                {
                    if !x[i].same(&y[i]) {
                        assert(!same_json(models(x@)[i as int], models(y@)[i as int]));
                        return false;
                    }
                    i += 1;
                }
                assert forall|j: int| 0 <= j < models(x@).len() implies same_json(
                    #[trigger] models(x@)[j],
                    models(y@)[j],
                ) by {
                    assert(same_json(x@[j]@, y@[j]@));
                }
                true
            },
            (Json::Object(x), Json::Object(y)) => {
                proof {
                    lemma_object_view(*x);
                    lemma_object_view(*y);
                }
                if x.len() != y.len() {
                    return false;
                }
                let mut i: usize = 0;
                while i < x.len()
                    invariant
                        i <= x.len(),
                        x.len() == y.len(),
                        forall|j: int|
                            0 <= j < i ==> x@[j].key@ == y@[j].key@ && same_json(
                                x@[j].value@,
                                y@[j].value@,
                            ),
                    decreases x.len() - i,
                {
                    if !str_eq(x[i].key.as_str(), y[i].key.as_str()) || !x[i].value.same(
                        &y[i].value,
                    ) {
                        assert(!(entries(x@)[i as int].0 == entries(y@)[i as int].0 && same_json(
                            entries(x@)[i as int].1,
                            entries(y@)[i as int].1,
                        )));
                        return false;
                    }
                    i += 1;
                }
                assert forall|j: int| 0 <= j < entries(x@).len() implies (#[trigger] entries(
                    x@,
                )[j]).0 == entries(y@)[j].0 && same_json(entries(x@)[j].1, entries(y@)[j].1) by {
                    assert(x@[j].key@ == y@[j].key@);
                }
                true
            },
            _ => false,
        }
    }
}

/// The value that stands for the whole number `n`.
pub open spec fn json_of_u64(n: u64) -> JsonModel {
    if n <= i64::MAX {
        JsonModel::Int(n as i64)
    } else {
        JsonModel::UInt(n)
    }
}

/// An object with the given members.
pub fn object(members: Vec<Member>) -> (r: Json)
    ensures
        r@ == JsonModel::Object(entries(members@)),
{
    proof {
        lemma_object_view(members);
    }
    Json::Object(members)
}

/// An array with the given items.
pub fn array(items: Vec<Json>) -> (r: Json)
    ensures
        r@ == JsonModel::Array(models(items@)),
{
    proof {
        lemma_array_view(items);
    }
    Json::Array(items)
}

/// Copies of the items of an array; none for any other value.
pub fn json_of_items(v: &Json) -> (out: Vec<Json>)
    ensures
        models(out@) == v@.items(),
{
    let mut out: Vec<Json> = Vec::new();
    match v {
        Json::Array(a) => {
            proof {
                lemma_array_view(*a);
            }
            let mut i: usize = 0;
            while i < a.len()
                invariant
                    i <= a.len(),
                    out.len() == i,
                    forall|j: int| 0 <= j < i ==> out@[j]@ == a@[j]@,
                decreases a.len() - i,
            {
                out.push(a[i].duplicate());
                i += 1;
            }
            proof {
                assert(models(out@) =~= models(a@));
            }
        },
        _ => {
            proof {
                assert(models(out@) =~= Seq::<JsonModel>::empty());
            }
        },
    }
    out
}

/// A member named `key`.
pub fn member(key: &str, value: Json) -> (m: Member)
    ensures
        m@ == (key@, value@),
{
    Member { key: String::from_str(key), value }
}

} // verus!
