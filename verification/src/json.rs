//! JSON values: the messages that are exchanged with a debug adapter.

use vstd::prelude::*;

use crate::text::same_text;

verus! {

/// A JSON value. A number that is no integer is kept as its text.
#[derive(Debug)]
pub enum Json {
    Null,
    Bool(bool),
    Int(i128),
    Real(String),
    Str(String),
    Array(Vec<Json>),
    Object(Vec<(String, Json)>),
}

/// What a JSON value denotes. The fields of an object have no order.
pub enum JsonV {
    Null,
    Bool(bool),
    Int(int),
    Real(Seq<char>),
    Str(Seq<char>),
    Array(Seq<JsonV>),
    Object(Map<Seq<char>, JsonV>),
}

impl Json {
    pub open spec fn view(&self) -> JsonV
        decreases self,
    {
        match self {
            Json::Null => JsonV::Null,
            Json::Bool(b) => JsonV::Bool(*b),
            Json::Int(n) => JsonV::Int(*n as int),
            Json::Real(t) => JsonV::Real(t@),
            Json::Str(s) => JsonV::Str(s@),
            Json::Array(v) => JsonV::Array(item_views(v@)),
            Json::Object(v) => JsonV::Object(field_views(v@)),
        }
    }
}

/// What the items of an array denote.
pub open spec fn item_views(s: Seq<Json>) -> Seq<JsonV>
    decreases s,
{
    if s.len() == 0 {
        Seq::empty()
    } else {
        item_views(s.drop_last()).push(s.last().view())
    }
}

/// What the fields of an object denote: of two with one name the later counts.
pub open spec fn field_views(s: Seq<(String, Json)>) -> Map<Seq<char>, JsonV>
    decreases s,
{
    if s.len() == 0 {
        Map::empty()
    } else {
        field_views(s.drop_last()).insert(s.last().0@, s.last().1.view())
    }
}

pub proof fn item_views_are_views(s: Seq<Json>)
    ensures
        item_views(s).len() == s.len(),
        forall|i: int| 0 <= i < s.len() ==> #[trigger] item_views(s)[i] == s[i].view(),
    decreases s.len(),
{
    if s.len() > 0 {
        item_views_are_views(s.drop_last());
        assert forall|i: int| 0 <= i < s.len() implies #[trigger] item_views(s)[i]
            == s[i].view() by {
            if i < s.len() - 1 {
                assert(item_views(s.drop_last())[i] == s.drop_last()[i].view());
            }
        }
    }
}

// ---------------------------------------------------------------------------
// Reading
// ---------------------------------------------------------------------------

/// The field of that name, where `v` is an object that has it.
pub open spec fn field(v: JsonV, key: Seq<char>) -> Option<JsonV> {
    match v {
        JsonV::Object(m) => if m.dom().contains(key) {
            Some(m[key])
        } else {
            None
        },
        _ => None,
    }
}

pub open spec fn str_of(v: Option<JsonV>) -> Option<Seq<char>> {
    match v {
        Some(JsonV::Str(s)) => Some(s),
        _ => None,
    }
}

pub open spec fn bool_of(v: Option<JsonV>) -> Option<bool> {
    match v {
        Some(JsonV::Bool(b)) => Some(b),
        _ => None,
    }
}

/// An integer that fits in an `i64`.
pub open spec fn i64_of(v: Option<JsonV>) -> Option<int> {
    match v {
        Some(JsonV::Int(n)) => if i64::MIN <= n <= i64::MAX {
            Some(n)
        } else {
            None
        },
        _ => None,
    }
}

/// An integer that fits in a `u64`.
pub open spec fn u64_of(v: Option<JsonV>) -> Option<int> {
    match v {
        Some(JsonV::Int(n)) => if 0 <= n <= u64::MAX {
            Some(n)
        } else {
            None
        },
        _ => None,
    }
}

pub open spec fn array_of(v: Option<JsonV>) -> Option<Seq<JsonV>> {
    match v {
        Some(JsonV::Array(s)) => Some(s),
        _ => None,
    }
}

/// What an optional value denotes.
pub open spec fn opt_view(v: Option<&Json>) -> Option<JsonV> {
    match v {
        Some(j) => Some(j.view()),
        None => None,
    }
}

impl Json {
    /// The field of that name.
    pub fn get(&self, key: &str) -> (r: Option<&Json>)
        ensures
            opt_view(r) == field(self.view(), key@),
    {
        match self {
            Json::Object(v) => {
                let mut n: usize = v.len();
                assert(v@.take(n as int) =~= v@);
                while n > 0
                    invariant
                        n <= v@.len(),
                        self.view() == JsonV::Object(field_views(v@)),
                        field(JsonV::Object(field_views(v@)), key@) == field(
                            JsonV::Object(field_views(v@.take(n as int))),
                            key@,
                        ),
                    decreases n,
                {
                    let ghost s = v@.take(n as int);
                    assert(s.drop_last() =~= v@.take(n - 1));
                    assert(s.last() == v@[n - 1]);
                    if same_text(v[n - 1].0.as_str(), key) {
                        return Some(&v[n - 1].1);
                    }
                    n = n - 1;
                }
                None
            },
            _ => None,
        }
    }

    pub fn as_str(&self) -> (r: Option<&str>)
        ensures
            match r {
                Some(s) => str_of(Some(self.view())) == Some(s@),
                None => str_of(Some(self.view())) is None,
            },
    {
        match self {
            Json::Str(s) => Some(s.as_str()),
            _ => None,
        }
    }

    pub fn as_bool(&self) -> (r: Option<bool>)
        ensures
            r == bool_of(Some(self.view())),
    {
        match self {
            Json::Bool(b) => Some(*b),
            _ => None,
        }
    }

    pub fn as_i64(&self) -> (r: Option<i64>)
        ensures
            match r {
                Some(n) => i64_of(Some(self.view())) == Some(n as int),
                None => i64_of(Some(self.view())) is None,
            },
    {
        match self {
            Json::Int(n) => if i64::MIN as i128 <= *n && *n <= i64::MAX as i128 {
                Some(*n as i64)
            } else {
                None
            },
            _ => None,
        }
    }

    pub fn as_u64(&self) -> (r: Option<u64>)
        ensures
            match r {
                Some(n) => u64_of(Some(self.view())) == Some(n as int),
                None => u64_of(Some(self.view())) is None,
            },
    {
        match self {
            Json::Int(n) => if 0 <= *n && *n <= u64::MAX as i128 {
                Some(*n as u64)
            } else {
                None
            },
            _ => None,
        }
    }

    pub fn as_array(&self) -> (r: Option<&Vec<Json>>)
        ensures
            match r {
                Some(v) => array_of(Some(self.view())) == Some(item_views(v@)),
                None => array_of(Some(self.view())) is None,
            },
    {
        match self {
            Json::Array(v) => Some(v),
            _ => None,
        }
    }

    /// The string in that field.
    pub fn get_str(&self, key: &str) -> (r: Option<&str>)
        ensures
            match r {
                Some(s) => str_of(field(self.view(), key@)) == Some(s@),
                None => str_of(field(self.view(), key@)) is None,
            },
    {
        match self.get(key) {
            Some(v) => v.as_str(),
            None => None,
        }
    }

    /// The `i64` in that field.
    pub fn get_i64(&self, key: &str) -> (r: Option<i64>)
        ensures
            match r {
                Some(n) => i64_of(field(self.view(), key@)) == Some(n as int),
                None => i64_of(field(self.view(), key@)) is None,
            },
    {
        match self.get(key) {
            Some(v) => v.as_i64(),
            None => None,
        }
    }

    /// The `u64` in that field.
    pub fn get_u64(&self, key: &str) -> (r: Option<u64>)
        ensures
            match r {
                Some(n) => u64_of(field(self.view(), key@)) == Some(n as int),
                None => u64_of(field(self.view(), key@)) is None,
            },
    {
        match self.get(key) {
            Some(v) => v.as_u64(),
            None => None,
        }
    }

    /// The truth value in that field.
    pub fn get_bool(&self, key: &str) -> (r: Option<bool>)
        ensures
            r == bool_of(field(self.view(), key@)),
    {
        match self.get(key) {
            Some(v) => v.as_bool(),
            None => None,
        }
    }

    /// The array in that field.
    pub fn get_array(&self, key: &str) -> (r: Option<&Vec<Json>>)
        ensures
            match r {
                Some(v) => array_of(field(self.view(), key@)) == Some(item_views(v@)),
                None => array_of(field(self.view(), key@)) is None,
            },
    {
        match self.get(key) {
            Some(v) => v.as_array(),
            None => None,
        }
    }

    /// A value that denotes the same.
    pub fn copy(&self) -> (r: Json)
        ensures
            r.view() == self.view(),
        decreases self,
    {
        match self {
            Json::Null => Json::Null,
            Json::Bool(b) => Json::Bool(*b),
            Json::Int(n) => Json::Int(*n),
            Json::Real(t) => Json::Real(t.clone()),
            Json::Str(s) => Json::Str(s.clone()),
            Json::Array(v) => Json::Array(copy_items(v)),
            Json::Object(v) => {
                let mut out: Vec<(String, Json)> = Vec::new();
                let mut i: usize = 0;
                while i < v.len()
                    invariant
                        i <= v@.len(),
                        field_views(out@) == field_views(v@.take(i as int)),
                        decreases_to!(self => v),
                    decreases v@.len() - i,
                {
                    let name = v[i].0.clone();
                    let ghost before = out@;
                    assert(decreases_to!(v@ => v@[i as int]));
                    let value = v[i].1.copy();
                    out.push((name, value));
                    assert(out@.drop_last() =~= before);
                    assert(v@.take(i + 1).drop_last() =~= v@.take(i as int));
                    i = i + 1;
                }
                assert(v@.take(v@.len() as int) =~= v@);
                Json::Object(out)
            },
        }
    }
}

/// Values that denote the same.
pub fn copy_items(v: &Vec<Json>) -> (r: Vec<Json>)
    ensures
        item_views(r@) == item_views(v@),
        r@.len() == v@.len(),
    decreases v,
{
    let mut out: Vec<Json> = Vec::new();
    let mut i: usize = 0;
    while i < v.len()
        invariant
            i <= v@.len(),
            out@.len() == i,
            item_views(out@) == item_views(v@.take(i as int)),
        decreases v@.len() - i,
    {
        let ghost before = out@;
        assert(decreases_to!(v@ => v@[i as int]));
        let value = v[i].copy();
        out.push(value);
        assert(out@.drop_last() =~= before);
        assert(v@.take(i + 1).drop_last() =~= v@.take(i as int));
        i = i + 1;
    }
    assert(v@.take(v@.len() as int) =~= v@);
    out
}

// ---------------------------------------------------------------------------
// Building
// ---------------------------------------------------------------------------

/// Adds a field, or gives it a new value.
pub fn put(fields: &mut Vec<(String, Json)>, key: &str, value: Json)
    ensures
        field_views(final(fields)@) == field_views(old(fields)@).insert(key@, value.view()),
{
    let name = key.to_owned();
    fields.push((name, value));
    assert(fields@.drop_last() =~= old(fields)@);
}

/// Adds a string field.
pub fn put_str(fields: &mut Vec<(String, Json)>, key: &str, value: &str)
    ensures
        field_views(final(fields)@) == field_views(old(fields)@).insert(
            key@,
            JsonV::Str(value@),
        ),
{
    put(fields, key, Json::Str(value.to_owned()));
}

/// Adds an integer field.
pub fn put_int(fields: &mut Vec<(String, Json)>, key: &str, value: i64)
    ensures
        field_views(final(fields)@) == field_views(old(fields)@).insert(
            key@,
            JsonV::Int(value as int),
        ),
{
    put(fields, key, Json::Int(value as i128));
}

/// Adds an item.
pub fn push_item(items: &mut Vec<Json>, value: Json)
    ensures
        item_views(final(items)@) == item_views(old(items)@).push(value.view()),
{
    items.push(value);
    assert(items@.drop_last() =~= old(items)@);
}

/// The text of a number that is no integer, as the JSON crate writes it.
pub open spec fn is_real_text(t: Seq<char>) -> bool {
    exists|value: serde_json::Value| #[trigger] held_json(value) == JsonV::Real(t)
}

/// Whether the JSON crate can hold every number in `v`: integers fit in 64 bits,
/// signed or unsigned, and the text of any other number is the one that the
/// crate gives it.
pub open spec fn is_plain(v: JsonV) -> bool
    decreases v,
{
    match v {
        JsonV::Int(n) => i64::MIN <= n <= u64::MAX,
        JsonV::Real(t) => is_real_text(t),
        JsonV::Array(s) => forall|i: int| 0 <= i < s.len() ==> #[trigger] is_plain(s[i]),
        JsonV::Object(m) => forall|k: Seq<char>| #[trigger]
            m.dom().contains(k) ==> is_plain(m[k]),
        _ => true,
    }
}

/// Arrays and objects are nested at most `n` deep in `v`.
pub open spec fn nests_within(v: JsonV, n: int) -> bool
    decreases v,
{
    match v {
        JsonV::Array(s) => n > 0 && forall|i: int|
            0 <= i < s.len() ==> #[trigger] nests_within(s[i], n - 1),
        JsonV::Object(m) => n > 0 && forall|k: Seq<char>| #[trigger]
            m.dom().contains(k) ==> nests_within(m[k], n - 1),
        _ => true,
    }
}

/// Arrays and objects that are nested deeper than this are not read.
pub const DEEPEST_NESTING: u8 = 127;

/// Each field of an object with a text form has one.
pub proof fn plain_object(m: Map<Seq<char>, JsonV>, k: Seq<char>)
    requires
        is_plain(JsonV::Object(m)),
        m.dom().contains(k),
    ensures
        is_plain(m[k]),
{
    let v = JsonV::Object(m);
    assert(v->Object_0 == m);
    reveal_with_fuel(is_plain, 3);
    assert(v->Object_0.dom().contains(k));
}

// ---------------------------------------------------------------------------
// Text form
// ---------------------------------------------------------------------------

#[verifier::external_type_specification]
#[verifier::external_body]
pub struct ExValue(serde_json::Value);

/// What a value of the JSON crate holds.
pub uninterp spec fn held_json(value: serde_json::Value) -> JsonV;

/// The value that JSON text denotes, where it is well formed.
pub uninterp spec fn parsed_json(bytes: Seq<u8>) -> Option<JsonV>;

/// The compact text form of a value.
pub uninterp spec fn json_text_of(v: JsonV) -> Seq<char>;

/// `serde_json::from_slice` reads a value from JSON text; which texts are well
/// formed and what they denote is that function's to say.
#[verifier::external_body]
fn read_value(bytes: &[u8]) -> (r: Option<serde_json::Value>)
    ensures
        match r {
            Some(value) => parsed_json(bytes@) == Some(held_json(value)),
            None => parsed_json(bytes@) is None,
        },
{
    serde_json::from_slice::<serde_json::Value>(bytes).ok()
}

/// Takes apart a value of the JSON crate, variant by variant. Its integers fit in
/// 64 bits, as that crate keeps them.
#[verifier::external_body]
fn from_value(value: serde_json::Value) -> (r: Json)
    ensures
        r.view() == held_json(value),
        is_plain(r.view()),
{
    match value {
        serde_json::Value::Null => Json::Null,
        serde_json::Value::Bool(b) => Json::Bool(b),
        serde_json::Value::Number(n) => match n.as_i128() {
            Some(i) => Json::Int(i),
            None => Json::Real(n.to_string()),
        },
        serde_json::Value::String(s) => Json::Str(s),
        serde_json::Value::Array(a) => Json::Array(a.into_iter().map(from_value).collect()),
        serde_json::Value::Object(m) => {
            Json::Object(m.into_iter().map(|(k, v)| (k, from_value(v))).collect())
        },
    }
}

/// Builds a value of the JSON crate, variant by variant. The text of a number is
/// read by `serde_json::from_str`, which with the feature `float_roundtrip` gives
/// back the number that the text was written for. Of a number that the crate
/// cannot hold nothing is said.
#[verifier::external_body]
fn to_value(j: &Json) -> (r: serde_json::Value)
    ensures
        is_plain(j.view()) ==> held_json(r) == j.view(),
{
    match j {
        Json::Null => serde_json::Value::Null,
        Json::Bool(b) => serde_json::Value::Bool(*b),
        Json::Int(n) => serde_json::Value::from(serde_json::Number::from_i128(*n)),
        Json::Real(t) => serde_json::from_str(t).unwrap_or_default(),
        Json::Str(s) => serde_json::Value::String(s.clone()),
        Json::Array(v) => serde_json::Value::Array(v.iter().map(to_value).collect()),
        Json::Object(v) => {
            serde_json::Value::Object(v.iter().map(|e| (e.0.clone(), to_value(&e.1))).collect())
        },
    }
}

/// `serde_json::Value::to_string` gives the compact text form of a value. What it
/// writes, `serde_json::from_slice` reads back, down to the depth at which that
/// function gives up.
#[verifier::external_body]
fn value_text(value: &serde_json::Value) -> (r: String)
    ensures
        r@ == json_text_of(held_json(*value)),
        nests_within(held_json(*value), DEEPEST_NESTING as int) ==> parsed_json(
            vstd::utf8::encode_utf8(r@),
        ) == Some(held_json(*value)),
{
    value.to_string()
}

/// Reads a JSON value.
pub fn parse_json(bytes: &[u8]) -> (r: Option<Json>)
    ensures
        match r {
            Some(j) => parsed_json(bytes@) == Some(j.view()) && is_plain(j.view()),
            None => parsed_json(bytes@) is None,
        },
{
    match read_value(bytes) {
        Some(value) => Some(from_value(value)),
        None => None,
    }
}

/// The compact text form of a JSON value. Reading it gives back the value.
pub fn json_text(j: &Json) -> (r: String)
    ensures
        is_plain(j.view()) ==> r@ == json_text_of(j.view()),
        is_plain(j.view()) && nests_within(j.view(), DEEPEST_NESTING as int) ==> parsed_json(
            vstd::utf8::encode_utf8(json_text_of(j.view())),
        ) == Some(j.view()),
{
    let value = to_value(j);
    value_text(&value)
}

// ---------------------------------------------------------------------------
// Laws
// ---------------------------------------------------------------------------

/// A field reads as it was set, and the others as before. What is no object has
/// no fields.
pub proof fn a_field_reads_as_it_was_set(
    m: Map<Seq<char>, JsonV>,
    key: Seq<char>,
    value: JsonV,
    other: Seq<char>,
)
    ensures
        field(JsonV::Object(m.insert(key, value)), other) == if other == key {
            Some(value)
        } else {
            field(JsonV::Object(m), other)
        },
        field(JsonV::Object(Map::empty()), other) is None,
        field(JsonV::Null, key) is None,
        field(JsonV::Str(key), key) is None,
        field(JsonV::Array(seq![value]), key) is None,
{
}

/// A value is read as what it is, and as nothing else. An integer that does not
/// fit is not read.
pub proof fn values_are_read_as_what_they_are(s: Seq<char>, b: bool, n: int, items: Seq<JsonV>)
    ensures
        str_of(Some(JsonV::Str(s))) == Some(s),
        bool_of(Some(JsonV::Bool(b))) == Some(b),
        i64::MIN <= n <= i64::MAX ==> i64_of(Some(JsonV::Int(n))) == Some(n),
        !(i64::MIN <= n <= i64::MAX) ==> i64_of(Some(JsonV::Int(n))) is None,
        0 <= n <= u64::MAX ==> u64_of(Some(JsonV::Int(n))) == Some(n),
        !(0 <= n <= u64::MAX) ==> u64_of(Some(JsonV::Int(n))) is None,
        array_of(Some(JsonV::Array(items))) == Some(items),
        i64_of(Some(JsonV::Real(s))) is None,
        i64_of(Some(JsonV::Str(s))) is None,
        u64_of(Some(JsonV::Real(s))) is None,
        str_of(Some(JsonV::Int(n))) is None,
        str_of(None) is None,
        bool_of(None) is None,
        i64_of(None) is None,
        u64_of(None) is None,
        array_of(None) is None,
{
}

/// Of two fields with one name the later counts; the others keep their values.
pub proof fn a_later_field_counts(s: Seq<(String, Json)>, f: (String, Json))
    ensures
        field_views(s.push(f)).contains_pair(f.0@, f.1.view()),
        forall|k: Seq<char>|
            k != f.0@ ==> (#[trigger] field_views(s.push(f)).dom().contains(k) <==> field_views(
                s,
            ).dom().contains(k)) && field_views(s.push(f))[k] == field_views(s)[k],
{
    assert(s.push(f).drop_last() == s);
}

} // verus!
