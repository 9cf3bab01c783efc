//! JSON values: what the library reads of a reply or of a file.

use vstd::prelude::*;
use vstd::slice::slice_subrange;
use crate::text;

verus! {

/// A JSON value.
pub enum Json {
    Null,
    Bool(bool),
    /// A number: its value where it is an unsigned or a signed integer of 64
    /// bits, and the bits of the double-precision number nearest to it.
    Number { uint: Option<u64>, sint: Option<i64>, bits: Option<u64> },
    Str(String),
    Array(Vec<Json>),
    Object(Vec<(String, Json)>),
}

/// What a JSON value is.
pub enum JsonView {
    Null,
    Bool(bool),
    Number { uint: Option<u64>, sint: Option<i64>, bits: Option<u64> },
    Str(Seq<char>),
    Array(Seq<JsonView>),
    Object(Seq<(Seq<char>, JsonView)>),
}

/// The view of a value.
pub open spec fn value_view(j: Json) -> JsonView
    decreases j,
{
    match j {
        Json::Null => JsonView::Null,
        Json::Bool(b) => JsonView::Bool(b),
        Json::Number { uint, sint, bits } => JsonView::Number { uint, sint, bits },
        Json::Str(s) => JsonView::Str(s@),
        Json::Array(v) => JsonView::Array(array_view(v@)),
        Json::Object(v) => JsonView::Object(object_view(v@)),
    }
}

/// The views of the elements of an array.
pub open spec fn array_view(s: Seq<Json>) -> Seq<JsonView>
    decreases s,
{
    if s.len() == 0 {
        seq![]
    } else {
        seq![value_view(s[0])] + array_view(s.subrange(1, s.len() as int))
    }
}

/// The views of the members of an object.
pub open spec fn object_view(s: Seq<(String, Json)>) -> Seq<(Seq<char>, JsonView)>
    decreases s,
{
    if s.len() == 0 {
        seq![]
    } else {
        seq![(s[0].0@, value_view(s[0].1))] + object_view(s.subrange(1, s.len() as int))
    }
}

impl View for Json {
    type V = JsonView;

    open spec fn view(&self) -> JsonView {
        value_view(*self)
    }
}

/// The view of an array holds the views of its elements, in their order.
pub proof fn lemma_array_view(s: Seq<Json>)
    ensures
        array_view(s) == text::views(s),
    decreases s.len(),
{
    if s.len() > 0 {
        let rest = s.subrange(1, s.len() as int);
        lemma_array_view(rest);
        assert forall|i: int| 0 < i < s.len() implies array_view(s)[i] == s[i]@ by {
            assert(text::views(rest)[i - 1] == rest[i - 1]@);
        }
    }
    assert(array_view(s) =~= text::views(s));
}

/// The view of an object holds the names and the views of its members, in their
/// order.
pub proof fn lemma_object_view(s: Seq<(String, Json)>)
    ensures
        object_view(s) == s.map_values(|e: (String, Json)| (e.0@, e.1@)),
    decreases s.len(),
{
    let all = s.map_values(|e: (String, Json)| (e.0@, e.1@));
    if s.len() > 0 {
        let rest = s.subrange(1, s.len() as int);
        lemma_object_view(rest);
        assert forall|i: int| 0 < i < s.len() implies object_view(s)[i] == all[i] by {
            assert(object_view(rest)[i - 1] == (rest[i - 1].0@, rest[i - 1].1@));
        }
    }
    assert(object_view(s) =~= all);
}

/// The value under the first member named `key`.
pub open spec fn member(es: Seq<(Seq<char>, JsonView)>, key: Seq<char>) -> Option<JsonView>
    decreases es.len(),
{
    if es.len() == 0 {
        None
    } else if es[0].0 == key {
        Some(es[0].1)
    } else {
        member(es.subrange(1, es.len() as int), key)
    }
}

impl JsonView {
    /// The member `key` of an object.
    pub open spec fn get(self, key: Seq<char>) -> Option<JsonView> {
        match self {
            JsonView::Object(es) => member(es, key),
            _ => None,
        }
    }

    /// The text, where this is one.
    pub open spec fn as_str(self) -> Option<Seq<char>> {
        match self {
            JsonView::Str(s) => Some(s),
            _ => None,
        }
    }

    /// The unsigned integer, where this is one.
    pub open spec fn as_u64(self) -> Option<u64> {
        match self {
            JsonView::Number { uint, .. } => uint,
            _ => None,
        }
    }

    /// The bits of the number, where this is one.
    pub open spec fn as_bits(self) -> Option<u64> {
        match self {
            JsonView::Number { bits, .. } => bits,
            _ => None,
        }
    }

    /// The elements, where this is an array.
    pub open spec fn as_array(self) -> Option<Seq<JsonView>> {
        match self {
            JsonView::Array(v) => Some(v),
            _ => None,
        }
    }

    /// The first element of an array.
    pub open spec fn first(self) -> Option<JsonView> {
        match self {
            JsonView::Array(v) => if v.len() > 0 {
                Some(v[0])
            } else {
                None
            },
            _ => None,
        }
    }

    /// The text under `key`, where there is one.
    pub open spec fn get_str(self, key: Seq<char>) -> Option<Seq<char>> {
        match self.get(key) {
            Some(v) => v.as_str(),
            None => None,
        }
    }

    /// The unsigned integer under `key`, where there is one.
    pub open spec fn get_u64(self, key: Seq<char>) -> Option<u64> {
        match self.get(key) {
            Some(v) => v.as_u64(),
            None => None,
        }
    }

    /// The text under `key`, or an empty one.
    pub open spec fn text_of(self, key: Seq<char>) -> Seq<char> {
        match self.get_str(key) {
            Some(s) => s,
            None => seq![],
        }
    }
}

impl Json {
    /// The member `key` of an object.
    pub fn get(&self, key: &str) -> (r: Option<&Json>)
        ensures
            match r {
                Some(j) => self@.get(key@) == Some(j@),
                None => self@.get(key@) is None,
            },
    {
        match self {
            Json::Object(es) => {
                let mut i: usize = 0;
                assert(es@.subrange(0, es@.len() as int) =~= es@);
                while i < es.len()
                    invariant
                        i <= es@.len(),
                        self@.get(key@) == member(object_view(es@), key@),
                        member(object_view(es@), key@) == member(
                            object_view(es@.subrange(i as int, es@.len() as int)),
                            key@,
                        ),
                    decreases es.len() - i,
                {
                    let ghost t = es@.subrange(i as int, es@.len() as int);
                    proof {
                        assert(t.subrange(1, t.len() as int) =~= es@.subrange(
                            i + 1,
                            es@.len() as int,
                        ));
                        assert(object_view(t).subrange(1, object_view(t).len() as int)
                            =~= object_view(t.subrange(1, t.len() as int)));
                    }
                    if text::same(es[i].0.as_str(), key) {
                        return Some(&es[i].1);
                    }
                    i += 1;
                }
                None
            },
            _ => None,
        }
    }

    /// The text, where this is one.
    pub fn as_str(&self) -> (r: Option<&str>)
        ensures
            match r {
                Some(s) => self@.as_str() == Some(s@),
                None => self@.as_str() is None,
            },
    {
        match self {
            Json::Str(s) => Some(s.as_str()),
            _ => None,
        }
    }

    /// The unsigned integer, where this is one.
    pub fn as_u64(&self) -> (r: Option<u64>)
        ensures
            r == self@.as_u64(),
    {
        match self {
            Json::Number { uint, .. } => *uint,
            _ => None,
        }
    }

    /// The bits of the number, where this is one.
    pub fn as_bits(&self) -> (r: Option<u64>)
        ensures
            r == self@.as_bits(),
    {
        match self {
            Json::Number { bits, .. } => *bits,
            _ => None,
        }
    }

    /// The elements, where this is an array.
    pub fn as_array(&self) -> (r: Option<&Vec<Json>>)
        ensures
            match r {
                Some(v) => self@.as_array() == Some(text::views(v@)),
                None => self@.as_array() is None,
            },
    {
        match self {
            Json::Array(v) => {
                proof {
                    lemma_array_view(v@);
                }
                Some(v)
            },
            _ => None,
        }
    }

    /// The first element of an array.
    pub fn first(&self) -> (r: Option<&Json>)
        ensures
            match r {
                Some(j) => self@.first() == Some(j@),
                None => self@.first() is None,
            },
    {
        match self {
            Json::Array(v) => {
                proof {
                    lemma_array_view(v@);
                }
                if v.len() > 0 {
                    Some(&v[0])
                } else {
                    None
                }
            },
            _ => None,
        }
    }

    /// Whether this is `null`.
    pub fn is_null(&self) -> (r: bool)
        ensures
            r == (self@ is Null),
    {
        match self {
            Json::Null => true,
            _ => false,
        }
    }

    /// The text under `key`, where there is one.
    pub fn get_str(&self, key: &str) -> (r: Option<&str>)
        ensures
            match r {
                Some(s) => self@.get_str(key@) == Some(s@),
                None => self@.get_str(key@) is None,
            },
    {
        match self.get(key) {
            Some(v) => v.as_str(),
            None => None,
        }
    }

    /// The unsigned integer under `key`, where there is one.
    pub fn get_u64(&self, key: &str) -> (r: Option<u64>)
        ensures
            r == self@.get_u64(key@),
    {
        match self.get(key) {
            Some(v) => v.as_u64(),
            None => None,
        }
    }

    /// The text under `key`, or an empty one.
    pub fn text_of(&self, key: &str) -> (r: String)
        ensures
            r@ == self@.text_of(key@),
    {
        match self.get_str(key) {
            Some(s) => s.to_owned(),
            None => {
                let s = String::new();
                assert(s@ =~= seq![]);
                s
            },
        }
    }
}

// ---------------------------------------------------------------------------
// Making values
// ---------------------------------------------------------------------------

/// A text as a value.
pub fn text_value(s: &str) -> (r: Json)
    ensures
        r@ == JsonView::Str(s@),
{
    Json::Str(s.to_owned())
}

/// A list of values as a value.
pub fn array_value(v: Vec<Json>) -> (r: Json)
    ensures
        r@ == JsonView::Array(text::views(v@)),
{
    proof {
        lemma_array_view(v@);
    }
    Json::Array(v)
}

/// An object of one member.
pub fn object_of_one(k: &str, x: Json) -> (r: Json)
    ensures
        r@ == JsonView::Object(seq![(k@, x@)]),
{
    let ghost xv = x@;
    let mut v: Vec<(String, Json)> = Vec::new();
    v.push((k.to_owned(), x));
    proof {
        lemma_object_view(v@);
        assert(object_view(v@) =~= seq![(k@, xv)]);
    }
    Json::Object(v)
}

/// An object of two members.
pub fn object_of_two(k: &str, x: Json, l: &str, y: Json) -> (r: Json)
    ensures
        r@ == JsonView::Object(seq![(k@, x@), (l@, y@)]),
{
    let ghost xv = x@;
    let ghost yv = y@;
    let mut v: Vec<(String, Json)> = Vec::new();
    v.push((k.to_owned(), x));
    v.push((l.to_owned(), y));
    proof {
        lemma_object_view(v@);
        assert(object_view(v@) =~= seq![(k@, xv), (l@, yv)]);
    }
    Json::Object(v)
}

/// A list of one value as a value.
pub fn array_of_one(x: Json) -> (r: Json)
    ensures
        r@ == JsonView::Array(seq![x@]),
{
    let mut v: Vec<Json> = Vec::new();
    v.push(x);
    assert(text::views(v@) =~= seq![x@]);
    array_value(v)
}

// ---------------------------------------------------------------------------
// Reading JSON text
// ---------------------------------------------------------------------------

/// `serde_json::Value`: a JSON value as the parser and the writer have it.
#[verifier::external_type_specification]
#[verifier::external_body]
pub struct ExValue(serde_json::Value);

/// `serde_json::Error`: why a text is not JSON. Nothing of it is read.
#[verifier::external_type_specification]
#[verifier::external_body]
pub struct ExError(serde_json::Error);

/// What a `serde_json::Value` holds: its variant, of a number what `as_u64`,
/// `as_i64` and `as_f64` give, and of an object its members in the order in which
/// its map gives them.
pub uninterp spec fn value_content(v: serde_json::Value) -> JsonView;

/// The value that `serde_json::from_str` reads from the text `s`, where the
/// text is JSON.
pub uninterp spec fn json_of_text(s: Seq<char>) -> Option<JsonView>;

/// `serde_json::from_str` into a `serde_json::Value`: whether it succeeds, and
/// what value it gives, are functions of the text alone.
#[verifier::external_body]
fn parse_value(s: &str) -> (r: Result<serde_json::Value, serde_json::Error>)
    ensures
        match r {
            Ok(v) => json_of_text(s@) == Some(value_content(v)),
            Err(_) => json_of_text(s@) is None,
        },
{
    serde_json::from_str::<serde_json::Value>(s)
}

/// A `serde_json::Value` as a value of the library, variant by variant: the
/// members of an object in the order in which its map gives them, a number by
/// `as_u64`, by `as_i64` and by the bits of `as_f64`.
#[verifier::external_body]
pub(crate) fn json_of_value(v: &serde_json::Value) -> (r: Json)
    ensures
        r@ == value_content(*v),
{
    match v {
        serde_json::Value::Null => Json::Null,
        serde_json::Value::Bool(b) => Json::Bool(*b),
        serde_json::Value::Number(n) => Json::Number {
            uint: n.as_u64(),
            sint: n.as_i64(),
            bits: n.as_f64().map(|x| x.to_bits()),
        },
        serde_json::Value::String(s) => Json::Str(s.clone()),
        serde_json::Value::Array(a) => Json::Array(a.iter().map(json_of_value).collect()),
        serde_json::Value::Object(o) => Json::Object(
            o.iter().map(|(k, x)| (k.clone(), json_of_value(x))).collect(),
        ),
    }
}

/// The JSON value that a text is, where it is one.
pub fn parse(s: &str) -> (r: Option<Json>)
    ensures
        text::opt_view(r) == json_of_text(s@),
{
    match parse_value(s) {
        Ok(v) => Some(json_of_value(&v)),
        Err(_) => None,
    }
}

/// The elements of the array that a text is, where it is one.
pub open spec fn array_of_text(s: Seq<char>) -> Option<Seq<JsonView>> {
    match json_of_text(s) {
        Some(v) => v.as_array(),
        None => None,
    }
}

/// The elements of the array that a text is, where it is one.
pub fn parse_array(s: &str) -> (r: Option<Vec<Json>>)
    ensures
        match r {
            Some(v) => array_of_text(s@) == Some(text::views(v@)),
            None => array_of_text(s@) is None,
        },
{
    match parse(s) {
        Some(Json::Array(v)) => {
            proof {
                lemma_array_view(v@);
            }
            Some(v)
        },
        _ => None,
    }
}

/// The part of a text from its first `[` to its last `]`.
pub open spec fn bracketed(s: Seq<char>) -> Option<Seq<char>> {
    match (text::first_index(s, '['), text::last_index(s, ']')) {
        (Some(a), Some(b)) => if a < b {
            Some(s.subrange(a, b + 1))
        } else {
            None
        },
        _ => None,
    }
}

/// The part of a text from its first `[` to its last `]`.
pub fn bracketed_part(s: &str) -> (r: Option<String>)
    ensures
        text::opt_view(r) == bracketed(s@),
{
    let v = text::chars_of(s);
    let n: usize = v.len();
    match (text::index_of(v.as_slice(), '['), text::last_index_of(v.as_slice(), ']')) {
        (Some(a), Some(b)) => if a < b && b < n {
            Some(text::string_of(slice_subrange(v.as_slice(), a, b + 1)))
        } else {
            None
        },
        _ => None,
    }
}

/// The elements of the array in a reply: the JSON array that stands from the
/// first `[` to the last `]`.
pub open spec fn array_in(s: Seq<char>) -> Option<Seq<JsonView>> {
    match bracketed(s) {
        Some(part) => array_of_text(part),
        None => None,
    }
}

/// The elements of the array in a reply, whatever stands around it.
pub fn extract_json_array(s: &str) -> (r: Option<Vec<Json>>)
    ensures
        match r {
            Some(v) => array_in(s@) == Some(text::views(v@)),
            None => array_in(s@) is None,
        },
{
    match bracketed_part(s) {
        Some(part) => parse_array(part.as_str()),
        None => None,
    }
}

// ---------------------------------------------------------------------------
// Lists that are read from a file and written to one
// ---------------------------------------------------------------------------

/// What the values of a list hold.
pub open spec fn contents(s: Seq<serde_json::Value>) -> Seq<JsonView> {
    s.map_values(|v: serde_json::Value| value_content(v))
}

/// The elements of a `serde_json::Value::Array`, and nothing of another variant.
#[verifier::external_body]
fn elements(v: serde_json::Value) -> (r: Option<Vec<serde_json::Value>>)
    ensures
        match r {
            Some(a) => value_content(v) == JsonView::Array(contents(a@)),
            None => !(value_content(v) is Array),
        },
{
    match v {
        serde_json::Value::Array(a) => Some(a),
        _ => None,
    }
}

/// The list that a text is; an empty one where it is none.
pub open spec fn listed(s: Seq<char>) -> Seq<JsonView> {
    match array_of_text(s) {
        Some(v) => v,
        None => seq![],
    }
}

/// The list that a text is; an empty one where it is none.
pub(crate) fn list_of(s: &str) -> (r: Vec<serde_json::Value>)
    ensures
        contents(r@) == listed(s@),
{
    if let Ok(v) = parse_value(s) {
        if let Some(a) = elements(v) {
            return a;
        }
    }
    let r: Vec<serde_json::Value> = Vec::new();
    assert(contents(r@) =~= seq![]);
    r
}

/// `serde_json::Value::String`: a text as a value.
#[verifier::external_body]
pub(crate) fn string_entry(s: &str) -> (r: serde_json::Value)
    ensures
        value_content(r) == JsonView::Str(s@),
{
    serde_json::Value::String(s.to_owned())
}

/// `serde_json::Value::Bool`: a truth value as a value.
#[verifier::external_body]
pub(crate) fn bool_entry(b: bool) -> (r: serde_json::Value)
    ensures
        value_content(r) == JsonView::Bool(b),
{
    serde_json::Value::Bool(b)
}

/// The names and contents of the members of an object.
pub open spec fn members(s: Seq<(String, serde_json::Value)>) -> Seq<(Seq<char>, JsonView)> {
    s.map_values(|e: (String, serde_json::Value)| (e.0@, value_content(e.1)))
}

/// The names of the members stand in ascending order, none twice.
pub open spec fn names_ascend(es: Seq<(Seq<char>, JsonView)>) -> bool {
    forall|i: int, j: int|
        0 <= i < j < es.len() ==> text::precedes((#[trigger] es[i]).0, (#[trigger] es[j]).0)
}

/// `serde_json::Value::Object` with a `serde_json::Map` collected from its
/// members. The map gives them in the order of their names, which is the order
/// in which they are handed over.
#[verifier::external_body]
pub(crate) fn object_entry(es: Vec<(String, serde_json::Value)>) -> (r: serde_json::Value)
    requires
        names_ascend(members(es@)),
    ensures
        value_content(r) == JsonView::Object(members(es@)),
{
    serde_json::Value::Object(es.into_iter().collect())
}

/// The text that `serde_json::to_string` makes of a list of values.
pub uninterp spec fn list_text(vs: Seq<JsonView>) -> Seq<char>;

/// How deep the values of a list may be nested to be read back: the reader takes
/// 127 levels, of which the list is one.
pub const MAX_DEPTH: u32 = 126;

/// A value nested at most `depth` levels deep, in which every number is an integer
/// of 64 bits.
pub open spec fn is_plain(v: JsonView, depth: int) -> bool
    decreases v,
{
    match v {
        JsonView::Null => true,
        JsonView::Bool(_) => true,
        JsonView::Number { uint, sint, .. } => uint is Some || sint is Some,
        JsonView::Str(_) => true,
        JsonView::Array(vs) => depth > 0 && forall|i: int|
            0 <= i < vs.len() ==> #[trigger] is_plain(vs[i], depth - 1),
        JsonView::Object(es) => depth > 0 && forall|i: int|
            0 <= i < es.len() ==> is_plain((#[trigger] es[i]).1, depth - 1),
    }
}

/// Each value of the list can be read back.
pub open spec fn all_plain(vs: Seq<JsonView>) -> bool {
    forall|i: int| 0 <= i < vs.len() ==> is_plain(#[trigger] vs[i], MAX_DEPTH as int)
}

/// Lists of objects whose members are texts can be read back.
pub proof fn lemma_table_is_plain(vs: Seq<JsonView>)
    requires
        forall|i: int|
            0 <= i < vs.len() ==> (#[trigger] vs[i]) is Object && forall|j: int|
                0 <= j < vs[i]->Object_0.len() ==> (#[trigger] vs[i]->Object_0[j]).1 is Str,
    ensures
        all_plain(vs),
{
    reveal_with_fuel(is_plain, 2);
}

/// `serde_json::to_string` of a list of values. It succeeds, since every name of
/// a member is a text; its result is a function of what the values hold; and
/// `serde_json::from_str` reads back what was written, unless a number in it is a
/// fraction, which may be read as a number next to it, or the values are nested
/// deeper than the reader goes.
#[verifier::external_body]
fn write_values(vs: &Vec<serde_json::Value>) -> (r: Result<String, serde_json::Error>)
    ensures
        r is Ok,
        r->Ok_0@ == list_text(contents(vs@)),
        all_plain(contents(vs@)) ==> json_of_text(r->Ok_0@) == Some(
            JsonView::Array(contents(vs@)),
        ),
{
    serde_json::to_string(vs)
}

/// A list as the text of a file.
pub(crate) fn text_of_list(vs: &Vec<serde_json::Value>) -> (r: String)
    ensures
        r@ == list_text(contents(vs@)),
        all_plain(contents(vs@)) ==> array_of_text(r@) == Some(contents(vs@)),
{
    write_values(vs).unwrap()
}

// ---------------------------------------------------------------------------
// What values give
// ---------------------------------------------------------------------------

/// An object gives under a name the first member of that name, and nothing under a
/// name that it does not hold.
pub proof fn lemma_member(es: Seq<(Seq<char>, JsonView)>, key: Seq<char>, k: int)
    ensures
        0 <= k < es.len() && es[k].0 == key && (forall|i: int|
            0 <= i < k ==> (#[trigger] es[i]).0 != key) ==> JsonView::Object(es).get(key) == Some(
            es[k].1,
        ),
        (forall|i: int| 0 <= i < es.len() ==> (#[trigger] es[i]).0 != key)
            ==> JsonView::Object(es).get(key) is None,
    decreases es.len(),
{
    if es.len() > 0 {
        let rest = es.subrange(1, es.len() as int);
        lemma_member(rest, key, k - 1);
        assert forall|i: int| 0 <= i < rest.len() implies #[trigger] rest[i] == es[i + 1] by {}
        if 0 <= k < es.len() && es[k].0 == key && forall|i: int|
            0 <= i < k ==> (#[trigger] es[i]).0 != key {
            if k > 0 {
                assert(es[0].0 != key);
                assert(rest[k - 1] == es[k]);
                assert forall|i: int| 0 <= i < k - 1 implies (#[trigger] rest[i]).0 != key by {
                    assert(es[i + 1].0 != key);
                }
            }
        }
        if forall|i: int| 0 <= i < es.len() ==> (#[trigger] es[i]).0 != key {
            assert(es[0].0 != key);
            assert forall|i: int| 0 <= i < rest.len() implies (#[trigger] rest[i]).0 != key by {
                assert(es[i + 1].0 != key);
            }
        }
    }
}

/// What a value is read as: a text as that text, an integer as that integer, an array
/// as its elements, and nothing as what it is not.
pub proof fn lemma_read_as(
    v: JsonView,
    s: Seq<char>,
    n: u64,
    sint: Option<i64>,
    bits: Option<u64>,
    vs: Seq<JsonView>,
)
    ensures
        JsonView::Str(s).as_str() == Some(s),
        (JsonView::Number { uint: Some(n), sint, bits }).as_u64() == Some(n),
        (JsonView::Number { uint: None, sint, bits }).as_u64() is None,
        (JsonView::Number { uint: Some(n), sint, bits }).as_bits() == bits,
        JsonView::Array(vs).as_array() == Some(vs),
        vs.len() > 0 ==> JsonView::Array(vs).first() == Some(vs[0]),
        v.as_str() is Some ==> v is Str,
        v.as_u64() is Some ==> v is Number,
        v.as_bits() is Some ==> v is Number,
        v.as_array() is Some ==> v is Array,
        v.first() is Some ==> v is Array,
{
}

/// What a member is read as: a text as that text, an integer as that integer; where
/// there is no text under a name, the text is empty.
pub proof fn lemma_member_read_as(
    v: JsonView,
    key: Seq<char>,
    s: Seq<char>,
    n: u64,
    sint: Option<i64>,
    bits: Option<u64>,
)
    ensures
        v.get(key) == Some(JsonView::Str(s)) ==> v.get_str(key) == Some(s) && v.text_of(key) == s,
        v.get(key) == Some(JsonView::Number { uint: Some(n), sint, bits }) ==> v.get_u64(key)
            == Some(n),
        v.get(key) is None ==> v.get_str(key) is None && v.get_u64(key) is None,
        !(v.get(key) matches Some(m) && m is Str) ==> v.text_of(key) == Seq::<char>::empty(),
{
}

/// The bracketed part of a text goes from its first opening to its last closing
/// bracket, brackets included, whatever stands around it.
pub proof fn lemma_bracketed(a: Seq<char>, m: Seq<char>, b: Seq<char>)
    requires
        !a.contains('['),
        !b.contains(']'),
    ensures
        bracketed(a + seq!['['] + m + seq![']'] + b) == Some(seq!['['] + m + seq![']']),
        bracketed(a) is None,
        bracketed(b) is None,
{
    let s = a + seq!['['] + m + seq![']'] + b;
    text::lemma_first_index(s, '[');
    text::lemma_last_index(s, ']');
    text::lemma_first_index(a, '[');
    text::lemma_last_index(b, ']');
    let i = a.len() as int;
    let j = (a.len() + 1 + m.len()) as int;
    assert(s[i] == '[');
    assert(s[j] == ']');
    assert(text::first_index(s, '[') == Some(i)) by {
        let p = text::first_index(s, '[')->0;
        if p < i {
            assert(a[p] == s[p]);
        }
    }
    assert(text::last_index(s, ']') == Some(j)) by {
        let p = text::last_index(s, ']')->0;
        if p > j {
            assert(b[p - j - 1] == s[p]);
        }
    }
    assert(s.subrange(i, j + 1) =~= seq!['['] + m + seq![']']);
    if text::first_index(a, '[') is Some {
        assert(a.contains('['));
    }
    if text::last_index(b, ']') is Some {
        assert(b.contains(']'));
    }
}

/// A text that is an array is read as its elements, and any other as no list; the array
/// in a longer text is what its brackets enclose.
pub proof fn lemma_lists(s: Seq<char>, vs: Seq<JsonView>, a: Seq<char>, m: Seq<char>, b: Seq<char>)
    ensures
        json_of_text(s) == Some(JsonView::Array(vs)) ==> array_of_text(s) == Some(vs) && listed(s)
            == vs,
        json_of_text(s) is None ==> array_of_text(s) is None && listed(s).len() == 0,
        json_of_text(s) matches Some(v) ==> (!(v is Array) ==> array_of_text(s) is None && listed(
            s,
        ).len() == 0),
        !a.contains('[') && !b.contains(']') ==> array_in(a + seq!['['] + m + seq![']'] + b)
            == array_of_text(seq!['['] + m + seq![']']),
        !a.contains('[') ==> array_in(a) is None,
{
    if !a.contains('[') && !b.contains(']') {
        lemma_bracketed(a, m, b);
    }
    if !a.contains('[') {
        text::lemma_first_index(a, '[');
        if text::first_index(a, '[') is Some {
            assert(a.contains('['));
        }
    }
}

} // verus!
