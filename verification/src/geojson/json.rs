//! JSON values as plain data, and their way out of the JSON parser.

use crate::float_convert;
use crate::float_convert::{double_of_i64, double_of_u64};
use crate::geojson::error::{GeoJsonError, GeoJsonErrorView};
use crate::text;
use crate::text::{chars_of, code_point, same};
use serde_json::Value as ParserValue;
use std::borrow::Cow;
use vstd::prelude::*;
use vstd::string::*;

verus! {

/// A JSON value. An integer is held as such where it fits in 64 bits; any other
/// number by the bits of its double.
#[derive(Debug, PartialEq, Eq)]
pub enum Json {
    Null,
    Bool(bool),
    UInt(u64),
    /// An integer below zero.
    NegInt(i64),
    Float(u64),
    String(String),
    Array(Vec<Json>),
    /// The members of an object, by ascending key.
    Object(Vec<Member>),
}

/// One member of an object.
#[derive(Debug, PartialEq, Eq)]
pub struct Member {
    pub key: String,
    pub value: Json,
    /// The value as compact JSON text, where the value was read; empty where it
    /// was built.
    pub text: String,
}

/// A [`Json`] as sequences.
#[verifier::ext_equal]
pub enum JsonView {
    Null,
    Bool(bool),
    UInt(u64),
    NegInt(i64),
    Float(u64),
    Text(Seq<char>),
    Array(Seq<JsonView>),
    Object(Seq<MemberView>),
}

/// A [`Member`] as sequences.
#[verifier::ext_equal]
pub struct MemberView {
    pub key: Seq<char>,
    pub value: JsonView,
    pub text: Seq<char>,
}

/// The value with every vector as a sequence.
pub open spec fn json_view(j: Json) -> JsonView
    decreases j,
{
    match j {
        Json::Null => JsonView::Null,
        Json::Bool(b) => JsonView::Bool(b),
        Json::UInt(n) => JsonView::UInt(n),
        Json::NegInt(n) => JsonView::NegInt(n),
        Json::Float(b) => JsonView::Float(b),
        Json::String(s) => JsonView::Text(s@),
        Json::Array(v) => JsonView::Array(
            Seq::new(
                v@.len(),
                |i: int|
                    if 0 <= i < v@.len() {
                        json_view(v@[i])
                    } else {
                        arbitrary()
                    },
            ),
        ),
        Json::Object(v) => JsonView::Object(
            Seq::new(
                v@.len(),
                |i: int|
                    if 0 <= i < v@.len() {
                        MemberView {
                            key: v@[i].key@,
                            value: json_view(v@[i].value),
                            text: v@[i].text@,
                        }
                    } else {
                        arbitrary()
                    },
            ),
        ),
    }
}

impl View for Json {
    type V = JsonView;

    open spec fn view(&self) -> JsonView {
        json_view(*self)
    }
}

impl View for Member {
    type V = MemberView;

    open spec fn view(&self) -> MemberView {
        MemberView { key: self.key@, value: self.value@, text: self.text@ }
    }
}

/// The views of a run of values.
pub open spec fn items_view(s: Seq<Json>) -> Seq<JsonView> {
    Seq::new(s.len(), |i: int| s[i]@)
}

/// The views of a run of members.
pub open spec fn members_view(s: Seq<Member>) -> Seq<MemberView> {
    Seq::new(s.len(), |i: int| s[i]@)
}

/// The view of an array is the run of its items' views.
pub proof fn lemma_array_view(v: Vec<Json>)
    ensures
        Json::Array(v)@ == JsonView::Array(items_view(v@)),
{
    assert(Json::Array(v)@->Array_0 =~= items_view(v@));
}

/// The view of an object is the run of its members' views.
pub proof fn lemma_object_view(v: Vec<Member>)
    ensures
        Json::Object(v)@ == JsonView::Object(members_view(v@)),
{
    assert(Json::Object(v)@->Object_0 =~= members_view(v@));
}

// ---------------------------------------------------------------------------
// Objects
// ---------------------------------------------------------------------------
/// Where the member of that key stands, at or behind `i`.
pub open spec fn key_from(ms: Seq<MemberView>, key: Seq<char>, i: int) -> Option<int>
    decreases ms.len() - i,
{
    if i >= ms.len() {
        None
    } else if ms[i].key == key {
        Some(i)
    } else {
        key_from(ms, key, i + 1)
    }
}

/// The member of that key.
pub open spec fn member(ms: Seq<MemberView>, key: Seq<char>) -> Option<MemberView> {
    match key_from(ms, key, 0) {
        None => None,
        Some(i) => Some(ms[i]),
    }
}

/// The value under that key.
pub open spec fn get(ms: Seq<MemberView>, key: Seq<char>) -> Option<JsonView> {
    match member(ms, key) {
        None => None,
        Some(m) => Some(m.value),
    }
}

/// The value under that key, where the value is an object.
pub open spec fn get_in(j: JsonView, key: Seq<char>) -> Option<JsonView> {
    match j {
        JsonView::Object(ms) => get(ms, key),
        _ => None,
    }
}

/// The text of a value that is a string.
pub open spec fn text_of(j: Option<JsonView>) -> Option<Seq<char>> {
    match j {
        Some(JsonView::Text(s)) => Some(s),
        _ => None,
    }
}

/// Whether `a` comes before `b` when strings are compared character by character.
pub open spec fn precedes(a: Seq<char>, b: Seq<char>) -> bool
    decreases a.len(),
{
    if b.len() == 0 {
        false
    } else if a.len() == 0 {
        true
    } else if a[0] == b[0] {
        precedes(a.skip(1), b.skip(1))
    } else {
        (a[0] as int) < (b[0] as int)
    }
}

/// The first place at or behind `i` whose key does not come before `key`.
pub open spec fn place_from(ms: Seq<MemberView>, key: Seq<char>, i: int) -> int
    decreases ms.len() - i,
{
    if i >= ms.len() {
        ms.len() as int
    } else if precedes(ms[i].key, key) {
        place_from(ms, key, i + 1)
    } else {
        i
    }
}

/// The members with one more, in key order; a member of the same key is replaced.
pub open spec fn put(ms: Seq<MemberView>, m: MemberView) -> Seq<MemberView> {
    let p = place_from(ms, m.key, 0);
    if p < ms.len() && ms[p].key == m.key {
        ms.update(p, m)
    } else {
        ms.insert(p, m)
    }
}

/// Whether the keys ascend.
pub open spec fn ascending(ms: Seq<MemberView>) -> bool {
    forall|i: int, j: int|
        0 <= i < j < ms.len() ==> precedes((#[trigger] ms[i]).key, (#[trigger] ms[j]).key)
}

proof fn lemma_precedes_irreflexive(a: Seq<char>)
    ensures
        !precedes(a, a),
    decreases a.len(),
{
    if a.len() > 0 {
        lemma_precedes_irreflexive(a.skip(1));
    }
}

proof fn lemma_precedes_transitive(a: Seq<char>, b: Seq<char>, c: Seq<char>)
    requires
        precedes(a, b),
        precedes(b, c),
    ensures
        precedes(a, c),
    decreases a.len(),
{
    if a.len() > 0 && a[0] == b[0] && b[0] == c[0] {
        lemma_precedes_transitive(a.skip(1), b.skip(1), c.skip(1));
    }
}

proof fn lemma_precedes_total(a: Seq<char>, b: Seq<char>)
    ensures
        a == b || precedes(a, b) || precedes(b, a),
    decreases a.len(),
{
    if a.len() > 0 && b.len() > 0 && a[0] == b[0] {
        lemma_precedes_total(a.skip(1), b.skip(1));
        if a.skip(1) == b.skip(1) {
            assert(a =~= seq![a[0]] + a.skip(1));
            assert(b =~= seq![b[0]] + b.skip(1));
        }
    } else if a.len() == 0 && b.len() == 0 {
        assert(a =~= b);
    }
}

pub proof fn lemma_place(ms: Seq<MemberView>, key: Seq<char>, i: int)
    requires
        0 <= i <= ms.len(),
    ensures
        i <= place_from(ms, key, i) <= ms.len(),
        forall|k: int| i <= k < place_from(ms, key, i) ==> precedes((#[trigger] ms[k]).key, key),
        place_from(ms, key, i) < ms.len() ==> !precedes(ms[place_from(ms, key, i)].key, key),
    decreases ms.len() - i,
{
    if i < ms.len() && precedes(ms[i].key, key) {
        lemma_place(ms, key, i + 1);
    }
}

pub proof fn lemma_key_from(ms: Seq<MemberView>, key: Seq<char>, i: int)
    requires
        0 <= i,
    ensures
        match key_from(ms, key, i) {
            None => forall|k: int| i <= k < ms.len() ==> (#[trigger] ms[k]).key != key,
            Some(p) => i <= p < ms.len() && ms[p].key == key && forall|k: int|
                i <= k < p ==> (#[trigger] ms[k]).key != key,
        },
    decreases ms.len() - i,
{
    if i < ms.len() && ms[i].key != key {
        lemma_key_from(ms, key, i + 1);
    }
}

/// Where the keys ascend, the key of a member leads to that member.
pub proof fn lemma_member_at(ms: Seq<MemberView>, p: int)
    requires
        ascending(ms),
        0 <= p < ms.len(),
    ensures
        member(ms, ms[p].key) == Some(ms[p]),
{
    let key = ms[p].key;
    lemma_key_from(ms, key, 0);
    lemma_precedes_irreflexive(key);
    match key_from(ms, key, 0) {
        None => {
            assert(ms[p].key != key);
        },
        Some(q) => {
            if q < p {
                assert(precedes(ms[q].key, ms[p].key));
            }
        },
    }
}

/// An object whose keys ascend keeps them so when a member is put into it; the
/// new member is then found under its key, and under any other key what was
/// found before.
pub proof fn law_put_then_get(ms: Seq<MemberView>, m: MemberView, key: Seq<char>)
    requires
        ascending(ms),
    ensures
        ascending(put(ms, m)),
        member(put(ms, m), m.key) == Some(m),
        key != m.key ==> member(put(ms, m), key) == member(ms, key),
{
    let p = place_from(ms, m.key, 0);
    let out = put(ms, m);
    lemma_place(ms, m.key, 0);
    assert forall|i: int, j: int| 0 <= i < j < out.len() implies precedes(
        (#[trigger] out[i]).key,
        (#[trigger] out[j]).key,
    ) by {
        if p < ms.len() && ms[p].key == m.key {
            assert(out[i].key == ms[i].key);
            assert(out[j].key == ms[j].key);
        } else {
            if p < ms.len() {
                lemma_precedes_total(ms[p].key, m.key);
            }
            if j < p {
                assert(out[i] == ms[i] && out[j] == ms[j]);
            } else if i > p {
                assert(out[i] == ms[i - 1] && out[j] == ms[j - 1]);
            } else if i == p {
                assert(out[j] == ms[j - 1]);
                assert(precedes(m.key, ms[p].key));
                if j - 1 > p {
                    lemma_precedes_transitive(m.key, ms[p].key, ms[j - 1].key);
                }
            } else if j == p {
                assert(out[i] == ms[i]);
            } else {
                assert(out[i] == ms[i] && out[j] == ms[j - 1]);
            }
        }
    }
    lemma_member_at(out, p);
    if key != m.key {
        lemma_key_from(ms, key, 0);
        lemma_key_from(out, key, 0);
        let replaced = p < ms.len() && ms[p].key == m.key;
        match key_from(ms, key, 0) {
            Some(q) => {
                let q2 = if replaced || q < p {
                    q
                } else {
                    q + 1
                };
                assert(out[q2] == ms[q]);
                lemma_member_at(out, q2);
            },
            None => {
                match key_from(out, key, 0) {
                    None => {},
                    Some(q2) => {
                        let q = if replaced || q2 < p {
                            q2
                        } else {
                            q2 - 1
                        };
                        assert(q2 != p);
                        assert(out[q2] == ms[q]);
                    },
                }
            },
        }
    }
}

/// Whether `a` comes before `b`.
fn comes_before(a: &str, b: &str) -> (r: bool)
    ensures
        r == precedes(a@, b@),
{
    let u = chars_of(a);
    let v = chars_of(b);
    let mut i: usize = 0;
    assert(a@.skip(0) =~= a@);
    assert(b@.skip(0) =~= b@);
    while i < u.len() && i < v.len()
        invariant
            i <= u@.len(),
            i <= v@.len(),
            u@ == a@,
            v@ == b@,
            precedes(a@, b@) == precedes(a@.skip(i as int), b@.skip(i as int)),
        decreases u@.len() - i,
    {
        let x: u32 = code_point(u[i]);
        let y: u32 = code_point(v[i]);
        if x != y {
            return x < y;
        }
        proof {
            assert(a@.skip(i as int).skip(1) =~= a@.skip(i + 1));
            assert(b@.skip(i as int).skip(1) =~= b@.skip(i + 1));
        }
        i = i + 1;
    }
    i < v.len()
}

/// Where the member of that key stands.
pub fn find_key(ms: &Vec<Member>, key: &str) -> (r: Option<usize>)
    ensures
        match r {
            None => key_from(members_view(ms@), key@, 0) is None,
            Some(i) => i < ms@.len() && key_from(members_view(ms@), key@, 0) == Some(i as int),
        },
{
    let mut i: usize = 0;
    while i < ms.len()
        invariant
            i <= ms@.len(),
            key_from(members_view(ms@), key@, 0) == key_from(members_view(ms@), key@, i as int),
        decreases ms@.len() - i,
    {
        if same(ms[i].key.as_str(), key) {
            return Some(i);
        }
        i = i + 1;
    }
    None
}

/// The member of that key.
pub fn find_member<'a>(ms: &'a Vec<Member>, key: &str) -> (r: Option<&'a Member>)
    ensures
        match r {
            None => member(members_view(ms@), key@) is None,
            Some(m) => member(members_view(ms@), key@) == Some(m@),
        },
{
    match find_key(ms, key) {
        None => None,
        Some(i) => Some(&ms[i]),
    }
}

/// The value under that key.
pub fn find_value<'a>(ms: &'a Vec<Member>, key: &str) -> (r: Option<&'a Json>)
    ensures
        match r {
            None => get(members_view(ms@), key@) is None,
            Some(j) => get(members_view(ms@), key@) == Some(j@),
        },
{
    match find_key(ms, key) {
        None => None,
        Some(i) => Some(&ms[i].value),
    }
}

/// Puts a member into an object.
pub fn put_member(ms: &mut Vec<Member>, m: Member)
    ensures
        members_view(final(ms)@) == put(members_view(old(ms)@), m@),
{
    let ghost before = members_view(ms@);
    let mut i: usize = 0;
    while i < ms.len() && comes_before(ms[i].key.as_str(), m.key.as_str())
        invariant
            i <= ms@.len(),
            before == members_view(ms@),
            place_from(before, m@.key, 0) == place_from(before, m@.key, i as int),
        decreases ms@.len() - i,
    {
        i = i + 1;
    }
    let ghost view = m@;
    if i < ms.len() && same(ms[i].key.as_str(), m.key.as_str()) {
        ms.set(i, m);
        proof {
            assert(members_view(ms@) =~= before.update(i as int, view));
        }
    } else {
        ms.insert(i, m);
        proof {
            assert(members_view(ms@) =~= before.insert(i as int, view));
        }
    }
}

// ---------------------------------------------------------------------------
// Accessors
// ---------------------------------------------------------------------------
/// The integer that a value is, where it fits in 64 bits with a sign.
pub open spec fn int_of(j: JsonView) -> Option<i64> {
    match j {
        JsonView::UInt(n) => if n <= i64::MAX {
            Some(n as i64)
        } else {
            None
        },
        JsonView::NegInt(n) => Some(n),
        _ => None,
    }
}

/// The double nearest to a value that is a number.
pub open spec fn double_of(j: JsonView) -> Option<u64> {
    match j {
        JsonView::UInt(n) => Some(float_convert::nearest(n as nat) as u64),
        JsonView::NegInt(n) => Some(float_convert::nearest_signed(n as int) as u64),
        JsonView::Float(b) => Some(b),
        _ => None,
    }
}

impl Json {
    pub fn is_null(&self) -> (r: bool)
        ensures
            r == (self@ is Null),
    {
        matches!(self, Json::Null)
    }

    pub fn as_bool(&self) -> (r: Option<bool>)
        ensures
            r == (match self@ {
                JsonView::Bool(b) => Some(b),
                _ => None,
            }),
    {
        match self {
            Json::Bool(b) => Some(*b),
            _ => None,
        }
    }

    pub fn as_i64(&self) -> (r: Option<i64>)
        ensures
            r == int_of(self@),
    {
        match self {
            Json::UInt(n) => if *n <= i64::MAX as u64 {
                Some(*n as i64)
            } else {
                None
            },
            Json::NegInt(n) => Some(*n),
            _ => None,
        }
    }

    /// The bits of the double nearest to the number.
    pub fn as_f64(&self) -> (r: Option<u64>)
        ensures
            r == double_of(self@),
    {
        match self {
            Json::UInt(n) => Some(double_of_u64(*n)),
            Json::NegInt(n) => Some(double_of_i64(*n)),
            Json::Float(b) => Some(*b),
            _ => None,
        }
    }

    pub fn as_str(&self) -> (r: Option<&str>)
        ensures
            match r {
                Some(s) => self@ == JsonView::Text(s@),
                None => !(self@ is Text),
            },
    {
        match self {
            Json::String(s) => Some(s.as_str()),
            _ => None,
        }
    }

    pub fn as_array(&self) -> (r: Option<&Vec<Json>>)
        ensures
            match r {
                Some(v) => *self == Json::Array(*v) && self@ == JsonView::Array(items_view(v@)),
                None => !(self@ is Array),
            },
    {
        match self {
            Json::Array(v) => {
                proof {
                    lemma_array_view(*v);
                }
                Some(v)
            },
            _ => None,
        }
    }

    pub fn as_object(&self) -> (r: Option<&Vec<Member>>)
        ensures
            match r {
                Some(v) => *self == Json::Object(*v) && self@ == JsonView::Object(members_view(v@)),
                None => !(self@ is Object),
            },
    {
        match self {
            Json::Object(v) => {
                proof {
                    lemma_object_view(*v);
                }
                Some(v)
            },
            _ => None,
        }
    }

    /// The value under a key, where this is an object.
    pub fn get(&self, key: &str) -> (r: Option<&Json>)
        ensures
            match r {
                Some(j) => get_in(self@, key@) == Some(j@),
                None => get_in(self@, key@) is None,
            },
    {
        match self.as_object() {
            None => None,
            Some(ms) => find_value(ms, key),
        }
    }
}

// ---------------------------------------------------------------------------
// The parser
// ---------------------------------------------------------------------------
/// A value as the JSON parser holds it, owned or borrowed from a larger one: a
/// `serde_json::Value`.
#[verifier::external_body]
pub struct ParsedValue<'a> {
    inner: Cow<'a, ParserValue>,
}

/// What a parsed value holds: every member of an object stands with its compact
/// text, in the order in which the parser's map is walked.
pub uninterp spec fn tree_of(v: ParsedValue) -> JsonView;

/// The compact text of a value.
pub uninterp spec fn rendered(j: JsonView) -> Seq<char>;

/// What parsing bytes as one JSON value gives: the value, or the parser's message.
pub uninterp spec fn parsed(bytes: Seq<u8>) -> Result<JsonView, Seq<char>>;

/// What parsing bytes as one JSON string gives: the string, or the parser's
/// message.
pub uninterp spec fn parsed_string(bytes: Seq<u8>) -> Result<Seq<char>, Seq<char>>;

/// One level of a parsed value: the items and members are still the parser's.
pub enum JsonLayer<'a> {
    Null,
    Bool(bool),
    /// A number as an unsigned integer, as a signed one and as the bits of a
    /// double, as far as it is one.
    Number(Option<u64>, Option<i64>, Option<u64>),
    String(&'a String),
    Array(Vec<ParsedValue<'a>>),
    Object(Vec<(&'a String, ParsedValue<'a>)>),
}

/// A number: an unsigned integer before a signed one before a double.
pub open spec fn number_view(
    unsigned: Option<u64>,
    signed: Option<i64>,
    double: Option<u64>,
) -> JsonView {
    match (unsigned, signed, double) {
        (Some(n), _, _) => JsonView::UInt(n),
        (None, Some(n), _) => JsonView::NegInt(n),
        (None, None, Some(b)) => JsonView::Float(b),
        (None, None, None) => JsonView::Null,
    }
}

/// A level with everything below it.
pub open spec fn layer_view(l: JsonLayer) -> JsonView {
    match l {
        JsonLayer::Null => JsonView::Null,
        JsonLayer::Bool(b) => JsonView::Bool(b),
        JsonLayer::Number(u, i, d) => number_view(u, i, d),
        JsonLayer::String(s) => JsonView::Text(s@),
        JsonLayer::Array(v) => JsonView::Array(Seq::new(v@.len(), |i: int| tree_of(v@[i]))),
        JsonLayer::Object(v) => JsonView::Object(
            Seq::new(
                v@.len(),
                |i: int|
                    MemberView {
                        key: v@[i].0@,
                        value: tree_of(v@[i].1),
                        text: rendered(tree_of(v@[i].1)),
                    },
            ),
        ),
    }
}

/// Takes one level off a `serde_json::Value`: its variant, with the payload as
/// it stands. A `Number` comes as what its `as_u64`, `as_i64` and `as_f64` give, at
/// least one of which gives something.
#[verifier::external_body]
fn layer<'a>(v: &'a ParsedValue<'a>) -> (r: JsonLayer<'a>)
    ensures
        layer_view(r) == tree_of(*v),
        r matches JsonLayer::Number(u, i, d) ==> u is Some || i is Some || d is Some,
{
    let below = |x: &'a ParserValue| ParsedValue { inner: Cow::Borrowed(x) };
    match v.inner.as_ref() {
        ParserValue::Null => JsonLayer::Null,
        ParserValue::Bool(b) => JsonLayer::Bool(*b),
        ParserValue::Number(n) => {
            JsonLayer::Number(n.as_u64(), n.as_i64(), n.as_f64().map(|x| x.to_bits()))
        },
        ParserValue::String(s) => JsonLayer::String(s),
        ParserValue::Array(a) => JsonLayer::Array(a.iter().map(below).collect()),
        ParserValue::Object(m) => JsonLayer::Object(m.iter().map(|(k, x)| (k, below(x))).collect()),
    }
}

/// `serde_json::Value::to_string` gives the compact text of the value.
#[verifier::external_body]
fn value_text(v: &ParsedValue) -> (r: String)
    ensures
        r@ == rendered(tree_of(*v)),
{
    v.inner.to_string()
}

/// `serde_json::from_slice` parses the bytes as one JSON value, or fails with a
/// message; either depends on the bytes alone.
#[verifier::external_body]
fn parse_value(bytes: &[u8]) -> (r: Result<ParsedValue<'static>, String>)
    ensures
        match r {
            Ok(v) => parsed(bytes@) == Ok::<JsonView, Seq<char>>(tree_of(v)),
            Err(m) => parsed(bytes@) == Err::<JsonView, Seq<char>>(m@),
        },
{
    match serde_json::from_slice::<ParserValue>(bytes) {
        Ok(v) => Ok(ParsedValue { inner: Cow::Owned(v) }),
        Err(e) => Err(e.to_string()),
    }
}

/// `serde_json::from_slice` parses the bytes as one JSON string, or fails with a
/// message; either depends on the bytes alone.
#[verifier::external_body]
fn parse_string(bytes: &[u8]) -> (r: Result<String, String>)
    ensures
        match r {
            Ok(s) => parsed_string(bytes@) == Ok::<Seq<char>, Seq<char>>(s@),
            Err(m) => parsed_string(bytes@) == Err::<Seq<char>, Seq<char>>(m@),
        },
{
    serde_json::from_slice::<String>(bytes).map_err(|e| e.to_string())
}

/// A parsed value as plain data.
pub fn json_of(v: &ParsedValue) -> (r: Json)
    ensures
        r@ == tree_of(*v),
    decreases tree_of(*v),
{
    match layer(v) {
        JsonLayer::Null => Json::Null,
        JsonLayer::Bool(b) => Json::Bool(b),
        JsonLayer::Number(unsigned, signed, double) => match (unsigned, signed, double) {
            (Some(n), _, _) => Json::UInt(n),
            (None, Some(n), _) => Json::NegInt(n),
            (None, None, Some(b)) => Json::Float(b),
            (None, None, None) => Json::Null,
        },
        JsonLayer::String(s) => Json::String(s.clone()),
        JsonLayer::Array(a) => {
            let ghost items = tree_of(*v)->Array_0;
            let mut out: Vec<Json> = Vec::new();
            let mut i: usize = 0;
            while i < a.len()
                invariant
                    i <= a@.len(),
                    tree_of(*v) == JsonView::Array(items),
                    items == Seq::new(a@.len(), |k: int| tree_of(a@[k])),
                    out@.len() == i,
                    forall|k: int| 0 <= k < i ==> (#[trigger] out@[k])@ == items[k],
                decreases a@.len() - i,
            {
                assert(items[i as int] == tree_of(a@[i as int]));
                assert(decreases_to!(tree_of(*v) => tree_of(*v)->Array_0));
                assert(decreases_to!(items => items[i as int]));
                out.push(json_of(&a[i]));
                i = i + 1;
            }
            proof {
                lemma_array_view(out);
                assert(items_view(out@) =~= items);
            }
            Json::Array(out)
        },
        JsonLayer::Object(ms) => {
            let ghost members = tree_of(*v)->Object_0;
            let mut out: Vec<Member> = Vec::new();
            let mut i: usize = 0;
            while i < ms.len()
                invariant
                    i <= ms@.len(),
                    tree_of(*v) == JsonView::Object(members),
                    members.len() == ms@.len(),
                    forall|k: int|
                        0 <= k < ms@.len() ==> (#[trigger] members[k]) == (MemberView {
                            key: ms@[k].0@,
                            value: tree_of(ms@[k].1),
                            text: rendered(tree_of(ms@[k].1)),
                        }),
                    out@.len() == i,
                    forall|k: int| 0 <= k < i ==> (#[trigger] out@[k])@ == members[k],
                decreases ms@.len() - i,
            {
                assert(members[i as int].value == tree_of(ms@[i as int].1));
                assert(decreases_to!(tree_of(*v) => tree_of(*v)->Object_0));
                assert(decreases_to!(members => members[i as int]));
                assert(decreases_to!(members[i as int] => members[i as int].value));
                let value = json_of(&ms[i].1);
                let text = value_text(&ms[i].1);
                out.push(Member { key: ms[i].0.clone(), value, text });
                i = i + 1;
            }
            proof {
                lemma_object_view(out);
                assert(members_view(out@) =~= members);
            }
            Json::Object(out)
        },
    }
}

/// What reading bytes as one JSON value gives.
pub open spec fn json_at(bytes: Seq<u8>) -> Result<JsonView, GeoJsonErrorView> {
    match parsed(bytes) {
        Ok(j) => Ok(j),
        Err(m) => Err(GeoJsonErrorView::Json(m)),
    }
}

/// What reading bytes as one JSON string gives.
pub open spec fn string_at(bytes: Seq<u8>) -> Result<Seq<char>, GeoJsonErrorView> {
    match parsed_string(bytes) {
        Ok(s) => Ok(s),
        Err(m) => Err(GeoJsonErrorView::Json(m)),
    }
}

/// Reads bytes as one JSON value.
pub fn parse_json(bytes: &[u8]) -> (r: Result<Json, GeoJsonError>)
    ensures
        match r {
            Ok(j) => json_at(bytes@) == Ok::<JsonView, GeoJsonErrorView>(j@),
            Err(e) => json_at(bytes@) == Err::<JsonView, GeoJsonErrorView>(e@),
        },
{
    match parse_value(bytes) {
        Ok(v) => Ok(json_of(&v)),
        Err(m) => Err(GeoJsonError::Json(m)),
    }
}

/// Reads bytes as the value of a member.
pub fn parse_member(key: String, bytes: &[u8]) -> (r: Result<Member, GeoJsonError>)
    ensures
        match r {
            Ok(m) => json_at(bytes@) == Ok::<JsonView, GeoJsonErrorView>(m@.value) && m@ == (
            MemberView { key: key@, value: m@.value, text: rendered(m@.value) }),
            Err(e) => json_at(bytes@) == Err::<JsonView, GeoJsonErrorView>(e@),
        },
{
    match parse_value(bytes) {
        Ok(v) => {
            let value = json_of(&v);
            let text = value_text(&v);
            Ok(Member { key, value, text })
        },
        Err(m) => Err(GeoJsonError::Json(m)),
    }
}

/// Reads bytes as one JSON string.
pub fn parse_json_string(bytes: &[u8]) -> (r: Result<String, GeoJsonError>)
    ensures
        match r {
            Ok(s) => string_at(bytes@) == Ok::<Seq<char>, GeoJsonErrorView>(s@),
            Err(e) => string_at(bytes@) == Err::<Seq<char>, GeoJsonErrorView>(e@),
        },
{
    match parse_string(bytes) {
        Ok(s) => Ok(s),
        Err(m) => Err(GeoJsonError::Json(m)),
    }
}

} // verus!
