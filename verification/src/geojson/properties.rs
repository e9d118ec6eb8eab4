//! The `properties` of features: the schema they imply, and the way between
//! JSON values and attribute values.
//!
//! GeoJSON has no schema, so every feature is looked at. For each key the kinds
//! of its values decide the type of the field:
//!
//! | kinds seen | type |
//! | --- | --- |
//! | booleans only | `Bool` |
//! | integers only | `Int64` |
//! | floats, or floats and integers | `Float64` |
//! | strings only | `String` |
//! | an array or an object anywhere | `String`, as compact JSON text |
//! | nulls only | `String` |
//! | any other mixture | `String` |
//!
//! A field is nullable when some feature has no such key, or null under it.

use crate::float_bits;
use crate::float_bits::is_finite;
use crate::float_convert;
use crate::float_convert::{double_of_single, is_finite32, single_of};
use crate::geojson::geometry;
use crate::geojson::geometry::number_json;
use crate::geojson::json;
use crate::geojson::json::{Json, JsonView, Member, MemberView};
use crate::schema;
use crate::schema::{FieldDef, FieldDefView};
use crate::text;
use crate::text::{hex_char, same};
use crate::value::{Value, ValueType, ValueView};
use vstd::prelude::*;
use vstd::string::*;

verus! {

// ---------------------------------------------------------------------------
// The schema that properties imply
// ---------------------------------------------------------------------------
/// The kind of a JSON value, as far as the type of a field depends on it.
#[derive(Debug, Clone, Copy, PartialEq, Eq, Structural)]
pub enum Kind {
    Null,
    Bool,
    Int,
    Float,
    Text,
    Composite,
}

/// The kind of a value.
pub open spec fn kind_of(j: JsonView) -> Kind {
    match j {
        JsonView::Null => Kind::Null,
        JsonView::Bool(_) => Kind::Bool,
        JsonView::UInt(_) => Kind::Int,
        JsonView::NegInt(_) => Kind::Int,
        JsonView::Float(_) => Kind::Float,
        JsonView::Text(_) => Kind::Text,
        JsonView::Array(_) => Kind::Composite,
        JsonView::Object(_) => Kind::Composite,
    }
}

/// The properties of one feature; `None` for a feature without any.
pub type Row = Option<Seq<MemberView>>;

/// Whether a feature has a value of that kind under the key.
pub open spec fn row_shows(row: Row, key: Seq<char>, kind: Kind) -> bool {
    match row {
        None => false,
        Some(ms) => exists|j: int|
            0 <= j < ms.len() && (#[trigger] ms[j]).key == key && kind_of(ms[j].value) == kind,
    }
}

/// Whether a feature has no such key.
pub open spec fn row_lacks(row: Row, key: Seq<char>) -> bool {
    match row {
        None => true,
        Some(ms) => forall|j: int| 0 <= j < ms.len() ==> (#[trigger] ms[j]).key != key,
    }
}

/// Whether some feature has a value of that kind under the key.
pub open spec fn shows(rows: Seq<Row>, key: Seq<char>, kind: Kind) -> bool {
    exists|i: int| 0 <= i < rows.len() && row_shows(#[trigger] rows[i], key, kind)
}

/// Whether some feature has no such key.
pub open spec fn lacks(rows: Seq<Row>, key: Seq<char>) -> bool {
    exists|i: int| 0 <= i < rows.len() && row_lacks(#[trigger] rows[i], key)
}

/// The type of the field for a key.
pub open spec fn field_type(rows: Seq<Row>, key: Seq<char>) -> ValueType {
    let bools = shows(rows, key, Kind::Bool);
    let ints = shows(rows, key, Kind::Int);
    let floats = shows(rows, key, Kind::Float);
    let texts = shows(rows, key, Kind::Text);
    if shows(rows, key, Kind::Composite) || texts {
        ValueType::String
    } else if bools {
        if ints || floats {
            ValueType::String
        } else {
            ValueType::Bool
        }
    } else if floats {
        ValueType::Float64
    } else if ints {
        ValueType::Int64
    } else {
        ValueType::String
    }
}

/// Whether the field for a key may hold null.
pub open spec fn field_nullable(rows: Seq<Row>, key: Seq<char>) -> bool {
    shows(rows, key, Kind::Null) || lacks(rows, key)
}

/// The keys, and behind them those of the members from `i` on that are new.
pub open spec fn add_keys(keys: Seq<Seq<char>>, ms: Seq<MemberView>, i: int) -> Seq<Seq<char>>
    decreases ms.len() - i,
{
    if i >= ms.len() {
        keys
    } else if keys.contains(ms[i].key) {
        add_keys(keys, ms, i + 1)
    } else {
        add_keys(keys.push(ms[i].key), ms, i + 1)
    }
}

/// All keys, in the order in which they are first seen.
pub open spec fn keys_of(rows: Seq<Row>) -> Seq<Seq<char>>
    decreases rows.len(),
{
    if rows.len() == 0 {
        Seq::empty()
    } else {
        match rows.last() {
            None => keys_of(rows.drop_last()),
            Some(ms) => add_keys(keys_of(rows.drop_last()), ms, 0),
        }
    }
}

/// The field for a key.
pub open spec fn field_for(rows: Seq<Row>, key: Seq<char>) -> FieldDefView {
    FieldDefView {
        name: key,
        alias: None,
        ty: field_type(rows, key),
        nullable: field_nullable(rows, key),
        width: None,
    }
}

/// The fields that the properties of a run of features imply.
pub open spec fn fields_of(rows: Seq<Row>) -> Seq<FieldDefView> {
    Seq::new(keys_of(rows).len(), |i: int| field_for(rows, keys_of(rows)[i]))
}

/// Adding keys keeps those that are there and adds those of the members.
pub proof fn lemma_add_keys(keys: Seq<Seq<char>>, ms: Seq<MemberView>, i: int, key: Seq<char>)
    requires
        0 <= i,
    ensures
        add_keys(keys, ms, i).contains(key) <==> (keys.contains(key) || exists|j: int|
            i <= j < ms.len() && (#[trigger] ms[j]).key == key),
    decreases ms.len() - i,
{
    if i < ms.len() {
        if keys.contains(ms[i].key) {
            lemma_add_keys(keys, ms, i + 1, key);
        } else {
            let more = keys.push(ms[i].key);
            lemma_add_keys(more, ms, i + 1, key);
            assert(more.last() == ms[i].key);
            assert(more.contains(ms[i].key));
            if keys.contains(key) {
                let k = choose|k: int| 0 <= k < keys.len() && keys[k] == key;
                assert(more[k] == key);
            }
            if more.contains(key) && !keys.contains(key) {
                let k = choose|k: int| 0 <= k < more.len() && more[k] == key;
                if k < keys.len() {
                    assert(keys[k] == key);
                }
            }
        }
        assert(ms[i] == ms[i]);
    }
}

/// A key is listed exactly when some feature has it.
pub proof fn lemma_keys(rows: Seq<Row>, key: Seq<char>)
    ensures
        keys_of(rows).contains(key) <==> exists|i: int|
            0 <= i < rows.len() && !row_lacks(#[trigger] rows[i], key),
    decreases rows.len(),
{
    if rows.len() > 0 {
        let prev = rows.drop_last();
        let last = rows.len() - 1;
        lemma_keys(prev, key);
        assert(forall|i: int| 0 <= i < last ==> prev[i] == rows[i]);
        match rows.last() {
            None => {
                assert(row_lacks(rows[last], key));
            },
            Some(ms) => {
                lemma_add_keys(keys_of(prev), ms, 0, key);
                assert(rows[last] == Some(ms));
            },
        }
        if keys_of(prev).contains(key) {
            let i = choose|i: int| 0 <= i < prev.len() && !row_lacks(#[trigger] prev[i], key);
            assert(!row_lacks(rows[i], key));
        }
    }
}

/// What one more feature adds.
pub proof fn lemma_one_more(rows: Seq<Row>, row: Row, key: Seq<char>, kind: Kind)
    ensures
        shows(rows.push(row), key, kind) == (shows(rows, key, kind) || row_shows(row, key, kind)),
        lacks(rows.push(row), key) == (lacks(rows, key) || row_lacks(row, key)),
{
    let more = rows.push(row);
    let last = rows.len() as int;
    assert(more[last] == row);
    if shows(rows, key, kind) {
        let i = choose|i: int| 0 <= i < rows.len() && row_shows(#[trigger] rows[i], key, kind);
        assert(more[i] == rows[i]);
    }
    if lacks(rows, key) {
        let i = choose|i: int| 0 <= i < rows.len() && row_lacks(#[trigger] rows[i], key);
        assert(more[i] == rows[i]);
    }
    if shows(more, key, kind) && !row_shows(row, key, kind) {
        let i = choose|i: int| 0 <= i < more.len() && row_shows(#[trigger] more[i], key, kind);
        assert(rows[i] == more[i]);
    }
    if lacks(more, key) && !row_lacks(row, key) {
        let i = choose|i: int| 0 <= i < more.len() && row_lacks(#[trigger] more[i], key);
        assert(rows[i] == more[i]);
    }
}

/// What was seen under one key.
#[derive(Debug, Clone, Copy, PartialEq, Eq, Structural)]
pub struct KeyObs {
    saw_bool: bool,
    saw_int: bool,
    saw_float: bool,
    saw_string: bool,
    saw_composite: bool,
    saw_null: bool,
    missing: bool,
}

impl KeyObs {
    /// Whether the kind was seen.
    pub closed spec fn saw(self, kind: Kind) -> bool {
        match kind {
            Kind::Null => self.saw_null,
            Kind::Bool => self.saw_bool,
            Kind::Int => self.saw_int,
            Kind::Float => self.saw_float,
            Kind::Text => self.saw_string,
            Kind::Composite => self.saw_composite,
        }
    }

    /// Whether the key was missing somewhere.
    pub closed spec fn was_missing(self) -> bool {
        self.missing
    }

    /// Whether this is what the features show under the key.
    pub open spec fn sums_up(self, rows: Seq<Row>, key: Seq<char>) -> bool {
        &&& self.was_missing() == lacks(rows, key)
        &&& forall|kind: Kind| #[trigger] self.saw(kind) == shows(rows, key, kind)
    }

    /// Nothing was seen; `missing` says whether there were features without the key.
    pub fn new(missing: bool) -> (r: KeyObs)
        ensures
            r.was_missing() == missing,
            forall|kind: Kind| !#[trigger] r.saw(kind),
    {
        KeyObs {
            saw_bool: false,
            saw_int: false,
            saw_float: false,
            saw_string: false,
            saw_composite: false,
            saw_null: false,
            missing,
        }
    }

    /// Takes note of one value.
    pub fn observe(&mut self, v: &Json)
        ensures
            final(self).was_missing() == old(self).was_missing(),
            forall|kind: Kind| #[trigger]
                final(self).saw(kind) == (old(self).saw(kind) || kind == kind_of(v@)),
    {
        match v {
            Json::Null => {
                self.saw_null = true;
            },
            Json::Bool(_) => {
                self.saw_bool = true;
            },
            Json::UInt(_) => {
                self.saw_int = true;
            },
            Json::NegInt(_) => {
                self.saw_int = true;
            },
            Json::Float(_) => {
                self.saw_float = true;
            },
            Json::String(_) => {
                self.saw_string = true;
            },
            Json::Array(_) => {
                self.saw_composite = true;
            },
            Json::Object(_) => {
                self.saw_composite = true;
            },
        }
    }

    /// Takes note of what one feature has under the key.
    fn observe_row(&mut self, name: &str, row: Option<&Vec<Member>>)
        ensures
            final(self).was_missing() == (old(self).was_missing() || row_lacks(
                row_view(row),
                name@,
            )),
            forall|kind: Kind| #[trigger]
                final(self).saw(kind) == (old(self).saw(kind) || row_shows(
                    row_view(row),
                    name@,
                    kind,
                )),
    {
        match row {
            None => {
                self.missing = true;
            },
            Some(ms) => {
                let ghost before = *self;
                let ghost view = json::members_view(ms@);
                let mut found: bool = false;
                let mut j: usize = 0;
                while j < ms.len()
                    invariant
                        j <= ms@.len(),
                        view == json::members_view(ms@),
                        self.was_missing() == before.was_missing(),
                        found == exists|k: int| 0 <= k < j && (#[trigger] view[k]).key == name@,
                        forall|kind: Kind| #[trigger]
                            self.saw(kind) == (before.saw(kind) || exists|k: int|
                                0 <= k < j && (#[trigger] view[k]).key == name@ && kind_of(
                                    view[k].value,
                                ) == kind),
                    decreases ms@.len() - j,
                {
                    let ghost now = *self;
                    assert(view[j as int] == ms@[j as int]@);
                    if same(ms[j].key.as_str(), name) {
                        self.observe(&ms[j].value);
                        found = true;
                        assert(view[j as int].key == name@);
                    }
                    proof {
                        assert forall|kind: Kind| #[trigger]
                            self.saw(kind) == (before.saw(kind) || exists|k: int|
                                0 <= k < j + 1 && (#[trigger] view[k]).key == name@ && kind_of(
                                    view[k].value,
                                ) == kind) by {
                            assert(now.saw(kind) == now.saw(kind));
                        }
                    }
                    j = j + 1;
                }
                let ghost walked = *self;
                if !found {
                    self.missing = true;
                }
                proof {
                    assert(row_view(row) == Some(view));
                    assert forall|kind: Kind| #[trigger]
                        self.saw(kind) == (before.saw(kind) || row_shows(
                            row_view(row),
                            name@,
                            kind,
                        )) by {
                        assert(walked.saw(kind) == self.saw(kind));
                    }
                }
            },
        }
    }

    /// The type that covers every kind seen.
    pub fn resolve_type(&self) -> (r: ValueType)
        ensures
            r == (if self.saw(Kind::Composite) || self.saw(Kind::Text) {
                ValueType::String
            } else if self.saw(Kind::Bool) {
                if self.saw(Kind::Int) || self.saw(Kind::Float) {
                    ValueType::String
                } else {
                    ValueType::Bool
                }
            } else if self.saw(Kind::Float) {
                ValueType::Float64
            } else if self.saw(Kind::Int) {
                ValueType::Int64
            } else {
                ValueType::String
            }),
    {
        if self.saw_composite || self.saw_string {
            ValueType::String
        } else if self.saw_bool {
            if self.saw_int || self.saw_float {
                ValueType::String
            } else {
                ValueType::Bool
            }
        } else if self.saw_float {
            ValueType::Float64
        } else if self.saw_int {
            ValueType::Int64
        } else {
            ValueType::String
        }
    }

    /// Whether null may stand under the key.
    pub fn nullable(&self) -> (r: bool)
        ensures
            r == (self.saw(Kind::Null) || self.was_missing()),
    {
        self.saw_null || self.missing
    }
}

/// The view of the properties of one feature.
pub open spec fn row_view(row: Option<&Vec<Member>>) -> Row {
    match row {
        None => None,
        Some(ms) => Some(json::members_view(ms@)),
    }
}

/// Gathers the schema from one feature after the other.
pub struct FieldsAccumulator {
    names: Vec<String>,
    observations: Vec<KeyObs>,
    started: bool,
    rows: Ghost<Seq<Row>>,
}

impl View for FieldsAccumulator {
    type V = Seq<Row>;

    /// The features seen so far.
    closed spec fn view(&self) -> Seq<Row> {
        self.rows@
    }
}

impl FieldsAccumulator {
    /// The observations sum up the features seen so far.
    pub closed spec fn wf(&self) -> bool {
        &&& self.started == (self@.len() > 0)
        &&& names_view(self.names@) == keys_of(self@)
        &&& self.observations@.len() == self.names@.len()
        &&& forall|k: int|
            0 <= k < self.names@.len() ==> (#[trigger] self.observations@[k]).sums_up(
                self@,
                self.names@[k]@,
            )
    }

    pub fn new() -> (r: FieldsAccumulator)
        ensures
            r.wf(),
            r@ == Seq::<Row>::empty(),
    {
        let r = FieldsAccumulator {
            names: Vec::new(),
            observations: Vec::new(),
            started: false,
            rows: Ghost(Seq::empty()),
        };
        proof {
            assert(names_view(r.names@) =~= keys_of(r@));
        }
        r
    }

    /// Takes note of the properties of one more feature.
    pub fn observe(&mut self, row: Option<&Vec<Member>>)
        requires
            old(self).wf(),
        ensures
            final(self).wf(),
            final(self)@ == old(self)@.push(row_view(row)),
    {
        let ghost rows = self@;
        let ghost more = rows.push(row_view(row));
        let ghost keys = keys_of(rows);
        let mut k: usize = 0;
        while k < self.names.len()
            invariant
                k <= self.names@.len() == self.observations@.len(),
                self.started == (rows.len() > 0),
                more == rows.push(row_view(row)),
                keys == keys_of(rows),
                names_view(self.names@) == keys,
                forall|i: int|
                    0 <= i < k ==> (#[trigger] self.observations@[i]).sums_up(
                        more,
                        self.names@[i]@,
                    ),
                forall|i: int|
                    k <= i < self.names@.len() ==> (#[trigger] self.observations@[i]).sums_up(
                        rows,
                        self.names@[i]@,
                    ),
            decreases self.names@.len() - k,
        {
            let mut o: KeyObs = self.observations[k];
            let ghost before = o;
            let ghost name = self.names@[k as int]@;
            assert(before.sums_up(rows, name));
            o.observe_row(self.names[k].as_str(), row);
            proof {
                assert forall|kind: Kind| #[trigger] o.saw(kind) == shows(more, name, kind) by {
                    lemma_one_more(rows, row_view(row), name, kind);
                    assert(before.saw(kind) == shows(rows, name, kind));
                }
                lemma_one_more(rows, row_view(row), name, Kind::Null);
                assert(o.sums_up(more, name));
            }
            self.observations.set(k, o);
            k = k + 1;
        }
        match row {
            None => {
                proof {
                    assert(more.drop_last() =~= rows);
                    assert(more.last() is None);
                }
            },
            Some(ms) => {
                let ghost view = json::members_view(ms@);
                let mut j: usize = 0;
                while j < ms.len()
                    invariant
                        j <= ms@.len(),
                        row == Some(ms),
                        view == json::members_view(ms@),
                        self.names@.len() == self.observations@.len(),
                        self.started == (rows.len() > 0),
                        more == rows.push(row_view(row)),
                        keys == keys_of(rows),
                        add_keys(keys, view, 0) == add_keys(
                            names_view(self.names@),
                            view,
                            j as int,
                        ),
                        forall|q: Seq<char>| #[trigger]
                            keys.contains(q) ==> names_view(self.names@).contains(q),
                        forall|i: int|
                            0 <= i < self.names@.len() ==> (
                            #[trigger] self.observations@[i]).sums_up(more, self.names@[i]@),
                    decreases ms@.len() - j,
                {
                    let ghost names = names_view(self.names@);
                    let ghost key = view[j as int].key;
                    assert(key == ms@[j as int].key@);
                    if !listed(&self.names, ms[j].key.as_str()) {
                        let mut o: KeyObs = KeyObs::new(self.started);
                        o.observe_row(ms[j].key.as_str(), row);
                        proof {
                            lemma_keys(rows, key);
                            assert(!keys.contains(key));
                            assert forall|kind: Kind| #[trigger]
                                o.saw(kind) == shows(more, key, kind) by {
                                lemma_one_more(rows, row_view(row), key, kind);
                                if shows(rows, key, kind) {
                                    let i = choose|i: int|
                                        0 <= i < rows.len() && row_shows(
                                            #[trigger] rows[i],
                                            key,
                                            kind,
                                        );
                                    assert(!row_lacks(rows[i], key));
                                }
                            }
                            lemma_one_more(rows, row_view(row), key, Kind::Null);
                            if rows.len() > 0 {
                                assert(row_lacks(rows[0], key));
                            }
                            assert(o.sums_up(more, key));
                        }
                        self.names.push(ms[j].key.clone());
                        self.observations.push(o);
                        proof {
                            assert(names_view(self.names@) =~= names.push(key));
                            assert forall|q: Seq<char>| #[trigger]
                                keys.contains(q) implies names_view(self.names@).contains(q) by {
                                let i = choose|i: int| 0 <= i < names.len() && names[i] == q;
                                assert(names_view(self.names@)[i] == q);
                            }
                        }
                    }
                    j = j + 1;
                }
                proof {
                    assert(more.drop_last() =~= rows);
                    assert(more.last() == Some(view));
                }
            },
        }
        self.started = true;
        self.rows = Ghost(more);
    }

    /// The fields that the features seen so far imply.
    pub fn finalize(self) -> (r: Vec<FieldDef>)
        requires
            self.wf(),
        ensures
            schema::fields_view(r@) == fields_of(self@),
    {
        let mut out: Vec<FieldDef> = Vec::new();
        let mut k: usize = 0;
        while k < self.names.len()
            invariant
                k <= self.names@.len(),
                self.wf(),
                out@.len() == k,
                forall|i: int|
                    0 <= i < k ==> (#[trigger] out@[i])@ == field_for(self@, keys_of(self@)[i]),
            decreases self.names@.len() - k,
        {
            let o: KeyObs = self.observations[k];
            proof {
                let key = names_view(self.names@)[k as int];
                assert(o.sums_up(self@, key));
                assert(o.saw(Kind::Null) == shows(self@, key, Kind::Null));
                assert(o.saw(Kind::Composite) == shows(self@, key, Kind::Composite));
                assert(o.saw(Kind::Text) == shows(self@, key, Kind::Text));
                assert(o.saw(Kind::Bool) == shows(self@, key, Kind::Bool));
                assert(o.saw(Kind::Int) == shows(self@, key, Kind::Int));
                assert(o.saw(Kind::Float) == shows(self@, key, Kind::Float));
            }
            out.push(FieldDef::new(self.names[k].as_str(), o.resolve_type(), o.nullable()));
            k = k + 1;
        }
        proof {
            assert(names_view(self.names@).len() == self.names@.len());
            assert(schema::fields_view(out@) =~= fields_of(self@));
        }
        out
    }
}

/// The views of a run of names.
pub open spec fn names_view(s: Seq<String>) -> Seq<Seq<char>> {
    Seq::new(s.len(), |i: int| s[i]@)
}

/// Whether the name is one of the list.
fn listed(names: &Vec<String>, name: &str) -> (r: bool)
    ensures
        r == names_view(names@).contains(name@),
{
    let mut i: usize = 0;
    while i < names.len()
        invariant
            i <= names@.len(),
            forall|k: int| 0 <= k < i ==> names_view(names@)[k] != name@,
        decreases names@.len() - i,
    {
        if same(names[i].as_str(), name) {
            assert(names_view(names@)[i as int] == name@);
            return true;
        }
        i = i + 1;
    }
    false
}

/// The properties of a run of features.
pub open spec fn rows_view(s: Seq<Option<&Vec<Member>>>) -> Seq<Row> {
    Seq::new(s.len(), |i: int| row_view(s[i]))
}

/// The fields that the properties of a run of features imply, in the order in
/// which their keys are first seen.
pub fn infer_fields(all_props: &[Option<&Vec<Member>>]) -> (r: Vec<FieldDef>)
    ensures
        schema::fields_view(r@) == fields_of(rows_view(all_props@)),
{
    let mut acc = FieldsAccumulator::new();
    let mut i: usize = 0;
    while i < all_props.len()
        invariant
            i <= all_props@.len(),
            acc.wf(),
            acc@ =~= rows_view(all_props@).take(i as int),
        decreases all_props@.len() - i,
    {
        acc.observe(all_props[i]);
        i = i + 1;
    }
    proof {
        assert(rows_view(all_props@).take(i as int) =~= rows_view(all_props@));
    }
    acc.finalize()
}

// ---------------------------------------------------------------------------
// Values
// ---------------------------------------------------------------------------
/// A value as text: a string as it stands, anything else as compact JSON.
pub open spec fn as_text(m: MemberView) -> Seq<char> {
    match m.value {
        JsonView::Text(s) => s,
        _ => m.text,
    }
}

/// The attribute value of type `ty` for a property; null where the property is
/// absent, null, or not convertible.
pub open spec fn attribute_of(m: Option<MemberView>, ty: ValueType) -> ValueView {
    match m {
        None => ValueView::Null,
        Some(m) => if m.value is Null {
            ValueView::Null
        } else {
            match ty {
                ValueType::Bool => match m.value {
                    JsonView::Bool(b) => ValueView::Bool(b),
                    _ => ValueView::Null,
                },
                ValueType::Int16 => match json::int_of(m.value) {
                    Some(n) => if i16::MIN <= n <= i16::MAX {
                        ValueView::Int16(n as i16)
                    } else {
                        ValueView::Null
                    },
                    None => ValueView::Null,
                },
                ValueType::Int32 => match json::int_of(m.value) {
                    Some(n) => if i32::MIN <= n <= i32::MAX {
                        ValueView::Int32(n as i32)
                    } else {
                        ValueView::Null
                    },
                    None => ValueView::Null,
                },
                ValueType::Int64 => match json::int_of(m.value) {
                    Some(n) => ValueView::Int64(n),
                    None => ValueView::Null,
                },
                ValueType::Float32 => match json::double_of(m.value) {
                    Some(b) => if float_bits::finite(b) {
                        ValueView::Float32(float_convert::single_bits(b) as u32)
                    } else {
                        ValueView::Null
                    },
                    None => ValueView::Null,
                },
                ValueType::Float64 => match json::double_of(m.value) {
                    Some(b) => ValueView::Float64(b),
                    None => ValueView::Null,
                },
                _ => ValueView::Text(as_text(m)),
            }
        },
    }
}

/// The view of an optional member.
pub open spec fn member_view(m: Option<&Member>) -> Option<MemberView> {
    match m {
        None => None,
        Some(m) => Some(m@),
    }
}

fn json_as_string(m: &Member) -> (r: String)
    ensures
        r@ == as_text(m@),
{
    match &m.value {
        Json::String(s) => s.clone(),
        _ => m.text.clone(),
    }
}

/// Converts a property to a value of type `ty`.
pub fn json_to_value(m: Option<&Member>, ty: ValueType) -> (r: Value)
    ensures
        r@ == attribute_of(member_view(m), ty),
{
    let m: &Member = match m {
        None => return Value::Null,
        Some(m) => m,
    };
    if m.value.is_null() {
        return Value::Null;
    }
    match ty {
        ValueType::Bool => match m.value.as_bool() {
            Some(b) => Value::Bool(b),
            None => Value::Null,
        },
        ValueType::Int16 => match m.value.as_i64() {
            Some(n) => if i16::MIN as i64 <= n && n <= i16::MAX as i64 {
                Value::Int16(n as i16)
            } else {
                Value::Null
            },
            None => Value::Null,
        },
        ValueType::Int32 => match m.value.as_i64() {
            Some(n) => if i32::MIN as i64 <= n && n <= i32::MAX as i64 {
                Value::Int32(n as i32)
            } else {
                Value::Null
            },
            None => Value::Null,
        },
        ValueType::Int64 => match m.value.as_i64() {
            Some(n) => Value::Int64(n),
            None => Value::Null,
        },
        ValueType::Float32 => match m.value.as_f64() {
            Some(b) => if is_finite(b) {
                Value::Float32(single_of(b))
            } else {
                Value::Null
            },
            None => Value::Null,
        },
        ValueType::Float64 => match m.value.as_f64() {
            Some(b) => Value::Float64(b),
            None => Value::Null,
        },
        _ => Value::String(json_as_string(m)),
    }
}

/// An integer as a JSON number.
pub open spec fn int_json_of(n: int) -> JsonView {
    if n < 0 {
        JsonView::NegInt(n as i64)
    } else {
        JsonView::UInt(n as u64)
    }
}

/// Bytes in lower-case hexadecimal, two digits each.
pub open spec fn hex_of(b: Seq<u8>) -> Seq<char>
    decreases b.len(),
{
    if b.len() == 0 {
        Seq::empty()
    } else {
        hex_of(b.drop_last()).push(text::hex_digit((b.last() / 16) as nat, false)).push(
            text::hex_digit((b.last() % 16) as nat, false),
        )
    }
}

/// The JSON value for an attribute value.
pub open spec fn json_of_value(v: ValueView) -> JsonView {
    match v {
        ValueView::Null => JsonView::Null,
        ValueView::Bool(b) => JsonView::Bool(b),
        ValueView::Int16(n) => int_json_of(n as int),
        ValueView::Int32(n) => int_json_of(n as int),
        ValueView::Int64(n) => int_json_of(n as int),
        ValueView::Float32(b) => if float_convert::finite32(b) {
            JsonView::Float(float_convert::double_bits(b) as u64)
        } else {
            JsonView::Null
        },
        ValueView::Float64(b) => geometry::number(b),
        ValueView::Text(s) => JsonView::Text(s),
        ValueView::Binary(b) => JsonView::Text(hex_of(b)),
        ValueView::DateTime(b) => geometry::number(b),
        ValueView::Guid(g) => JsonView::Text(hex_of(g@)),
        ValueView::Xml(s) => JsonView::Text(s),
    }
}

pub fn int_json(n: i64) -> (r: Json)
    ensures
        r@ == int_json_of(n as int),
{
    if n < 0 {
        Json::NegInt(n)
    } else {
        Json::UInt(n as u64)
    }
}

fn hex_lower(bytes: &[u8]) -> (r: String)
    ensures
        r@ == hex_of(bytes@),
{
    let mut s: String = String::new();
    let mut i: usize = 0;
    while i < bytes.len()
        invariant
            i <= bytes@.len(),
            s@ == hex_of(bytes@.take(i as int)),
        decreases bytes@.len() - i,
    {
        let b: u64 = bytes[i] as u64;
        s.push(hex_char(b / 16, false));
        s.push(hex_char(b % 16, false));
        proof {
            let t = bytes@.take(i + 1);
            assert(t.drop_last() =~= bytes@.take(i as int));
            assert(t.last() == bytes@[i as int]);
        }
        i = i + 1;
    }
    proof {
        assert(bytes@.take(i as int) =~= bytes@);
    }
    s
}

/// Renders an attribute value as JSON: bytes as hexadecimal, a date as its
/// number, and a number that JSON has no form for as null.
pub fn value_to_json(v: &Value) -> (r: Json)
    ensures
        r@ == json_of_value(v@),
{
    match v {
        Value::Null => Json::Null,
        Value::Bool(b) => Json::Bool(*b),
        Value::Int16(n) => int_json(*n as i64),
        Value::Int32(n) => int_json(*n as i64),
        Value::Int64(n) => int_json(*n),
        Value::Float32(b) => if is_finite32(*b) {
            Json::Float(double_of_single(*b))
        } else {
            Json::Null
        },
        Value::Float64(b) => number_json(*b),
        Value::String(s) => Json::String(s.clone()),
        Value::Binary(b) => Json::String(hex_lower(b.as_slice())),
        Value::DateTime(b) => number_json(*b),
        Value::Guid(g) => Json::String(hex_lower(g.as_slice())),
        Value::Xml(s) => Json::String(s.clone()),
    }
}

} // verus!
