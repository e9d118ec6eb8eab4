//! Writing GeoJSON: a feature collection, one feature at a time.
//!
//! The output is compact and has no `crs` member. The writer frames the text of
//! each feature; turning a JSON value into text is handed in, since it prints
//! floating-point numbers.

use crate::feature::{Feature, FeatureView};
use crate::geojson::error::{GeoJsonError, GeoJsonErrorView};
use crate::geojson::geometry;
use crate::geojson::geometry::{built_member, to_json};
use crate::geojson::json;
use crate::geojson::json::{put_member, Json, JsonView, Member, MemberView};
use crate::geojson::properties;
use crate::geojson::properties::{int_json, value_to_json};
use crate::schema;
use crate::schema::{FieldDef, FieldDefView, Schema};
use crate::text::{chars_of, code_point};
use crate::value;
use crate::value::{Value, ValueView};
use vstd::prelude::*;
use vstd::string::*;

verus! {

// ---------------------------------------------------------------------------
// A feature as JSON
// ---------------------------------------------------------------------------
/// The property for field `i`; null where the feature has no value for it.
pub open spec fn property_of(fields: Seq<FieldDefView>, row: Seq<ValueView>, i: int) -> MemberView {
    geometry::built(
        fields[i].name,
        if i < row.len() {
            properties::json_of_value(row[i])
        } else {
            JsonView::Null
        },
    )
}

/// The properties for the first `n` fields.
pub open spec fn properties_of(
    fields: Seq<FieldDefView>,
    row: Seq<ValueView>,
    n: int,
) -> Seq<MemberView>
    decreases n,
{
    if n <= 0 {
        Seq::empty()
    } else {
        json::put(properties_of(fields, row, n - 1), property_of(fields, row, n - 1))
    }
}

/// The geometry member of a feature.
pub open spec fn geometry_member(f: FeatureView) -> MemberView {
    geometry::built(
        "geometry"@,
        match f.geometry {
            None => JsonView::Null,
            Some(g) => geometry::geometry_json_of(g),
        },
    )
}

/// The members of a feature, by ascending key; `id` only where it has one.
pub open spec fn feature_members(fields: Seq<FieldDefView>, f: FeatureView) -> Seq<MemberView> {
    let head = match f.fid {
        None => seq![geometry_member(f)],
        Some(n) => seq![
            geometry_member(f),
            geometry::built("id"@, properties::int_json_of(n as int)),
        ],
    };
    head + seq![
        geometry::built(
            "properties"@,
            JsonView::Object(properties_of(fields, f.attributes, fields.len() as int)),
        ),
        geometry::built("type"@, JsonView::Text("Feature"@)),
    ]
}

/// The JSON object for a feature.
pub open spec fn feature_json_of(fields: Seq<FieldDefView>, f: FeatureView) -> JsonView {
    JsonView::Object(feature_members(fields, f))
}

fn properties_json(fields: &Vec<FieldDef>, row: &Vec<Value>) -> (r: Vec<Member>)
    ensures
        json::members_view(r@) == properties_of(
            schema::fields_view(fields@),
            value::values_view(row@),
            fields@.len() as int,
        ),
{
    let ghost columns = schema::fields_view(fields@);
    let ghost cells = value::values_view(row@);
    let mut out: Vec<Member> = Vec::new();
    let mut i: usize = 0;
    proof {
        assert(json::members_view(out@) =~= Seq::empty());
    }
    while i < fields.len()
        invariant
            i <= fields@.len(),
            columns == schema::fields_view(fields@),
            cells == value::values_view(row@),
            json::members_view(out@) == properties_of(columns, cells, i as int),
        decreases fields@.len() - i,
    {
        let v: Json = if i < row.len() {
            value_to_json(&row[i])
        } else {
            Json::Null
        };
        put_member(&mut out, built_member(fields[i].name.as_str(), v));
        i = i + 1;
    }
    out
}

/// Renders a feature as a JSON object.
pub fn feature_to_json(schema: &Schema, feat: &Feature) -> (r: Json)
    ensures
        r@ == feature_json_of(schema@.fields, feat@),
{
    let mut ms: Vec<Member> = Vec::new();
    let geom: Json = match &feat.geometry {
        None => Json::Null,
        Some(g) => to_json(g),
    };
    ms.push(built_member("geometry", geom));
    match feat.fid {
        None => {},
        Some(n) => {
            ms.push(built_member("id", int_json(n)));
        },
    }
    let props: Vec<Member> = properties_json(&schema.fields, &feat.attributes);
    proof {
        json::lemma_object_view(props);
    }
    ms.push(built_member("properties", Json::Object(props)));
    ms.push(built_member("type", Json::String("Feature".to_owned())));
    proof {
        json::lemma_object_view(ms);
        assert(json::members_view(ms@) =~= feature_members(schema@.fields, feat@));
    }
    Json::Object(ms)
}

// ---------------------------------------------------------------------------
// The collection
// ---------------------------------------------------------------------------
/// How far a writer has come.
#[derive(Debug, Clone, Copy, PartialEq, Eq, Structural)]
pub enum State {
    BeforeFirst,
    Streaming,
    Closed,
}

/// A text of ASCII characters as bytes.
pub open spec fn ascii(s: Seq<char>) -> Seq<u8> {
    Seq::new(s.len(), |i: int| (s[i] as u32) as u8)
}

/// What stands before the features.
pub open spec fn opening() -> Seq<u8> {
    ascii("{\"type\":\"FeatureCollection\",\"features\":["@)
}

/// What stands behind the features.
pub open spec fn closing() -> Seq<u8> {
    ascii("]}"@)
}

/// What stands before the next feature.
pub open spec fn separator(state: State) -> Seq<u8> {
    match state {
        State::BeforeFirst => Seq::empty(),
        _ => seq![44u8],
    }
}

/// A writer of one feature collection. What it has written and was not yet
/// taken stands in `out`.
#[derive(Debug)]
pub struct GeoJsonWriter {
    pub out: Vec<u8>,
    pub schema: Schema,
    pub state: State,
}

fn push_ascii(out: &mut Vec<u8>, s: &str)
    ensures
        final(out)@ == old(out)@ + ascii(s@),
{
    let v = chars_of(s);
    let ghost before = out@;
    let mut i: usize = 0;
    while i < v.len()
        invariant
            i <= v@.len(),
            v@ == s@,
            out@ =~= before + ascii(s@).take(i as int),
        decreases v@.len() - i,
    {
        out.push(code_point(v[i]) as u8);
        i = i + 1;
    }
    proof {
        assert(ascii(s@).take(i as int) =~= ascii(s@));
    }
}

fn push_all(out: &mut Vec<u8>, more: &Vec<u8>)
    ensures
        final(out)@ == old(out)@ + more@,
{
    let ghost before = out@;
    let mut i: usize = 0;
    while i < more.len()
        invariant
            i <= more@.len(),
            out@ =~= before + more@.take(i as int),
        decreases more@.len() - i,
    {
        out.push(more[i]);
        i = i + 1;
    }
    proof {
        assert(more@.take(i as int) =~= more@);
    }
}

impl GeoJsonWriter {
    /// Begins a collection.
    pub fn create(schema: &Schema) -> (r: GeoJsonWriter)
        ensures
            r.out@ == opening(),
            r.schema@ == schema@,
            r.state == State::BeforeFirst,
    {
        let mut out: Vec<u8> = Vec::new();
        push_ascii(&mut out, "{\"type\":\"FeatureCollection\",\"features\":[");
        proof {
            assert(Seq::<u8>::empty() + opening() =~= opening());
        }
        GeoJsonWriter { out, schema: schema.clone(), state: State::BeforeFirst }
    }

    /// Writes one feature; `render` gives the text of its JSON object.
    pub fn write<F: Fn(Json) -> Vec<u8>>(&mut self, feat: &Feature, render: F) -> (r: Result<
        (),
        GeoJsonError,
    >)
        requires
            forall|j: Json|
                j@ == feature_json_of(old(self).schema@.fields, feat@) ==> #[trigger] call_requires(
                    render,
                    (j,),
                ),
        ensures
            final(self).schema == old(self).schema,
            match r {
                Err(e) => old(self).state == State::Closed && e@ == GeoJsonErrorView::Malformed(
                    "writer already closed"@,
                ) && *final(self) == *old(self),
                Ok(_) => {
                    &&& old(self).state != State::Closed
                    &&& final(self).state == State::Streaming
                    &&& exists|j: Json, t: Vec<u8>|
                        j@ == feature_json_of(old(self).schema@.fields, feat@)
                            && #[trigger] call_ensures(render, (j,), t) && final(self).out@ == old(
                            self,
                        ).out@ + separator(old(self).state) + t@
                },
            },
    {
        match self.state {
            State::Closed => {
                return Err(GeoJsonError::malformed("writer already closed"));
            },
            State::BeforeFirst => {
                proof {
                    assert(self.out@ + separator(State::BeforeFirst) =~= self.out@);
                }
                self.state = State::Streaming;
            },
            State::Streaming => {
                let ghost before = self.out@;
                self.out.push(44);
                proof {
                    assert(self.out@ =~= before + separator(State::Streaming));
                }
            },
        }
        let j: Json = feature_to_json(&self.schema, feat);
        let ghost value = j;
        let t: Vec<u8> = render(j);
        push_all(&mut self.out, &t);
        proof {
            assert(call_ensures(render, (value,), t));
        }
        Ok(())
    }

    /// Takes what was written so far.
    pub fn take_output(&mut self) -> (r: Vec<u8>)
        ensures
            r@ == old(self).out@,
            final(self).out@ == Seq::<u8>::empty(),
            final(self).schema == old(self).schema,
            final(self).state == old(self).state,
    {
        let mut r: Vec<u8> = Vec::new();
        std::mem::swap(&mut r, &mut self.out);
        r
    }

    /// Ends the collection and hands out what was not yet taken.
    pub fn close(self) -> (r: Vec<u8>)
        ensures
            r@ == self.out@ + closing(),
    {
        let mut out: Vec<u8> = self.out;
        push_ascii(&mut out, "]}");
        out
    }
}

} // verus!
