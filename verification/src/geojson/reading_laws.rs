//! What a GeoJSON document says, and that the reader reads just that.
//!
//! The format is given here in its own right, as a relation between JSON values
//! and what they describe. Numbers are compared by what they stand for (see
//! [`float_laws`](crate::float_laws)).

use crate::float_bits;
use crate::float_convert;
use crate::float_laws;
use crate::geojson::geometry as shapes;
use crate::geojson::json;
use crate::geojson::json::{JsonView, MemberView};
use crate::geojson::laws;
use crate::geojson::properties;
use crate::geojson::properties::Row;
use crate::geojson::reader;
use crate::geojson::reader::FeatureId;
use crate::geometry::{Coord, GeometryView, PolygonView};
use crate::single_laws;
use crate::text;
use crate::value::{ValueType, ValueView};
use vstd::prelude::*;
use vstd::string::*;

verus! {

// ---------------------------------------------------------------------------
// Numbers
// ---------------------------------------------------------------------------
/// Whether a value is a number.
pub open spec fn numeric(j: JsonView) -> bool {
    j is UInt || j is NegInt || j is Float
}

/// Whether no double is nearer to the whole number than the one with those bits,
/// which has the number's sign.
pub open spec fn nearest_to(n: int, bits: u64) -> bool {
    &&& float_bits::finite(bits)
    &&& n < 0 <==> bits >= 0x8000_0000_0000_0000
    &&& forall|d: u64|
        float_bits::finite(d) ==> float_laws::distance(bits, n) <= #[trigger] float_laws::distance(
            d,
            n,
        )
}

/// Whether the bits are the double for a JSON number: the nearest to a whole
/// number, and the number itself where it is a double.
pub open spec fn stands_for(j: JsonView, bits: u64) -> bool {
    match j {
        JsonView::UInt(n) => nearest_to(n as int, bits),
        JsonView::NegInt(n) => n < 0 ==> nearest_to(n as int, bits),
        JsonView::Float(b) => bits == b,
        _ => false,
    }
}

/// A number is read as the double that stands for it, and nothing but a number
/// is.
pub proof fn law_numbers_are_nearest(j: JsonView)
    ensures
        json::double_of(j) is Some <==> numeric(j),
        json::double_of(j) matches Some(bits) ==> stands_for(j, bits),
{
    match j {
        JsonView::UInt(n) => {
            let bits = float_convert::nearest(n as nat) as u64;
            float_convert::lemma_nearest_fits(n as nat);
            float_laws::law_nearest_is_nearest(n as nat, 0);
            assert forall|d: u64| float_bits::finite(d) implies float_laws::distance(bits, n as int)
                <= #[trigger] float_laws::distance(d, n as int) by {
                float_laws::law_nearest_is_nearest(n as nat, d);
            }
        },
        JsonView::NegInt(n) => {
            if n < 0 {
                let bits = float_convert::nearest_signed(n as int) as u64;
                float_laws::law_nearest_below_zero(n as int, 0);
                assert forall|d: u64| float_bits::finite(d) implies float_laws::distance(
                    bits,
                    n as int,
                ) <= #[trigger] float_laws::distance(d, n as int) by {
                    float_laws::law_nearest_below_zero(n as int, d);
                }
            }
        },
        _ => {},
    }
}

// ---------------------------------------------------------------------------
// Geometries
// ---------------------------------------------------------------------------
/// Whether a value is a position: an array that begins with x and y. What follows
/// them is not kept.
pub open spec fn position(j: JsonView, c: Coord) -> bool {
    match j {
        JsonView::Array(a) => {
            &&& a.len() >= 2
            &&& stands_for(a[0], c.x)
            &&& stands_for(a[1], c.y)
            &&& c.z is None
            &&& c.m is None
        },
        _ => false,
    }
}

/// Whether a value is a run of positions, in order.
pub open spec fn positions(j: JsonView, s: Seq<Coord>) -> bool {
    match j {
        JsonView::Array(a) => a.len() == s.len() && forall|i: int|
            0 <= i < a.len() ==> position(#[trigger] a[i], s[i]),
        _ => false,
    }
}

/// Whether a value is a run of lines, in order.
pub open spec fn lines(j: JsonView, s: Seq<Seq<Coord>>) -> bool {
    match j {
        JsonView::Array(a) => a.len() == s.len() && forall|i: int|
            0 <= i < a.len() ==> positions(#[trigger] a[i], s[i]),
        _ => false,
    }
}

/// Whether a value is a polygon: the exterior first, then the holes.
pub open spec fn rings(j: JsonView, p: PolygonView) -> bool {
    match j {
        JsonView::Array(a) => {
            &&& a.len() == 1 + p.holes.len()
            &&& positions(a[0], p.exterior)
            &&& forall|i: int| 1 <= i < a.len() ==> positions(#[trigger] a[i], p.holes[i - 1])
        },
        _ => false,
    }
}

/// Whether a value is a run of polygons, in order.
pub open spec fn ring_lists(j: JsonView, s: Seq<PolygonView>) -> bool {
    match j {
        JsonView::Array(a) => a.len() == s.len() && forall|i: int|
            0 <= i < a.len() ==> rings(#[trigger] a[i], s[i]),
        _ => false,
    }
}

/// Whether the first member of that key has that value.
pub open spec fn holds(ms: Seq<MemberView>, key: Seq<char>, v: JsonView) -> bool {
    exists|i: int|
        0 <= i < ms.len() && (#[trigger] ms[i]).key == key && ms[i].value == v && forall|k: int|
            0 <= k < i ==> (#[trigger] ms[k]).key != key
}

/// Whether no member has that key.
pub open spec fn missing(ms: Seq<MemberView>, key: Seq<char>) -> bool {
    forall|i: int| 0 <= i < ms.len() ==> (#[trigger] ms[i]).key != key
}

/// A key leads to its first member, and to none where there is none.
pub proof fn law_get_is_the_first(ms: Seq<MemberView>, key: Seq<char>)
    ensures
        match json::get(ms, key) {
            Some(v) => holds(ms, key, v),
            None => missing(ms, key),
        },
        forall|v: JsonView| #[trigger] holds(ms, key, v) ==> json::get(ms, key) == Some(v),
{
    json::lemma_key_from(ms, key, 0);
    if let Some(i) = json::key_from(ms, key, 0) {
        assert(ms[i].key == key);
        assert forall|v: JsonView| #[trigger] holds(ms, key, v) implies json::get(ms, key) == Some(
            v,
        ) by {
            let k = choose|k: int|
                0 <= k < ms.len() && (#[trigger] ms[k]).key == key && ms[k].value == v && forall|
                    l: int,
                |
                    0 <= l < k ==> (#[trigger] ms[l]).key != key;
            if k < i {
                assert(ms[k].key != key);
            }
            if i < k {
                assert(ms[i].key != key);
            }
        }
    } else {
        assert forall|v: JsonView| #[trigger] holds(ms, key, v) implies false by {
            let k = choose|k: int|
                0 <= k < ms.len() && (#[trigger] ms[k]).key == key && ms[k].value == v && forall|
                    l: int,
                |
                    0 <= l < k ==> (#[trigger] ms[l]).key != key;
            assert(ms[k].key != key);
        }
    }
}

/// Whether a value is an object of that type whose member `key` is `v`.
pub open spec fn typed(j: JsonView, ty: Seq<char>, key: Seq<char>, v: JsonView) -> bool {
    match j {
        JsonView::Object(ms) => holds(ms, "type"@, JsonView::Text(ty)) && holds(ms, key, v),
        _ => false,
    }
}

/// Whether a value describes a geometry: its type by name, and its coordinates
/// as that type has them; a collection has other geometries in their place.
pub open spec fn describes(j: JsonView, g: GeometryView) -> bool
    decreases g,
{
    match g {
        GeometryView::Point(c) => exists|v: JsonView| #[trigger]
            typed(j, "Point"@, "coordinates"@, v) && position(v, c),
        GeometryView::LineString(s) => exists|v: JsonView| #[trigger]
            typed(j, "LineString"@, "coordinates"@, v) && positions(v, s),
        GeometryView::Polygon(p) => exists|v: JsonView| #[trigger]
            typed(j, "Polygon"@, "coordinates"@, v) && rings(v, p),
        GeometryView::MultiPoint(s) => exists|v: JsonView| #[trigger]
            typed(j, "MultiPoint"@, "coordinates"@, v) && positions(v, s),
        GeometryView::MultiLineString(s) => exists|v: JsonView| #[trigger]
            typed(j, "MultiLineString"@, "coordinates"@, v) && lines(v, s),
        GeometryView::MultiPolygon(s) => exists|v: JsonView| #[trigger]
            typed(j, "MultiPolygon"@, "coordinates"@, v) && ring_lists(v, s),
        GeometryView::GeometryCollection(s) => exists|a: Seq<JsonView>| #[trigger]
            typed(j, "GeometryCollection"@, "geometries"@, JsonView::Array(a)) && a.len()
                == s.len() && forall|i: int|
                0 <= i < s.len() ==> describes(#[trigger] a[i], s[i]),
        GeometryView::Empty(_) => false,
    }
}

/// A position is read exactly where there is one: an array of at least two values
/// of which the first two are numbers.
pub proof fn law_positions_are_read(j: JsonView)
    ensures
        shapes::coord_of(j) is Ok <==> (j matches JsonView::Array(a) && a.len() >= 2 && numeric(
            a[0],
        ) && numeric(a[1])),
        shapes::coord_of(j) matches Ok(c) ==> position(j, c),
        shapes::coord_of(j) matches Err(e) ==> e is Malformed,
{
    if let JsonView::Array(a) = j {
        if a.len() >= 2 {
            law_numbers_are_nearest(a[0]);
            law_numbers_are_nearest(a[1]);
        }
    }
}

proof fn lemma_coords_from(s: Seq<JsonView>, i: int, acc: Seq<Coord>)
    requires
        0 <= i <= s.len(),
        acc.len() == i,
        forall|k: int| 0 <= k < i ==> position(#[trigger] s[k], acc[k]),
    ensures
        shapes::coords_from(s, i, acc) matches Ok(c) ==> positions(JsonView::Array(s), c),
        shapes::coords_from(s, i, acc) is Ok <==> forall|k: int|
            i <= k < s.len() ==> shapes::coord_of(#[trigger] s[k]) is Ok,
    decreases s.len() - i,
{
    if i < s.len() {
        law_positions_are_read(s[i]);
        if let Ok(c) = shapes::coord_of(s[i]) {
            lemma_coords_from(s, i + 1, acc.push(c));
        } else {
            assert(!(shapes::coord_of(s[i]) is Ok));
        }
    }
}

proof fn lemma_line(j: JsonView)
    ensures
        shapes::line_of(j) matches Ok(s) ==> positions(j, s),
        forall|s: Seq<Coord>| #[trigger] positions(j, s) ==> shapes::line_of(j) is Ok,
{
    if let JsonView::Array(a) = j {
        lemma_coords_from(a, 0, Seq::empty());
        assert forall|s: Seq<Coord>| #[trigger] positions(j, s) implies shapes::line_of(j) is Ok by {
            assert forall|k: int| 0 <= k < a.len() implies shapes::coord_of(
                #[trigger] a[k],
            ) is Ok by {
                assert(position(a[k], s[k]));
                law_positions_are_read(a[k]);
            }
        }
    }
}

proof fn lemma_lines_from(s: Seq<JsonView>, from: int, i: int, acc: Seq<Seq<Coord>>)
    requires
        0 <= from <= i <= s.len(),
        acc.len() == i - from,
        forall|k: int| from <= k < i ==> positions(#[trigger] s[k], acc[k - from]),
    ensures
        shapes::lines_from(s, i, acc) matches Ok(c) ==> c.len() == s.len() - from && forall|k: int|
            from <= k < s.len() ==> positions(#[trigger] s[k], c[k - from]),
        shapes::lines_from(s, i, acc) is Ok <==> forall|k: int|
            i <= k < s.len() ==> shapes::line_of(#[trigger] s[k]) is Ok,
    decreases s.len() - i,
{
    if i < s.len() {
        lemma_line(s[i]);
        if let Ok(c) = shapes::line_of(s[i]) {
            lemma_lines_from(s, from, i + 1, acc.push(c));
        } else {
            assert(!(shapes::line_of(s[i]) is Ok));
        }
    }
}

proof fn lemma_polygon(j: JsonView)
    ensures
        shapes::polygon_of(j) matches Ok(p) ==> rings(j, p),
        forall|p: PolygonView| #[trigger] rings(j, p) ==> shapes::polygon_of(j) is Ok,
{
    if let JsonView::Array(a) = j {
        if a.len() > 0 {
            lemma_line(a[0]);
            lemma_lines_from(a, 1, 1, Seq::empty());
            assert forall|p: PolygonView| #[trigger] rings(j, p) implies shapes::polygon_of(
                j,
            ) is Ok by {
                assert(positions(a[0], p.exterior));
                assert forall|k: int| 1 <= k < a.len() implies shapes::line_of(
                    #[trigger] a[k],
                ) is Ok by {
                    assert(positions(a[k], p.holes[k - 1]));
                    lemma_line(a[k]);
                }
            }
        }
    }
}

proof fn lemma_polygons_from(s: Seq<JsonView>, i: int, acc: Seq<PolygonView>)
    requires
        0 <= i <= s.len(),
        acc.len() == i,
        forall|k: int| 0 <= k < i ==> rings(#[trigger] s[k], acc[k]),
    ensures
        shapes::polygons_from(s, i, acc) matches Ok(c) ==> ring_lists(JsonView::Array(s), c),
        shapes::polygons_from(s, i, acc) is Ok <==> forall|k: int|
            i <= k < s.len() ==> shapes::polygon_of(#[trigger] s[k]) is Ok,
    decreases s.len() - i,
{
    if i < s.len() {
        lemma_polygon(s[i]);
        if let Ok(c) = shapes::polygon_of(s[i]) {
            lemma_polygons_from(s, i + 1, acc.push(c));
        } else {
            assert(!(shapes::polygon_of(s[i]) is Ok));
        }
    }
}

/// What is read of an object with coordinates.
proof fn lemma_simple(j: JsonView, ms: Seq<MemberView>, ty: Seq<char>, c: JsonView)
    requires
        j == JsonView::Object(ms),
        shapes::simple_name(ty),
        holds(ms, "type"@, JsonView::Text(ty)),
        holds(ms, "coordinates"@, c),
    ensures
        shapes::simple_of(ty, c) matches Ok(g) ==> describes(j, g),
{
    assert(typed(j, ty, "coordinates"@, c));
    law_positions_are_read(c);
    lemma_line(c);
    lemma_polygon(c);
    if let JsonView::Array(a) = c {
        lemma_coords_from(a, 0, Seq::empty());
        lemma_lines_from(a, 0, 0, Seq::empty());
        lemma_polygons_from(a, 0, Seq::empty());
    }
}

/// A geometry that is read is the one that the value describes.
pub proof fn law_read_geometry_is_described(j: JsonView)
    ensures
        shapes::geometry_of(j) matches Ok(g) ==> describes(j, g),
    decreases j, 0int,
{
    if let JsonView::Object(ms) = j {
        law_get_is_the_first(ms, "type"@);
        if let Some(JsonView::Text(ty)) = json::get(ms, "type"@) {
            if shapes::simple_name(ty) {
                law_get_is_the_first(ms, "coordinates"@);
                if let Some(c) = json::get(ms, "coordinates"@) {
                    lemma_simple(j, ms, ty, c);
                }
            } else if ty == "GeometryCollection"@ {
                law_get_is_the_first(ms, "geometries"@);
                shapes::lemma_get_smaller(ms, "geometries"@, 0);
                if let Some(JsonView::Array(items)) = json::get(ms, "geometries"@) {
                    assert(decreases_to!(j => items));
                    lemma_geometries_from(items, 0, Seq::empty());
                    assert(typed(
                        j,
                        "GeometryCollection"@,
                        "geometries"@,
                        JsonView::Array(items),
                    ));
                }
            }
        }
    }
}

proof fn lemma_geometries_from(s: Seq<JsonView>, i: int, acc: Seq<GeometryView>)
    requires
        0 <= i <= s.len(),
        acc.len() == i,
        forall|k: int| 0 <= k < i ==> describes(#[trigger] s[k], acc[k]),
    ensures
        shapes::geometries_from(s, i, acc) matches Ok(c) ==> c.len() == s.len() && forall|k: int|
            0 <= k < s.len() ==> describes(#[trigger] s[k], c[k]),
    decreases s, s.len() - i,
{
    if i < s.len() {
        law_read_geometry_is_described(s[i]);
        if let Ok(g) = shapes::geometry_of(s[i]) {
            lemma_geometries_from(s, i + 1, acc.push(g));
        }
    }
}

/// Every value that describes a geometry is read.
pub proof fn law_described_geometry_is_read(j: JsonView, g: GeometryView)
    requires
        describes(j, g),
    ensures
        shapes::geometry_of(j) is Ok,
    decreases g, 0int,
{
    laws::lemma_names_differ();
    if let JsonView::Object(ms) = j {
        law_get_is_the_first(ms, "type"@);
        law_get_is_the_first(ms, "coordinates"@);
        law_get_is_the_first(ms, "geometries"@);
        match g {
            GeometryView::Point(c) => {
                let v = choose|v: JsonView| #[trigger]
                    typed(j, "Point"@, "coordinates"@, v) && position(v, c);
                law_positions_are_read(v);
            },
            GeometryView::LineString(s) => {
                let v = choose|v: JsonView| #[trigger]
                    typed(j, "LineString"@, "coordinates"@, v) && positions(v, s);
                lemma_line(v);
            },
            GeometryView::Polygon(p) => {
                let v = choose|v: JsonView| #[trigger]
                    typed(j, "Polygon"@, "coordinates"@, v) && rings(v, p);
                lemma_polygon(v);
            },
            GeometryView::MultiPoint(s) => {
                let v = choose|v: JsonView| #[trigger]
                    typed(j, "MultiPoint"@, "coordinates"@, v) && positions(v, s);
                lemma_line(v);
            },
            GeometryView::MultiLineString(s) => {
                let v = choose|v: JsonView| #[trigger]
                    typed(j, "MultiLineString"@, "coordinates"@, v) && lines(v, s);
                let a = v->Array_0;
                lemma_lines_from(a, 0, 0, Seq::empty());
                assert forall|k: int| 0 <= k < a.len() implies shapes::line_of(
                    #[trigger] a[k],
                ) is Ok by {
                    assert(positions(a[k], s[k]));
                    lemma_line(a[k]);
                }
            },
            GeometryView::MultiPolygon(s) => {
                let v = choose|v: JsonView| #[trigger]
                    typed(j, "MultiPolygon"@, "coordinates"@, v) && ring_lists(v, s);
                let a = v->Array_0;
                lemma_polygons_from(a, 0, Seq::empty());
                assert forall|k: int| 0 <= k < a.len() implies shapes::polygon_of(
                    #[trigger] a[k],
                ) is Ok by {
                    assert(rings(a[k], s[k]));
                    lemma_polygon(a[k]);
                }
            },
            GeometryView::GeometryCollection(s) => {
                let a = choose|a: Seq<JsonView>| #[trigger]
                    typed(j, "GeometryCollection"@, "geometries"@, JsonView::Array(a))
                        && a.len() == s.len() && forall|i: int|
                        0 <= i < s.len() ==> describes(#[trigger] a[i], s[i]);
                lemma_described_geometries(a, s, 0, Seq::empty());
            },
            GeometryView::Empty(_) => {},
        }
    }
}

proof fn lemma_described_geometries(
    a: Seq<JsonView>,
    s: Seq<GeometryView>,
    i: int,
    acc: Seq<GeometryView>,
)
    requires
        0 <= i <= a.len(),
        a.len() == s.len(),
        forall|k: int| 0 <= k < s.len() ==> describes(#[trigger] a[k], s[k]),
    ensures
        shapes::geometries_from(a, i, acc) is Ok,
    decreases s, s.len() - i,
{
    if i < a.len() {
        assert(describes(a[i], s[i]));
        law_described_geometry_is_read(a[i], s[i]);
        let g = shapes::geometry_of(a[i])->Ok_0;
        lemma_described_geometries(a, s, i + 1, acc.push(g));
    }
}

// ---------------------------------------------------------------------------
// Features
// ---------------------------------------------------------------------------
/// A feature that is read has the geometry that its member `geometry` describes,
/// or none where that is null or missing; and the properties that its member
/// `properties` holds, or none.
pub proof fn law_feature_members(ms: Seq<MemberView>)
    ensures
        reader::feature_of(ms) matches Ok(f) ==> {
            &&& match f.geometry {
                None => missing(ms, "geometry"@) || holds(ms, "geometry"@, JsonView::Null),
                Some(g) => exists|v: JsonView| #[trigger]
                    holds(ms, "geometry"@, v) && describes(v, g),
            }
            &&& match f.properties {
                None => missing(ms, "properties"@) || holds(ms, "properties"@, JsonView::Null),
                Some(p) => holds(ms, "properties"@, JsonView::Object(p)),
            }
        },
{
    law_get_is_the_first(ms, "geometry"@);
    law_get_is_the_first(ms, "properties"@);
    if let Some(v) = json::get(ms, "geometry"@) {
        law_read_geometry_is_described(v);
    }
}

/// A feature is read wherever its geometry is null, missing or described, and
/// its properties are an object, null or missing.
pub proof fn law_feature_is_read(ms: Seq<MemberView>, g: GeometryView)
    requires
        missing(ms, "geometry"@) || holds(ms, "geometry"@, JsonView::Null) || exists|v: JsonView| #[trigger]
            holds(ms, "geometry"@, v) && describes(v, g),
        missing(ms, "properties"@) || holds(ms, "properties"@, JsonView::Null) || exists|
            p: Seq<MemberView>,
        | #[trigger]
            holds(ms, "properties"@, JsonView::Object(p)),
    ensures
        reader::feature_of(ms) is Ok,
{
    law_get_is_the_first(ms, "geometry"@);
    law_get_is_the_first(ms, "properties"@);
    json::lemma_key_from(ms, "geometry"@, 0);
    json::lemma_key_from(ms, "properties"@, 0);
    if exists|v: JsonView| #[trigger] holds(ms, "geometry"@, v) && describes(v, g) {
        let v = choose|v: JsonView| #[trigger] holds(ms, "geometry"@, v) && describes(v, g);
        law_described_geometry_is_read(v, g);
    }
}

// ---------------------------------------------------------------------------
// Schemas
// ---------------------------------------------------------------------------
/// Whether some feature has under that key a value of which `p` holds.
pub open spec fn some_value(rows: Seq<Row>, key: Seq<char>, p: spec_fn(JsonView) -> bool) -> bool {
    exists|i: int, j: int|
        0 <= i < rows.len() && rows[i] is Some && 0 <= j < rows[i]->0.len() && (
        #[trigger] rows[i]->0[j]).key == key && p(rows[i]->0[j].value)
}

proof fn lemma_shows(rows: Seq<Row>, key: Seq<char>, kind: properties::Kind)
    ensures
        properties::shows(rows, key, kind) == some_value(
            rows,
            key,
            |v: JsonView| properties::kind_of(v) == kind,
        ),
{
    if properties::shows(rows, key, kind) {
        let i = choose|i: int|
            0 <= i < rows.len() && properties::row_shows(#[trigger] rows[i], key, kind);
        let ms = rows[i]->0;
        let j = choose|j: int|
            0 <= j < ms.len() && (#[trigger] ms[j]).key == key && properties::kind_of(ms[j].value)
                == kind;
        assert(rows[i]->0[j].key == key);
    }
    if some_value(rows, key, |v: JsonView| properties::kind_of(v) == kind) {
        let (i, j) = choose|i: int, j: int|
            0 <= i < rows.len() && rows[i] is Some && 0 <= j < rows[i]->0.len() && (
            #[trigger] rows[i]->0[j]).key == key && properties::kind_of(rows[i]->0[j].value)
                == kind;
        assert(rows[i]->0[j].key == key);
        assert(properties::row_shows(rows[i], key, kind));
    }
}

proof fn lemma_some_weaker(
    rows: Seq<Row>,
    key: Seq<char>,
    p: spec_fn(JsonView) -> bool,
    q: spec_fn(JsonView) -> bool,
)
    requires
        some_value(rows, key, p),
        forall|v: JsonView| #[trigger] p(v) ==> q(v),
    ensures
        some_value(rows, key, q),
{
    let (i, j) = choose|i: int, j: int|
        0 <= i < rows.len() && rows[i] is Some && 0 <= j < rows[i]->0.len() && (
        #[trigger] rows[i]->0[j]).key == key && p(rows[i]->0[j].value);
    assert(rows[i]->0[j].key == key);
    assert(p(rows[i]->0[j].value));
}

/// The type of a field by the values under its key, nulls aside: booleans alone
/// make it `Bool`, whole numbers alone `Int64`, numbers of which one is not whole
/// `Float64`, and anything else, or nothing, `String`.
pub proof fn law_field_types(rows: Seq<Row>, key: Seq<char>)
    ensures
        ({
            let bools = some_value(rows, key, |v: JsonView| v is Bool);
            let whole = some_value(rows, key, |v: JsonView| v is UInt || v is NegInt);
            let broken = some_value(rows, key, |v: JsonView| v is Float);
            let others = some_value(
                rows,
                key,
                |v: JsonView| v is Text || v is Array || v is Object,
            );
            let ty = properties::field_type(rows, key);
            &&& bools && !whole && !broken && !others ==> ty == ValueType::Bool
            &&& whole && !bools && !broken && !others ==> ty == ValueType::Int64
            &&& broken && !bools && !others ==> ty == ValueType::Float64
            &&& others || (bools && (whole || broken)) || !(bools || whole || broken) ==> ty
                == ValueType::String
        }),
{
    lemma_shows(rows, key, properties::Kind::Bool);
    lemma_shows(rows, key, properties::Kind::Int);
    lemma_shows(rows, key, properties::Kind::Float);
    lemma_shows(rows, key, properties::Kind::Text);
    lemma_shows(rows, key, properties::Kind::Composite);
    let bool_kind = |v: JsonView| properties::kind_of(v) == properties::Kind::Bool;
    let int_kind = |v: JsonView| properties::kind_of(v) == properties::Kind::Int;
    let float_kind = |v: JsonView| properties::kind_of(v) == properties::Kind::Float;
    let text_kind = |v: JsonView| properties::kind_of(v) == properties::Kind::Text;
    let other_kind = |v: JsonView| properties::kind_of(v) == properties::Kind::Composite;
    let bools = |v: JsonView| v is Bool;
    let whole = |v: JsonView| v is UInt || v is NegInt;
    let broken = |v: JsonView| v is Float;
    let others = |v: JsonView| v is Text || v is Array || v is Object;
    assert(bool_kind =~= bools);
    assert(int_kind =~= whole);
    assert(float_kind =~= broken);
    if some_value(rows, key, text_kind) {
        lemma_some_weaker(rows, key, text_kind, others);
    }
    if some_value(rows, key, other_kind) {
        lemma_some_weaker(rows, key, other_kind, others);
    }
    if some_value(rows, key, others) {
        let (i, j) = choose|i: int, j: int|
            0 <= i < rows.len() && rows[i] is Some && 0 <= j < rows[i]->0.len() && (
            #[trigger] rows[i]->0[j]).key == key && others(rows[i]->0[j].value);
        assert(rows[i]->0[j].key == key);
        let v = rows[i]->0[j].value;
        if v is Text {
            assert(text_kind(v));
            assert(some_value(rows, key, text_kind));
        } else {
            assert(other_kind(v));
            assert(some_value(rows, key, other_kind));
        }
    }
}

/// A field may be null exactly where some feature has null under its key or does
/// not have the key.
pub proof fn law_field_nullable(rows: Seq<Row>, key: Seq<char>)
    ensures
        properties::field_nullable(rows, key) <==> (some_value(rows, key, |v: JsonView| v is Null)
            || exists|i: int|
            0 <= i < rows.len() && ((#[trigger] rows[i]) is None || missing(rows[i]->0, key))),
{
    lemma_shows(rows, key, properties::Kind::Null);
    assert((|v: JsonView| properties::kind_of(v) == properties::Kind::Null) =~= (|v: JsonView|
        v is Null));
    if properties::lacks(rows, key) {
        let i = choose|i: int| 0 <= i < rows.len() && properties::row_lacks(#[trigger] rows[i], key);
        assert(rows[i] is None || missing(rows[i]->0, key));
    }
    if exists|i: int|
        0 <= i < rows.len() && ((#[trigger] rows[i]) is None || missing(rows[i]->0, key)) {
        let i = choose|i: int|
            0 <= i < rows.len() && ((#[trigger] rows[i]) is None || missing(rows[i]->0, key));
        assert(properties::row_lacks(rows[i], key));
    }
}

/// There is one field for each key that some feature has, and no other; each has
/// its key for a name, and no two have the same.
pub proof fn law_fields_are_the_keys(rows: Seq<Row>, key: Seq<char>)
    ensures
        (exists|k: int|
            0 <= k < properties::fields_of(rows).len() && (#[trigger] properties::fields_of(
                rows,
            )[k]).name == key) <==> some_value(rows, key, |v: JsonView| true),
        forall|i: int, j: int|
            0 <= i < j < properties::fields_of(rows).len() ==> (#[trigger] properties::fields_of(
                rows,
            )[i]).name != (#[trigger] properties::fields_of(rows)[j]).name,
        forall|i: int|
            #![trigger properties::fields_of(rows)[i]]
            0 <= i < properties::fields_of(rows).len() ==> {
                let f = properties::fields_of(rows)[i];
                f.ty == properties::field_type(rows, f.name) && f.nullable
                    == properties::field_nullable(rows, f.name) && f.alias is None && f.width is None
            },
{
    let keys = properties::keys_of(rows);
    let fields = properties::fields_of(rows);
    properties::lemma_keys(rows, key);
    lemma_distinct_keys(rows);
    if keys.contains(key) {
        let k = choose|k: int| 0 <= k < keys.len() && keys[k] == key;
        assert(fields[k].name == key);
        let i = choose|i: int|
            0 <= i < rows.len() && !properties::row_lacks(#[trigger] rows[i], key);
        let ms = rows[i]->0;
        let j = choose|j: int| 0 <= j < ms.len() && (#[trigger] ms[j]).key == key;
        assert(rows[i]->0[j].key == key);
        assert(some_value(rows, key, |v: JsonView| true));
    }
    if some_value(rows, key, |v: JsonView| true) {
        let (i, j) = choose|i: int, j: int|
            0 <= i < rows.len() && rows[i] is Some && 0 <= j < rows[i]->0.len() && (
            #[trigger] rows[i]->0[j]).key == key;
        assert(rows[i]->0[j].key == key);
        assert(!properties::row_lacks(rows[i], key));
        let k = choose|k: int| 0 <= k < keys.len() && keys[k] == key;
        assert(fields[k].name == key);
    }
    if exists|k: int| 0 <= k < fields.len() && (#[trigger] fields[k]).name == key {
        let k = choose|k: int| 0 <= k < fields.len() && (#[trigger] fields[k]).name == key;
        assert(keys[k] == key);
        assert(keys.contains(key));
    }
}

proof fn lemma_distinct_add(keys: Seq<Seq<char>>, ms: Seq<MemberView>, i: int)
    requires
        0 <= i,
        keys.no_duplicates(),
    ensures
        properties::add_keys(keys, ms, i).no_duplicates(),
    decreases ms.len() - i,
{
    if i < ms.len() {
        if keys.contains(ms[i].key) {
            lemma_distinct_add(keys, ms, i + 1);
        } else {
            lemma_distinct_add(keys.push(ms[i].key), ms, i + 1);
        }
    }
}

proof fn lemma_distinct_keys(rows: Seq<Row>)
    ensures
        properties::keys_of(rows).no_duplicates(),
    decreases rows.len(),
{
    if rows.len() > 0 {
        lemma_distinct_keys(rows.drop_last());
        if let Some(ms) = rows.last() {
            lemma_distinct_add(properties::keys_of(rows.drop_last()), ms, 0);
        }
    }
}

// ---------------------------------------------------------------------------
// Attributes
// ---------------------------------------------------------------------------
/// What an attribute of each type says of the property that it was read from.
pub proof fn law_attributes_say_what_was_there(m: MemberView, ty: ValueType)
    ensures
        properties::attribute_of(None, ty) is Null,
        m.value is Null ==> properties::attribute_of(Some(m), ty) is Null,
        !(m.value is Null) ==> {
            let v = properties::attribute_of(Some(m), ty);
            &&& ty == ValueType::Bool ==> match m.value {
                JsonView::Bool(b) => v == ValueView::Bool(b),
                _ => v is Null,
            }
            &&& ty == ValueType::Int64 ==> match m.value {
                JsonView::UInt(n) => if n <= i64::MAX {
                    v matches ValueView::Int64(k) && k == n
                } else {
                    v is Null
                },
                JsonView::NegInt(n) => v == ValueView::Int64(n),
                _ => v is Null,
            }
            &&& ty == ValueType::Int32 ==> match m.value {
                JsonView::UInt(n) => if n <= i32::MAX {
                    v matches ValueView::Int32(k) && k == n
                } else {
                    v is Null
                },
                JsonView::NegInt(n) => if i32::MIN <= n <= i32::MAX {
                    v matches ValueView::Int32(k) && k == n
                } else {
                    v is Null
                },
                _ => v is Null,
            }
            &&& ty == ValueType::Int16 ==> match m.value {
                JsonView::UInt(n) => if n <= i16::MAX {
                    v matches ValueView::Int16(k) && k == n
                } else {
                    v is Null
                },
                JsonView::NegInt(n) => if i16::MIN <= n <= i16::MAX {
                    v matches ValueView::Int16(k) && k == n
                } else {
                    v is Null
                },
                _ => v is Null,
            }
            &&& ty == ValueType::Float64 ==> if numeric(m.value) {
                v matches ValueView::Float64(b) && stands_for(m.value, b)
            } else {
                v is Null
            }
            &&& ty == ValueType::String ==> match m.value {
                JsonView::Text(s) => v == ValueView::Text(s),
                _ => v == ValueView::Text(m.text),
            }
        },
{
    law_numbers_are_nearest(m.value);
}

/// A property in a field of singles is the single nearest to the double that it
/// stands for, as long as that is no further out than the largest.
pub proof fn law_attributes_of_singles(m: MemberView, c: nat)
    requires
        numeric(m.value),
    ensures
        properties::attribute_of(Some(m), ValueType::Float32) matches ValueView::Float32(r) ==> {
            let d = json::double_of(m.value)->0;
            let r32 = float_convert::magnitude32(r) as nat;
            let d64 = float_bits::magnitude(d) as u64;
            &&& stands_for(m.value, d)
            &&& float_bits::finite(d)
            &&& r >= 0x8000_0000 <==> d >= 0x8000_0000_0000_0000
            &&& r32 < 0x7f80_0000 ==> single_laws::gap(d64, r32) <= single_laws::gap(d64, c)
        },
        properties::attribute_of(Some(m), ValueType::Float32) is Float32 <==> float_bits::finite(
            json::double_of(m.value)->0,
        ),
{
    law_numbers_are_nearest(m.value);
    let d = json::double_of(m.value)->0;
    if float_bits::finite(d) {
        let d64 = float_bits::magnitude(d) as u64;
        let n = float_convert::narrowed(d64 as nat);
        assert(n <= 0x7f80_0000);
        if n < 0x7f80_0000 {
            single_laws::law_narrowing_takes_the_nearest(d64, c);
        }
    }
}

/// The identifier of a feature: a whole number that fits, or a text that is one;
/// any other text is an identifier that is not kept, and anything else is none.
pub proof fn law_identifiers(j: JsonView)
    ensures
        reader::id_of(None) == FeatureId::Absent,
        match j {
            JsonView::UInt(n) => if n <= i64::MAX {
                reader::id_of(Some(j)) matches FeatureId::Number(k) && k == n
            } else {
                reader::id_of(Some(j)) == FeatureId::Absent
            },
            JsonView::NegInt(n) => reader::id_of(Some(j)) == FeatureId::Number(n),
            JsonView::Text(s) => match text::signed_of(s) {
                Some(n) => reader::id_of(Some(j)) == FeatureId::Number(n as i64),
                None => reader::id_of(Some(j)) == FeatureId::Other,
            },
            _ => reader::id_of(Some(j)) == FeatureId::Absent,
        },
{
}

// ---------------------------------------------------------------------------
// Keys
// ---------------------------------------------------------------------------
/// Whether two texts are the same before place `i`, and there the first ends or
/// has the smaller character.
pub open spec fn smaller_at(a: Seq<char>, b: Seq<char>, i: int) -> bool {
    &&& 0 <= i <= a.len()
    &&& i < b.len()
    &&& a.take(i) == b.take(i)
    &&& i == a.len() || a[i] < b[i]
}

/// Keys are ordered as in a dictionary.
pub proof fn law_keys_are_ordered(a: Seq<char>, b: Seq<char>)
    ensures
        json::precedes(a, b) <==> exists|i: int| #[trigger] smaller_at(a, b, i),
    decreases a.len(),
{
    if b.len() > 0 && a.len() == 0 {
        assert(a.take(0) =~= b.take(0));
        assert(smaller_at(a, b, 0));
    } else if b.len() > 0 {
        let s = a.skip(1);
        let t = b.skip(1);
        law_keys_are_ordered(s, t);
        if a[0] == b[0] {
            if exists|i: int| #[trigger] smaller_at(s, t, i) {
                let i = choose|i: int| #[trigger] smaller_at(s, t, i);
                assert(a.take(i + 1) =~= seq![a[0]] + s.take(i));
                assert(b.take(i + 1) =~= seq![b[0]] + t.take(i));
                assert(smaller_at(a, b, i + 1));
            }
            if exists|i: int| #[trigger] smaller_at(a, b, i) {
                let i = choose|i: int| #[trigger] smaller_at(a, b, i);
                assert(i > 0);
                assert(s.take(i - 1) =~= a.take(i).skip(1));
                assert(t.take(i - 1) =~= b.take(i).skip(1));
                assert(smaller_at(s, t, i - 1));
            }
        } else {
            if a[0] < b[0] {
                assert(a.take(0) =~= b.take(0));
                assert(smaller_at(a, b, 0));
            }
            if exists|i: int| #[trigger] smaller_at(a, b, i) {
                let i = choose|i: int| #[trigger] smaller_at(a, b, i);
                if i > 0 {
                    assert(a.take(i)[0] == b.take(i)[0]);
                }
            }
        }
    }
}

} // verus!
