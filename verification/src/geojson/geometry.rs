//! Geometries as GeoJSON objects.
//!
//! A point is `[x, y]`, a line string a list of points, a polygon a list of
//! rings whose first is the exterior, and the multi-part types are lists of
//! those. A collection has `geometries` in place of `coordinates`.

use crate::float_bits;
use crate::float_bits::is_finite;
use crate::geojson::error::{GeoJsonError, GeoJsonErrorView, Outcome};
use crate::geojson::json;
use crate::geojson::json::{find_value, Json, JsonView, Member, MemberView};
use crate::geometry;
use crate::geometry::{Coord, Geometry, GeometryView, LineString, Polygon, PolygonView};
use crate::text;
use crate::text::{push_dec, same};
use vstd::prelude::*;
use vstd::string::*;

verus! {

// ---------------------------------------------------------------------------
// Reading
// ---------------------------------------------------------------------------
/// A coordinate: the first two numbers of an array; what follows them is dropped.
pub open spec fn coord_of(j: JsonView) -> Outcome<Coord> {
    match j {
        JsonView::Array(a) => if a.len() < 2 {
            Err(
                GeoJsonErrorView::Malformed(
                    "coordinate needs ≥ 2 numbers, got "@ + text::dec(a.len()),
                ),
            )
        } else {
            match (json::double_of(a[0]), json::double_of(a[1])) {
                (None, _) => Err(GeoJsonErrorView::Malformed("coordinate x must be a number"@)),
                (_, None) => Err(GeoJsonErrorView::Malformed("coordinate y must be a number"@)),
                (Some(x), Some(y)) => Ok(Coord { x, y, z: None, m: None }),
            }
        },
        _ => Err(GeoJsonErrorView::Malformed("coordinate must be array"@)),
    }
}

/// The coordinates of the items from `i` on, behind those in `acc`.
pub open spec fn coords_from(s: Seq<JsonView>, i: int, acc: Seq<Coord>) -> Outcome<Seq<Coord>>
    decreases s.len() - i,
{
    if i >= s.len() {
        Ok(acc)
    } else {
        match coord_of(s[i]) {
            Err(e) => Err(e),
            Ok(c) => coords_from(s, i + 1, acc.push(c)),
        }
    }
}

/// A line string.
pub open spec fn line_of(j: JsonView) -> Outcome<Seq<Coord>> {
    match j {
        JsonView::Array(a) => coords_from(a, 0, Seq::empty()),
        _ => Err(GeoJsonErrorView::Malformed("LineString coordinates must be array"@)),
    }
}

/// The line strings of the items from `i` on, behind those in `acc`.
pub open spec fn lines_from(s: Seq<JsonView>, i: int, acc: Seq<Seq<Coord>>) -> Outcome<
    Seq<Seq<Coord>>,
>
    decreases s.len() - i,
{
    if i >= s.len() {
        Ok(acc)
    } else {
        match line_of(s[i]) {
            Err(e) => Err(e),
            Ok(c) => lines_from(s, i + 1, acc.push(c)),
        }
    }
}

/// A polygon.
pub open spec fn polygon_of(j: JsonView) -> Outcome<PolygonView> {
    match j {
        JsonView::Array(a) => if a.len() == 0 {
            Err(GeoJsonErrorView::Malformed("Polygon must have ≥ 1 ring"@))
        } else {
            match line_of(a[0]) {
                Err(e) => Err(e),
                Ok(exterior) => match lines_from(a, 1, Seq::empty()) {
                    Err(e) => Err(e),
                    Ok(holes) => Ok(PolygonView { exterior, holes }),
                },
            }
        },
        _ => Err(GeoJsonErrorView::Malformed("Polygon coordinates must be array of rings"@)),
    }
}

/// The polygons of the items from `i` on, behind those in `acc`.
pub open spec fn polygons_from(s: Seq<JsonView>, i: int, acc: Seq<PolygonView>) -> Outcome<
    Seq<PolygonView>,
>
    decreases s.len() - i,
{
    if i >= s.len() {
        Ok(acc)
    } else {
        match polygon_of(s[i]) {
            Err(e) => Err(e),
            Ok(p) => polygons_from(s, i + 1, acc.push(p)),
        }
    }
}

/// A geometry of one of the six types with coordinates.
pub open spec fn simple_of(ty: Seq<char>, c: JsonView) -> Outcome<GeometryView> {
    if ty == "Point"@ {
        match coord_of(c) {
            Err(e) => Err(e),
            Ok(p) => Ok(GeometryView::Point(p)),
        }
    } else if ty == "LineString"@ {
        match line_of(c) {
            Err(e) => Err(e),
            Ok(l) => Ok(GeometryView::LineString(l)),
        }
    } else if ty == "Polygon"@ {
        match polygon_of(c) {
            Err(e) => Err(e),
            Ok(p) => Ok(GeometryView::Polygon(p)),
        }
    } else if ty == "MultiPoint"@ {
        match c {
            JsonView::Array(a) => match coords_from(a, 0, Seq::empty()) {
                Err(e) => Err(e),
                Ok(v) => Ok(GeometryView::MultiPoint(v)),
            },
            _ => Err(GeoJsonErrorView::Malformed("MultiPoint coordinates must be array"@)),
        }
    } else if ty == "MultiLineString"@ {
        match c {
            JsonView::Array(a) => match lines_from(a, 0, Seq::empty()) {
                Err(e) => Err(e),
                Ok(v) => Ok(GeometryView::MultiLineString(v)),
            },
            _ => Err(GeoJsonErrorView::Malformed("MultiLineString coordinates must be array"@)),
        }
    } else {
        match c {
            JsonView::Array(a) => match polygons_from(a, 0, Seq::empty()) {
                Err(e) => Err(e),
                Ok(v) => Ok(GeometryView::MultiPolygon(v)),
            },
            _ => Err(GeoJsonErrorView::Malformed("MultiPolygon coordinates must be array"@)),
        }
    }
}

/// Whether the name is one of the six types with coordinates.
pub open spec fn simple_name(s: Seq<char>) -> bool {
    s == "Point"@ || s == "LineString"@ || s == "Polygon"@ || s == "MultiPoint"@ || s
        == "MultiLineString"@ || s == "MultiPolygon"@
}

/// The value under a key is smaller than the object.
pub proof fn lemma_get_smaller(ms: Seq<MemberView>, key: Seq<char>, i: int)
    requires
        0 <= i,
    ensures
        match json::key_from(ms, key, i) {
            Some(k) => 0 <= k < ms.len() && decreases_to!(ms => ms[k].value),
            None => true,
        },
    decreases ms.len() - i,
{
    if i < ms.len() {
        if ms[i].key == key {
            assert(decreases_to!(ms => ms[i]));
            assert(decreases_to!(ms[i] => ms[i].value));
        } else {
            lemma_get_smaller(ms, key, i + 1);
        }
    }
}

/// The geometry that a JSON value describes.
pub open spec fn geometry_of(j: JsonView) -> Outcome<GeometryView>
    decreases j, 0int,
{
    match j {
        JsonView::Object(ms) => match json::text_of(json::get(ms, "type"@)) {
            None => Err(GeoJsonErrorView::Malformed("geometry missing 'type'"@)),
            Some(ty) => if simple_name(ty) {
                match json::get(ms, "coordinates"@) {
                    None => Err(GeoJsonErrorView::Malformed("geometry missing 'coordinates'"@)),
                    Some(c) => simple_of(ty, c),
                }
            } else if ty == "GeometryCollection"@ {
                proof {
                    lemma_get_smaller(ms, "geometries"@, 0);
                }
                match json::get(ms, "geometries"@) {
                    Some(JsonView::Array(items)) => match geometries_from(
                        items,
                        0,
                        Seq::empty(),
                    ) {
                        Err(e) => Err(e),
                        Ok(v) => Ok(GeometryView::GeometryCollection(v)),
                    },
                    _ => Err(
                        GeoJsonErrorView::Malformed(
                            "GeometryCollection requires 'geometries' array"@,
                        ),
                    ),
                }
            } else {
                Err(GeoJsonErrorView::Unsupported("geometry type '"@ + ty + "'"@))
            },
        },
        _ => Err(GeoJsonErrorView::Malformed("geometry must be a JSON object"@)),
    }
}

/// The geometries of the items from `i` on, behind those in `acc`.
pub open spec fn geometries_from(s: Seq<JsonView>, i: int, acc: Seq<GeometryView>) -> Outcome<
    Seq<GeometryView>,
>
    decreases s, s.len() - i,
    when 0 <= i
{
    if i >= s.len() {
        Ok(acc)
    } else {
        match geometry_of(s[i]) {
            Err(e) => Err(e),
            Ok(g) => geometries_from(s, i + 1, acc.push(g)),
        }
    }
}

fn parse_coord(v: &Json) -> (r: Result<Coord, GeoJsonError>)
    ensures
        match r {
            Ok(c) => coord_of(v@) == Ok::<Coord, GeoJsonErrorView>(c),
            Err(e) => coord_of(v@) == Err::<Coord, GeoJsonErrorView>(e@),
        },
{
    match v.as_array() {
        None => Err(GeoJsonError::malformed("coordinate must be array")),
        Some(a) => {
            if a.len() < 2 {
                let mut m: String = "coordinate needs ≥ 2 numbers, got ".to_owned();
                push_dec(&mut m, a.len() as u64);
                return Err(GeoJsonError::Malformed(m));
            }
            let x: u64 = match a[0].as_f64() {
                None => return Err(GeoJsonError::malformed("coordinate x must be a number")),
                Some(x) => x,
            };
            let y: u64 = match a[1].as_f64() {
                None => return Err(GeoJsonError::malformed("coordinate y must be a number")),
                Some(y) => y,
            };
            Ok(Coord::xy(x, y))
        },
    }
}

fn parse_coords(a: &Vec<Json>) -> (r: Result<Vec<Coord>, GeoJsonError>)
    ensures
        match r {
            Ok(v) => coords_from(json::items_view(a@), 0, Seq::empty()) == Ok::<
                Seq<Coord>,
                GeoJsonErrorView,
            >(v@),
            Err(e) => coords_from(json::items_view(a@), 0, Seq::empty()) == Err::<
                Seq<Coord>,
                GeoJsonErrorView,
            >(e@),
        },
{
    let mut out: Vec<Coord> = Vec::new();
    let mut i: usize = 0;
    while i < a.len()
        invariant
            i <= a@.len(),
            coords_from(json::items_view(a@), 0, Seq::empty()) == coords_from(
                json::items_view(a@),
                i as int,
                out@,
            ),
        decreases a@.len() - i,
    {
        match parse_coord(&a[i]) {
            Err(e) => return Err(e),
            Ok(c) => out.push(c),
        }
        i = i + 1;
    }
    Ok(out)
}

fn parse_linestring(v: &Json) -> (r: Result<LineString, GeoJsonError>)
    ensures
        match r {
            Ok(l) => line_of(v@) == Ok::<Seq<Coord>, GeoJsonErrorView>(l@),
            Err(e) => line_of(v@) == Err::<Seq<Coord>, GeoJsonErrorView>(e@),
        },
{
    match v.as_array() {
        None => Err(GeoJsonError::malformed("LineString coordinates must be array")),
        Some(a) => match parse_coords(a) {
            Err(e) => Err(e),
            Ok(c) => Ok(LineString::new(c)),
        },
    }
}

fn parse_lines(a: &Vec<Json>, from: usize) -> (r: Result<Vec<LineString>, GeoJsonError>)
    requires
        from <= a@.len(),
    ensures
        match r {
            Ok(v) => lines_from(json::items_view(a@), from as int, Seq::empty()) == Ok::<
                Seq<Seq<Coord>>,
                GeoJsonErrorView,
            >(geometry::lines_view(v@)),
            Err(e) => lines_from(json::items_view(a@), from as int, Seq::empty()) == Err::<
                Seq<Seq<Coord>>,
                GeoJsonErrorView,
            >(e@),
        },
{
    let mut out: Vec<LineString> = Vec::new();
    let mut i: usize = from;
    proof {
        assert(geometry::lines_view(out@) =~= Seq::empty());
    }
    while i < a.len()
        invariant
            from <= i <= a@.len(),
            lines_from(json::items_view(a@), from as int, Seq::empty()) == lines_from(
                json::items_view(a@),
                i as int,
                geometry::lines_view(out@),
            ),
        decreases a@.len() - i,
    {
        let ghost before = geometry::lines_view(out@);
        match parse_linestring(&a[i]) {
            Err(e) => return Err(e),
            Ok(c) => {
                out.push(c);
                proof {
                    assert(geometry::lines_view(out@) =~= before.push(c@));
                }
            },
        }
        i = i + 1;
    }
    Ok(out)
}

fn parse_polygon(v: &Json) -> (r: Result<Polygon, GeoJsonError>)
    ensures
        match r {
            Ok(p) => polygon_of(v@) == Ok::<PolygonView, GeoJsonErrorView>(p@),
            Err(e) => polygon_of(v@) == Err::<PolygonView, GeoJsonErrorView>(e@),
        },
{
    match v.as_array() {
        None => Err(GeoJsonError::malformed("Polygon coordinates must be array of rings")),
        Some(a) => {
            if a.len() == 0 {
                return Err(GeoJsonError::malformed("Polygon must have ≥ 1 ring"));
            }
            let exterior: LineString = match parse_linestring(&a[0]) {
                Err(e) => return Err(e),
                Ok(l) => l,
            };
            match parse_lines(a, 1) {
                Err(e) => Err(e),
                Ok(holes) => Ok(Polygon::new(exterior, holes)),
            }
        },
    }
}

fn parse_polygons(a: &Vec<Json>) -> (r: Result<Vec<Polygon>, GeoJsonError>)
    ensures
        match r {
            Ok(v) => polygons_from(json::items_view(a@), 0, Seq::empty()) == Ok::<
                Seq<PolygonView>,
                GeoJsonErrorView,
            >(geometry::polygons_view(v@)),
            Err(e) => polygons_from(json::items_view(a@), 0, Seq::empty()) == Err::<
                Seq<PolygonView>,
                GeoJsonErrorView,
            >(e@),
        },
{
    let mut out: Vec<Polygon> = Vec::new();
    let mut i: usize = 0;
    proof {
        assert(geometry::polygons_view(out@) =~= Seq::empty());
    }
    while i < a.len()
        invariant
            i <= a@.len(),
            polygons_from(json::items_view(a@), 0, Seq::empty()) == polygons_from(
                json::items_view(a@),
                i as int,
                geometry::polygons_view(out@),
            ),
        decreases a@.len() - i,
    {
        let ghost before = geometry::polygons_view(out@);
        match parse_polygon(&a[i]) {
            Err(e) => return Err(e),
            Ok(p) => {
                let ghost view = p@;
                out.push(p);
                proof {
                    assert(geometry::polygons_view(out@) =~= before.push(view));
                }
            },
        }
        i = i + 1;
    }
    Ok(out)
}

fn parse_simple(ty: &str, c: &Json) -> (r: Result<Geometry, GeoJsonError>)
    requires
        simple_name(ty@),
    ensures
        match r {
            Ok(g) => simple_of(ty@, c@) == Ok::<GeometryView, GeoJsonErrorView>(g@),
            Err(e) => simple_of(ty@, c@) == Err::<GeometryView, GeoJsonErrorView>(e@),
        },
{
    if same(ty, "Point") {
        match parse_coord(c) {
            Err(e) => Err(e),
            Ok(p) => Ok(Geometry::Point(p)),
        }
    } else if same(ty, "LineString") {
        match parse_linestring(c) {
            Err(e) => Err(e),
            Ok(l) => Ok(Geometry::LineString(l)),
        }
    } else if same(ty, "Polygon") {
        match parse_polygon(c) {
            Err(e) => Err(e),
            Ok(p) => Ok(Geometry::Polygon(p)),
        }
    } else if same(ty, "MultiPoint") {
        match c.as_array() {
            None => Err(GeoJsonError::malformed("MultiPoint coordinates must be array")),
            Some(a) => match parse_coords(a) {
                Err(e) => Err(e),
                Ok(v) => Ok(Geometry::MultiPoint(v)),
            },
        }
    } else if same(ty, "MultiLineString") {
        match c.as_array() {
            None => Err(GeoJsonError::malformed("MultiLineString coordinates must be array")),
            Some(a) => match parse_lines(a, 0) {
                Err(e) => Err(e),
                Ok(v) => Ok(Geometry::MultiLineString(v)),
            },
        }
    } else {
        match c.as_array() {
            None => Err(GeoJsonError::malformed("MultiPolygon coordinates must be array")),
            Some(a) => match parse_polygons(a) {
                Err(e) => Err(e),
                Ok(v) => Ok(Geometry::MultiPolygon(v)),
            },
        }
    }
}

fn is_simple_name(s: &str) -> (r: bool)
    ensures
        r == simple_name(s@),
{
    same(s, "Point") || same(s, "LineString") || same(s, "Polygon") || same(s, "MultiPoint") || same(
        s,
        "MultiLineString",
    ) || same(s, "MultiPolygon")
}

/// Reads a geometry.
pub fn from_json(obj: &Json) -> (r: Result<Geometry, GeoJsonError>)
    ensures
        match r {
            Ok(g) => geometry_of(obj@) == Ok::<GeometryView, GeoJsonErrorView>(g@),
            Err(e) => geometry_of(obj@) == Err::<GeometryView, GeoJsonErrorView>(e@),
        },
    decreases obj@, 0int,
{
    let ms: &Vec<Member> = match obj.as_object() {
        None => return Err(GeoJsonError::malformed("geometry must be a JSON object")),
        Some(ms) => ms,
    };
    let ty: &str = match find_value(ms, "type") {
        None => return Err(GeoJsonError::malformed("geometry missing 'type'")),
        Some(j) => match j.as_str() {
            None => return Err(GeoJsonError::malformed("geometry missing 'type'")),
            Some(s) => s,
        },
    };
    if is_simple_name(ty) {
        return match find_value(ms, "coordinates") {
            None => Err(GeoJsonError::malformed("geometry missing 'coordinates'")),
            Some(c) => parse_simple(ty, c),
        };
    }
    if same(ty, "GeometryCollection") {
        let items: &Vec<Json> = match find_value(ms, "geometries") {
            None => return Err(
                GeoJsonError::malformed("GeometryCollection requires 'geometries' array"),
            ),
            Some(j) => match j.as_array() {
                None => return Err(
                    GeoJsonError::malformed("GeometryCollection requires 'geometries' array"),
                ),
                Some(a) => {
                    proof {
                        lemma_get_smaller(json::members_view(ms@), "geometries"@, 0);
                        assert(decreases_to!(obj@ => obj@->Object_0));
                        assert(decreases_to!(j@ => j@->Array_0));
                    }
                    a
                },
            },
        };
        return match parse_geometries(items) {
            Err(e) => Err(e),
            Ok(v) => {
                proof {
                    geometry::lemma_collection_view(v);
                }
                Ok(Geometry::GeometryCollection(v))
            },
        };
    }
    let mut m: String = "geometry type '".to_owned();
    m.append(ty);
    m.append("'");
    Err(GeoJsonError::Unsupported(m))
}

fn parse_geometries(items: &Vec<Json>) -> (r: Result<Vec<Geometry>, GeoJsonError>)
    ensures
        match r {
            Ok(v) => geometries_from(json::items_view(items@), 0, Seq::empty()) == Ok::<
                Seq<GeometryView>,
                GeoJsonErrorView,
            >(geometry::geometries_view(v@)),
            Err(e) => geometries_from(json::items_view(items@), 0, Seq::empty()) == Err::<
                Seq<GeometryView>,
                GeoJsonErrorView,
            >(e@),
        },
    decreases json::items_view(items@), 1int,
{
    let mut out: Vec<Geometry> = Vec::new();
    let mut i: usize = 0;
    proof {
        assert(geometry::geometries_view(out@) =~= Seq::empty());
    }
    while i < items.len()
        invariant
            i <= items@.len(),
            geometries_from(json::items_view(items@), 0, Seq::empty()) == geometries_from(
                json::items_view(items@),
                i as int,
                geometry::geometries_view(out@),
            ),
        decreases items@.len() - i,
    {
        let ghost before = geometry::geometries_view(out@);
        assert(json::items_view(items@)[i as int] == items@[i as int]@);
        assert(decreases_to!(json::items_view(items@) => json::items_view(items@)[i as int]));
        match from_json(&items[i]) {
            Err(e) => return Err(e),
            Ok(g) => {
                let ghost view = g@;
                out.push(g);
                proof {
                    assert(geometry::geometries_view(out@) =~= before.push(view));
                }
            },
        }
        i = i + 1;
    }
    Ok(out)
}

// ---------------------------------------------------------------------------
// Writing
// ---------------------------------------------------------------------------
/// A number, or null where JSON has none.
pub open spec fn number(bits: u64) -> JsonView {
    if float_bits::finite(bits) {
        JsonView::Float(bits)
    } else {
        JsonView::Null
    }
}

/// A coordinate as `[x, y]`.
pub open spec fn coord_json_of(c: Coord) -> JsonView {
    JsonView::Array(seq![number(c.x), number(c.y)])
}

/// A run of coordinates.
pub open spec fn line_json_of(s: Seq<Coord>) -> JsonView {
    JsonView::Array(Seq::new(s.len(), |i: int| coord_json_of(s[i])))
}

/// A run of line strings.
pub open spec fn lines_json_of(s: Seq<Seq<Coord>>) -> Seq<JsonView> {
    Seq::new(s.len(), |i: int| line_json_of(s[i]))
}

/// A polygon: the exterior ring, then the holes.
pub open spec fn polygon_json_of(p: PolygonView) -> JsonView {
    JsonView::Array(seq![line_json_of(p.exterior)] + lines_json_of(p.holes))
}

/// A built member.
pub open spec fn built(key: Seq<char>, value: JsonView) -> MemberView {
    MemberView { key, value, text: Seq::empty() }
}

/// An object with one member and a type.
pub open spec fn typed(key: Seq<char>, value: JsonView, ty: Seq<char>) -> JsonView {
    JsonView::Object(seq![built(key, value), built("type"@, JsonView::Text(ty))])
}

/// The GeoJSON object for a geometry.
pub open spec fn geometry_json_of(g: GeometryView) -> JsonView
    decreases g,
{
    match g {
        GeometryView::Point(c) => typed("coordinates"@, coord_json_of(c), "Point"@),
        GeometryView::LineString(s) => typed("coordinates"@, line_json_of(s), "LineString"@),
        GeometryView::Polygon(p) => typed("coordinates"@, polygon_json_of(p), "Polygon"@),
        GeometryView::MultiPoint(s) => typed("coordinates"@, line_json_of(s), "MultiPoint"@),
        GeometryView::MultiLineString(s) => typed(
            "coordinates"@,
            JsonView::Array(lines_json_of(s)),
            "MultiLineString"@,
        ),
        GeometryView::MultiPolygon(s) => typed(
            "coordinates"@,
            JsonView::Array(Seq::new(s.len(), |i: int| polygon_json_of(s[i]))),
            "MultiPolygon"@,
        ),
        GeometryView::GeometryCollection(s) => typed(
            "geometries"@,
            JsonView::Array(
                Seq::new(
                    s.len(),
                    |i: int|
                        if 0 <= i < s.len() {
                            geometry_json_of(s[i])
                        } else {
                            arbitrary()
                        },
                ),
            ),
            "GeometryCollection"@,
        ),
        GeometryView::Empty(_) => JsonView::Object(
            seq![built("type"@, JsonView::Text("Unknown"@))],
        ),
    }
}

/// The GeoJSON objects for a run of geometries.
pub open spec fn geometries_json_of(s: Seq<GeometryView>) -> Seq<JsonView> {
    Seq::new(s.len(), |i: int| geometry_json_of(s[i]))
}

pub fn number_json(bits: u64) -> (r: Json)
    ensures
        r@ == number(bits),
{
    if is_finite(bits) {
        Json::Float(bits)
    } else {
        Json::Null
    }
}

fn coord_json(c: &Coord) -> (r: Json)
    ensures
        r@ == coord_json_of(*c),
{
    let mut v: Vec<Json> = Vec::new();
    v.push(number_json(c.x));
    v.push(number_json(c.y));
    proof {
        json::lemma_array_view(v);
        assert(json::items_view(v@) =~= seq![number(c.x), number(c.y)]);
    }
    Json::Array(v)
}

fn line_json(s: &Vec<Coord>) -> (r: Json)
    ensures
        r@ == line_json_of(s@),
{
    let mut v: Vec<Json> = Vec::new();
    let mut i: usize = 0;
    while i < s.len()
        invariant
            i <= s@.len(),
            v@.len() == i,
            forall|k: int| 0 <= k < i ==> (#[trigger] v@[k])@ == coord_json_of(s@[k]),
        decreases s@.len() - i,
    {
        v.push(coord_json(&s[i]));
        i = i + 1;
    }
    proof {
        json::lemma_array_view(v);
        assert(json::items_view(v@) =~= Seq::new(s@.len(), |i: int| coord_json_of(s@[i])));
    }
    Json::Array(v)
}

/// Appends a run of line strings.
fn push_lines(v: &mut Vec<Json>, s: &Vec<LineString>)
    ensures
        json::items_view(final(v)@) == json::items_view(old(v)@) + lines_json_of(
            geometry::lines_view(s@),
        ),
{
    let ghost before = v@;
    let mut i: usize = 0;
    while i < s.len()
        invariant
            i <= s@.len(),
            v@.len() == before.len() + i,
            forall|k: int| 0 <= k < before.len() ==> v@[k] == before[k],
            forall|k: int|
                0 <= k < i ==> (#[trigger] v@[before.len() + k])@ == line_json_of(s@[k]@),
        decreases s@.len() - i,
    {
        v.push(line_json(&s[i].coords));
        i = i + 1;
    }
    proof {
        let want = json::items_view(before) + lines_json_of(geometry::lines_view(s@));
        assert forall|k: int| 0 <= k < want.len() implies json::items_view(v@)[k] == want[k] by {
            if k >= before.len() {
                let j = k - before.len();
                assert(v@[before.len() + j]@ == line_json_of(s@[j]@));
            }
        }
        assert(json::items_view(v@) =~= want);
    }
}

fn polygon_rings(p: &Polygon) -> (r: Json)
    ensures
        r@ == polygon_json_of(p@),
{
    let mut v: Vec<Json> = Vec::new();
    v.push(line_json(&p.exterior.coords));
    let ghost head = json::items_view(v@);
    proof {
        assert(head =~= seq![line_json_of(p@.exterior)]);
    }
    push_lines(&mut v, &p.holes);
    proof {
        json::lemma_array_view(v);
    }
    Json::Array(v)
}

/// A member without a text.
pub fn built_member(key: &str, value: Json) -> (r: Member)
    ensures
        r@ == built(key@, value@),
{
    Member { key: key.to_owned(), value, text: String::new() }
}

fn typed_json(key: &str, value: Json, ty: &str) -> (r: Json)
    ensures
        r@ == typed(key@, value@, ty@),
{
    let ghost view = value@;
    let mut v: Vec<Member> = Vec::new();
    v.push(built_member(key, value));
    v.push(built_member("type", Json::String(ty.to_owned())));
    proof {
        json::lemma_object_view(v);
        assert(json::members_view(v@) =~= seq![
            built(key@, view),
            built("type"@, JsonView::Text(ty@)),
        ]);
    }
    Json::Object(v)
}

/// Renders a geometry as a GeoJSON object.
pub fn to_json(g: &Geometry) -> (r: Json)
    ensures
        r@ == geometry_json_of(g@),
    decreases g,
{
    match g {
        Geometry::Point(c) => typed_json("coordinates", coord_json(c), "Point"),
        Geometry::LineString(l) => typed_json("coordinates", line_json(&l.coords), "LineString"),
        Geometry::Polygon(p) => typed_json("coordinates", polygon_rings(p), "Polygon"),
        Geometry::MultiPoint(s) => typed_json("coordinates", line_json(s), "MultiPoint"),
        Geometry::MultiLineString(s) => {
            let mut v: Vec<Json> = Vec::new();
            push_lines(&mut v, s);
            proof {
                json::lemma_array_view(v);
                assert(json::items_view(v@) =~= lines_json_of(geometry::lines_view(s@)));
            }
            typed_json("coordinates", Json::Array(v), "MultiLineString")
        },
        Geometry::MultiPolygon(s) => {
            let mut v: Vec<Json> = Vec::new();
            let mut i: usize = 0;
            while i < s.len()
                invariant
                    i <= s@.len(),
                    v@.len() == i,
                    forall|k: int| 0 <= k < i ==> (#[trigger] v@[k])@ == polygon_json_of(s@[k]@),
                decreases s@.len() - i,
            {
                v.push(polygon_rings(&s[i]));
                i = i + 1;
            }
            proof {
                let polys = geometry::polygons_view(s@);
                json::lemma_array_view(v);
                assert(json::items_view(v@) =~= Seq::new(
                    polys.len(),
                    |i: int| polygon_json_of(polys[i]),
                ));
            }
            typed_json("coordinates", Json::Array(v), "MultiPolygon")
        },
        Geometry::GeometryCollection(s) => {
            let v = geometries_json(s);
            proof {
                geometry::lemma_collection_view(*s);
                json::lemma_array_view(v);
                lemma_collection_json(geometry::geometries_view(s@));
            }
            typed_json("geometries", Json::Array(v), "GeometryCollection")
        },
        Geometry::Empty(_) => {
            let mut v: Vec<Member> = Vec::new();
            v.push(built_member("type", Json::String("Unknown".to_owned())));
            proof {
                json::lemma_object_view(v);
                assert(json::members_view(v@) =~= seq![
                    built("type"@, JsonView::Text("Unknown"@)),
                ]);
            }
            Json::Object(v)
        },
    }
}

fn geometries_json(s: &Vec<Geometry>) -> (r: Vec<Json>)
    ensures
        json::items_view(r@) == geometries_json_of(geometry::geometries_view(s@)),
    decreases s,
{
    let mut v: Vec<Json> = Vec::new();
    let mut i: usize = 0;
    while i < s.len()
        invariant
            i <= s@.len(),
            v@.len() == i,
            forall|k: int| 0 <= k < i ==> (#[trigger] v@[k])@ == geometry_json_of(s@[k]@),
        decreases s@.len() - i,
    {
        v.push(to_json(&s[i]));
        i = i + 1;
    }
    proof {
        assert(json::items_view(v@) =~= geometries_json_of(geometry::geometries_view(s@)));
    }
    v
}

/// The object for a collection holds the objects for its parts.
pub proof fn lemma_collection_json(s: Seq<GeometryView>)
    ensures
        geometry_json_of(GeometryView::GeometryCollection(s)) == typed(
            "geometries"@,
            JsonView::Array(geometries_json_of(s)),
            "GeometryCollection"@,
        ),
{
    let whole = geometry_json_of(GeometryView::GeometryCollection(s));
    let items = whole->Object_0[0].value->Array_0;
    assert(items =~= geometries_json_of(s));
}

} // verus!
