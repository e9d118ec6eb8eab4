//! What holds of the GeoJSON reader and writer together.

use crate::feature::FeatureView;
use crate::float_bits;
use crate::float_convert;
use crate::geojson::error::{GeoJsonErrorView, Outcome};
use crate::geojson::geometry as shapes;
use crate::geojson::json;
use crate::geojson::json::{JsonView, MemberView};
use crate::geojson::properties;
use crate::geojson::properties::Row;
use crate::geojson::reader;
use crate::geojson::reader::{FeatureId, IterView, OpenedView, RawView};
use crate::geojson::scanner;
use crate::geojson::scanner::TopLevelView;
use crate::geojson::writer;
use crate::geometry;
use crate::geometry::{Coord, GeometryView, PolygonView};
use crate::schema;
use crate::schema::FieldDefView;
use crate::value;
use crate::value::{ValueType, ValueView};
use vstd::prelude::*;
use vstd::string::*;

verus! {

// ---------------------------------------------------------------------------
// Geometries
// ---------------------------------------------------------------------------
/// Whether JSON has numbers for both ordinates.
pub open spec fn printable(c: Coord) -> bool {
    float_bits::finite(c.x) && float_bits::finite(c.y)
}

pub open spec fn printable_line(s: Seq<Coord>) -> bool {
    forall|i: int| 0 <= i < s.len() ==> printable(#[trigger] s[i])
}

pub open spec fn printable_lines(s: Seq<Seq<Coord>>) -> bool {
    forall|i: int| 0 <= i < s.len() ==> printable_line(#[trigger] s[i])
}

pub open spec fn printable_polygon(p: PolygonView) -> bool {
    printable_line(p.exterior) && printable_lines(p.holes)
}

/// Whether GeoJSON can hold the geometry: its ordinates are finite, and no part
/// of it is a kind without coordinates.
pub open spec fn printable_geometry(g: GeometryView) -> bool
    decreases g, 0int,
{
    match g {
        GeometryView::Point(c) => printable(c),
        GeometryView::LineString(s) => printable_line(s),
        GeometryView::Polygon(p) => printable_polygon(p),
        GeometryView::MultiPoint(s) => printable_line(s),
        GeometryView::MultiLineString(s) => printable_lines(s),
        GeometryView::MultiPolygon(s) => forall|i: int|
            0 <= i < s.len() ==> printable_polygon(#[trigger] s[i]),
        GeometryView::GeometryCollection(s) => printable_parts(s, 0),
        GeometryView::Empty(_) => false,
    }
}

/// Whether GeoJSON can hold the geometries from `i` on.
pub open spec fn printable_parts(s: Seq<GeometryView>, i: int) -> bool
    decreases s, s.len() - i,
    when 0 <= i
{
    if i >= s.len() {
        true
    } else {
        printable_geometry(s[i]) && printable_parts(s, i + 1)
    }
}

pub open spec fn flat_line(s: Seq<Coord>) -> Seq<Coord> {
    Seq::new(s.len(), |i: int| geometry::flat(s[i]))
}

pub open spec fn flat_lines(s: Seq<Seq<Coord>>) -> Seq<Seq<Coord>> {
    Seq::new(s.len(), |i: int| flat_line(s[i]))
}

pub open spec fn flat_polygon(p: PolygonView) -> PolygonView {
    PolygonView { exterior: flat_line(p.exterior), holes: flat_lines(p.holes) }
}

/// The geometry without Z and M ordinates.
pub open spec fn flat_geometry(g: GeometryView) -> GeometryView
    decreases g,
{
    match g {
        GeometryView::Point(c) => GeometryView::Point(geometry::flat(c)),
        GeometryView::LineString(s) => GeometryView::LineString(flat_line(s)),
        GeometryView::Polygon(p) => GeometryView::Polygon(flat_polygon(p)),
        GeometryView::MultiPoint(s) => GeometryView::MultiPoint(flat_line(s)),
        GeometryView::MultiLineString(s) => GeometryView::MultiLineString(flat_lines(s)),
        GeometryView::MultiPolygon(s) => GeometryView::MultiPolygon(
            Seq::new(s.len(), |i: int| flat_polygon(s[i])),
        ),
        GeometryView::GeometryCollection(s) => GeometryView::GeometryCollection(
            Seq::new(
                s.len(),
                |i: int|
                    if 0 <= i < s.len() {
                        flat_geometry(s[i])
                    } else {
                        arbitrary()
                    },
            ),
        ),
        GeometryView::Empty(t) => GeometryView::Empty(t),
    }
}

proof fn lemma_coord_back(c: Coord)
    requires
        printable(c),
    ensures
        shapes::coord_of(shapes::coord_json_of(c)) == Ok::<Coord, GeoJsonErrorView>(
            geometry::flat(c),
        ),
{
    let a = shapes::coord_json_of(c)->Array_0;
    assert(a.len() == 2 && a[0] == shapes::number(c.x) && a[1] == shapes::number(c.y));
}

proof fn lemma_coords_back(s: Seq<Coord>, i: int, acc: Seq<Coord>)
    requires
        printable_line(s),
        0 <= i <= s.len(),
    ensures
        shapes::coords_from(shapes::line_json_of(s)->Array_0, i, acc) == Ok::<
            Seq<Coord>,
            GeoJsonErrorView,
        >(acc + flat_line(s).skip(i)),
    decreases s.len() - i,
{
    if i < s.len() {
        lemma_coord_back(s[i]);
        lemma_coords_back(s, i + 1, acc.push(geometry::flat(s[i])));
        assert(acc.push(geometry::flat(s[i])) + flat_line(s).skip(i + 1) =~= acc + flat_line(
            s,
        ).skip(i));
    } else {
        assert(acc + flat_line(s).skip(i) =~= acc);
    }
}

proof fn lemma_line_back(s: Seq<Coord>)
    requires
        printable_line(s),
    ensures
        shapes::line_of(shapes::line_json_of(s)) == Ok::<Seq<Coord>, GeoJsonErrorView>(
            flat_line(s),
        ),
        shapes::coords_from(shapes::line_json_of(s)->Array_0, 0, Seq::empty()) == Ok::<
            Seq<Coord>,
            GeoJsonErrorView,
        >(flat_line(s)),
{
    lemma_coords_back(s, 0, Seq::empty());
    assert(Seq::<Coord>::empty() + flat_line(s).skip(0) =~= flat_line(s));
}

/// Line strings come back from an array that holds them from `from` on.
proof fn lemma_lines_back(
    items: Seq<JsonView>,
    from: int,
    s: Seq<Seq<Coord>>,
    i: int,
    acc: Seq<Seq<Coord>>,
)
    requires
        printable_lines(s),
        0 <= i <= s.len(),
        0 <= from,
        items.len() == from + s.len(),
        forall|k: int| 0 <= k < s.len() ==> items[from + k] == shapes::line_json_of(#[trigger] s[k]),
    ensures
        shapes::lines_from(items, from + i, acc) == Ok::<Seq<Seq<Coord>>, GeoJsonErrorView>(
            acc + flat_lines(s).skip(i),
        ),
    decreases s.len() - i,
{
    if i < s.len() {
        assert(items[from + i] == shapes::line_json_of(s[i]));
        lemma_line_back(s[i]);
        lemma_lines_back(items, from, s, i + 1, acc.push(flat_line(s[i])));
        assert(acc.push(flat_line(s[i])) + flat_lines(s).skip(i + 1) =~= acc + flat_lines(s).skip(
            i,
        ));
    } else {
        assert(acc + flat_lines(s).skip(i) =~= acc);
    }
}

proof fn lemma_polygon_back(p: PolygonView)
    requires
        printable_polygon(p),
    ensures
        shapes::polygon_of(shapes::polygon_json_of(p)) == Ok::<PolygonView, GeoJsonErrorView>(
            flat_polygon(p),
        ),
{
    let a = shapes::polygon_json_of(p)->Array_0;
    assert(a[0] == shapes::line_json_of(p.exterior));
    lemma_line_back(p.exterior);
    assert forall|k: int| 0 <= k < p.holes.len() implies a[1 + k] == shapes::line_json_of(
        #[trigger] p.holes[k],
    ) by {}
    lemma_lines_back(a, 1, p.holes, 0, Seq::empty());
    assert(Seq::<Seq<Coord>>::empty() + flat_lines(p.holes).skip(0) =~= flat_lines(p.holes));
}

proof fn lemma_polygons_back(s: Seq<PolygonView>, i: int, acc: Seq<PolygonView>)
    requires
        forall|k: int| 0 <= k < s.len() ==> printable_polygon(#[trigger] s[k]),
        0 <= i <= s.len(),
    ensures
        shapes::polygons_from(
            Seq::new(s.len(), |k: int| shapes::polygon_json_of(s[k])),
            i,
            acc,
        ) == Ok::<Seq<PolygonView>, GeoJsonErrorView>(
            acc + Seq::new(s.len(), |k: int| flat_polygon(s[k])).skip(i),
        ),
    decreases s.len() - i,
{
    let flats = Seq::new(s.len(), |k: int| flat_polygon(s[k]));
    if i < s.len() {
        lemma_polygon_back(s[i]);
        lemma_polygons_back(s, i + 1, acc.push(flat_polygon(s[i])));
        assert(acc.push(flat_polygon(s[i])) + flats.skip(i + 1) =~= acc + flats.skip(i));
    } else {
        assert(acc + flats.skip(i) =~= acc);
    }
}

/// The names of the geometry types differ from each other and from the other
/// names that stand beside them.
pub proof fn lemma_names_differ()
    ensures
        "LineString"@ != "Point"@,
        "Polygon"@ != "Point"@,
        "Polygon"@ != "LineString"@,
        "MultiPoint"@ != "Point"@,
        "MultiPoint"@ != "LineString"@,
        "MultiPoint"@ != "Polygon"@,
        "MultiLineString"@ != "Point"@,
        "MultiLineString"@ != "LineString"@,
        "MultiLineString"@ != "Polygon"@,
        "MultiLineString"@ != "MultiPoint"@,
        "MultiPolygon"@ != "Point"@,
        "MultiPolygon"@ != "LineString"@,
        "MultiPolygon"@ != "Polygon"@,
        "MultiPolygon"@ != "MultiPoint"@,
        "MultiPolygon"@ != "MultiLineString"@,
        !shapes::simple_name("GeometryCollection"@),
        "coordinates"@ != "type"@,
        "geometries"@ != "type"@,
{
    reveal_strlit("Point");
    reveal_strlit("LineString");
    reveal_strlit("Polygon");
    reveal_strlit("MultiPoint");
    reveal_strlit("MultiLineString");
    reveal_strlit("MultiPolygon");
    reveal_strlit("GeometryCollection");
    reveal_strlit("coordinates");
    reveal_strlit("geometries");
    reveal_strlit("type");
    assert("Point"@.len() == 5);
    assert("LineString"@.len() == 10);
    assert("Polygon"@.len() == 7);
    assert("MultiPoint"@.len() == 10);
    assert("MultiLineString"@.len() == 15);
    assert("MultiPolygon"@.len() == 12);
    assert("GeometryCollection"@.len() == 18);
    assert("coordinates"@.len() == 11);
    assert("geometries"@.len() == 10);
    assert("type"@.len() == 4);
    assert("LineString"@[0] == 'L');
    assert("MultiPoint"@[0] == 'M');
}

/// The members of an object with a type are found.
proof fn lemma_typed(key: Seq<char>, v: JsonView, ty: Seq<char>)
    requires
        key != "type"@,
    ensures
        json::get(shapes::typed(key, v, ty)->Object_0, key) == Some(v),
        json::get(shapes::typed(key, v, ty)->Object_0, "type"@) == Some(JsonView::Text(ty)),
{
    reveal_with_fuel(json::key_from, 3);
    let ms = shapes::typed(key, v, ty)->Object_0;
    assert(ms[0].key == key && ms[1].key == "type"@);
}

/// A geometry comes back from its GeoJSON object without its Z and M ordinates,
/// and otherwise as it was.
pub proof fn law_geometry_comes_back(g: GeometryView)
    requires
        printable_geometry(g),
    ensures
        shapes::geometry_of(shapes::geometry_json_of(g)) == Ok::<GeometryView, GeoJsonErrorView>(
            flat_geometry(g),
        ),
    decreases g, 0int,
{
    lemma_names_differ();
    match g {
        GeometryView::Point(c) => {
            lemma_typed("coordinates"@, shapes::coord_json_of(c), "Point"@);
            lemma_coord_back(c);
        },
        GeometryView::LineString(s) => {
            lemma_typed("coordinates"@, shapes::line_json_of(s), "LineString"@);
            lemma_line_back(s);
        },
        GeometryView::Polygon(p) => {
            lemma_typed("coordinates"@, shapes::polygon_json_of(p), "Polygon"@);
            lemma_polygon_back(p);
        },
        GeometryView::MultiPoint(s) => {
            lemma_typed("coordinates"@, shapes::line_json_of(s), "MultiPoint"@);
            lemma_line_back(s);
        },
        GeometryView::MultiLineString(s) => {
            let items = shapes::lines_json_of(s);
            lemma_typed("coordinates"@, JsonView::Array(items), "MultiLineString"@);
            assert forall|k: int| 0 <= k < s.len() implies items[0 + k] == shapes::line_json_of(
                #[trigger] s[k],
            ) by {}
            lemma_lines_back(items, 0, s, 0, Seq::empty());
            assert(Seq::<Seq<Coord>>::empty() + flat_lines(s).skip(0) =~= flat_lines(s));
        },
        GeometryView::MultiPolygon(s) => {
            let items = Seq::new(s.len(), |i: int| shapes::polygon_json_of(s[i]));
            let flats = Seq::new(s.len(), |k: int| flat_polygon(s[k]));
            lemma_typed("coordinates"@, JsonView::Array(items), "MultiPolygon"@);
            lemma_polygons_back(s, 0, Seq::empty());
            assert(Seq::<PolygonView>::empty() + flats.skip(0) =~= flats);
            assert(flat_geometry(g)->MultiPolygon_0 =~= flats);
        },
        GeometryView::GeometryCollection(s) => {
            let items = shapes::geometries_json_of(s);
            shapes::lemma_collection_json(s);
            lemma_typed("geometries"@, JsonView::Array(items), "GeometryCollection"@);
            lemma_parts_back(s, 0, Seq::empty());
            let flats = Seq::new(s.len(), |k: int| flat_geometry(s[k]));
            assert(Seq::<GeometryView>::empty() + flats.skip(0) =~= flats);
            assert(flat_geometry(g)->GeometryCollection_0 =~= flats);
        },
        GeometryView::Empty(_) => {},
    }
}

proof fn lemma_parts_back(s: Seq<GeometryView>, i: int, acc: Seq<GeometryView>)
    requires
        printable_parts(s, i),
        0 <= i <= s.len(),
    ensures
        shapes::geometries_from(shapes::geometries_json_of(s), i, acc) == Ok::<
            Seq<GeometryView>,
            GeoJsonErrorView,
        >(acc + Seq::new(s.len(), |k: int| flat_geometry(s[k])).skip(i)),
    decreases s, s.len() - i,
{
    let flats = Seq::new(s.len(), |k: int| flat_geometry(s[k]));
    if i < s.len() {
        law_geometry_comes_back(s[i]);
        lemma_parts_back(s, i + 1, acc.push(flat_geometry(s[i])));
        assert(acc.push(flat_geometry(s[i])) + flats.skip(i + 1) =~= acc + flats.skip(i));
    } else {
        assert(acc + flats.skip(i) =~= acc);
    }
}

// ---------------------------------------------------------------------------
// The schema that is inferred
// ---------------------------------------------------------------------------
/// Whether every integer of the properties fits in 64 bits with a sign.
pub open spec fn signed_integers(rows: Seq<Row>) -> bool {
    forall|i: int, j: int|
        0 <= i < rows.len() && rows[i] is Some && 0 <= j < rows[i]->0.len() ==> match (
        #[trigger] rows[i]->0[j]).value {
            JsonView::UInt(n) => n <= i64::MAX,
            _ => true,
        }
}

/// What is found under a key is one of the members.
proof fn lemma_member_found(ms: Seq<MemberView>, key: Seq<char>, i: int)
    requires
        0 <= i,
    ensures
        match json::key_from(ms, key, i) {
            None => forall|k: int| i <= k < ms.len() ==> (#[trigger] ms[k]).key != key,
            Some(p) => i <= p < ms.len() && ms[p].key == key,
        },
    decreases ms.len() - i,
{
    if i < ms.len() && ms[i].key != key {
        lemma_member_found(ms, key, i + 1);
    }
}

/// The attribute of a feature under an inferred field is of the field's type, or
/// null where the field may be null.
proof fn lemma_cell_fits(rows: Seq<Row>, i: int, key: Seq<char>)
    requires
        0 <= i < rows.len(),
        signed_integers(rows),
    ensures
        match value::type_of_value(reader::cell_of(properties::field_for(rows, key), rows[i])) {
            None => properties::field_nullable(rows, key),
            Some(t) => t == properties::field_type(rows, key),
        },
{
    let row = rows[i];
    match row {
        None => {
            assert(properties::row_lacks(rows[i], key));
        },
        Some(ms) => {
            lemma_member_found(ms, key, 0);
            match json::key_from(ms, key, 0) {
                None => {
                    assert(properties::row_lacks(rows[i], key));
                },
                Some(p) => {
                    let kind = properties::kind_of(ms[p].value);
                    assert(rows[i]->0[p] == ms[p]);
                    assert(ms[p].key == key);
                    assert(properties::row_shows(rows[i], key, kind));
                    assert(properties::shows(rows, key, kind));
                },
            }
        },
    }
}

/// The schema that is inferred from some features accepts the attributes of each
/// of them: each is of its field's type, or null where the field may be null.
pub proof fn law_features_fit_the_inferred_schema(raws: Seq<RawView>, i: int)
    requires
        0 <= i < raws.len(),
        signed_integers(reader::rows_of(raws)),
    ensures
        schema::row_error(
            properties::fields_of(reader::rows_of(raws)),
            reader::attributes_of(
                properties::fields_of(reader::rows_of(raws)),
                raws[i].properties,
            ),
        ) is None,
{
    let rows = reader::rows_of(raws);
    let fields = properties::fields_of(rows);
    let attributes = reader::attributes_of(fields, raws[i].properties);
    schema::law_accepted_rows(fields, attributes);
    assert forall|k: int| 0 <= k < fields.len() implies match value::type_of_value(
        #[trigger] attributes[k],
    ) {
        None => fields[k].nullable,
        Some(t) => t == fields[k].ty,
    } by {
        let key = properties::keys_of(rows)[k];
        assert(rows[i] == raws[i].properties);
        lemma_cell_fits(rows, i, key);
    }
}

// ---------------------------------------------------------------------------
// Walking and holding
// ---------------------------------------------------------------------------
/// A feature of a document that is walked.
pub open spec fn walked_view(raw: RawView, fields: Seq<FieldDefView>, i: int) -> FeatureView {
    FeatureView {
        fid: reader::walked_fid(raw.id, i),
        geometry: raw.geometry,
        attributes: reader::attributes_of(fields, raw.properties),
    }
}

/// Everything that the walk from `pos` on hands out.
pub open spec fn handed_out(b: Seq<u8>, pos: int, row: int, fields: Seq<FieldDefView>) -> Seq<
    Outcome<FeatureView>,
>
    decreases b.len() - pos,
    when 0 <= pos <= b.len()
{
    let it = IterView::Streaming { bytes: b, pos, row, fields };
    proof {
        scanner::lemma_feature_bounds(b, pos);
    }
    match reader::stepped(it) {
        (None, _) => Seq::empty(),
        (Some(x), IterView::Streaming { pos: end, .. }) => seq![x] + handed_out(
            b,
            end,
            row + 1,
            fields,
        ),
        (Some(x), _) => seq![x],
    }
}

/// A walk hands out, from where it stands, the features that are not yet in `acc`.
pub proof fn lemma_walk(
    b: Seq<u8>,
    pos: int,
    acc: Seq<RawView>,
    fields: Seq<FieldDefView>,
    all: Seq<RawView>,
)
    requires
        0 <= pos <= b.len(),
        reader::walked_raws(b, pos, acc) == Ok::<Seq<RawView>, GeoJsonErrorView>(all),
    ensures
        acc.len() <= all.len(),
        acc == all.take(acc.len() as int),
        handed_out(b, pos, acc.len() as int, fields) == Seq::new(
            (all.len() - acc.len()) as nat,
            |k: int|
                Ok::<FeatureView, GeoJsonErrorView>(
                    walked_view(all[acc.len() + k], fields, acc.len() + k),
                ),
        ),
    decreases b.len() - pos,
{
    scanner::lemma_feature_bounds(b, pos);
    match scanner::feature_value(b, pos) {
        Err(_) => {},
        Ok(None) => {
            assert(acc =~= all.take(acc.len() as int));
        },
        Ok(Some((j, end))) => {
            let raw = reader::raw_of(j)->Ok_0;
            let more = acc.push(raw);
            lemma_walk(b, end, more, fields, all);
            assert(all[acc.len() as int] == more[acc.len() as int]);
            assert(acc =~= all.take(acc.len() as int)) by {
                assert(forall|k: int| 0 <= k < acc.len() ==> acc[k] == more[k]);
                assert(forall|k: int|
                    0 <= k < more.len() ==> more[k] == all.take(more.len() as int)[k]);
            }
            let want = Seq::new(
                (all.len() - acc.len()) as nat,
                |k: int|
                    Ok::<FeatureView, GeoJsonErrorView>(
                        walked_view(all[acc.len() + k], fields, acc.len() + k),
                    ),
            );
            let rest = handed_out(b, end, more.len() as int, fields);
            let first = reader::walked_feature(j, fields, acc.len() as int);
            assert(handed_out(b, pos, acc.len() as int, fields) == seq![first] + rest);
            assert(seq![first] + rest =~= want);
        },
    }
}

/// A collection that could be opened hands out as many features as were counted,
/// and none of them is an error.
pub proof fn law_walk_hands_out_what_was_counted(b: Seq<u8>)
    requires
        reader::opened(b) is Ok,
        reader::opened(b)->Ok_0 is Walked,
    ensures
        match reader::opened(b) {
            Ok(OpenedView::Walked { pos, schema, count }) => {
                let out = handed_out(b, pos, 0, schema.fields);
                &&& 0 <= pos <= b.len()
                &&& out.len() == count
                &&& forall|i: int| 0 <= i < out.len() ==> (#[trigger] out[i]) is Ok
            },
            _ => true,
        },
{
    lemma_top_level_in(b);
    match scanner::top_level(b) {
        Ok(TopLevelView::Collection { pos, header_keys }) => {
            let raws = reader::walked_raws(b, pos, Seq::empty())->Ok_0;
            let fields = reader::schema_of(raws, header_keys).fields;
            lemma_walk(b, pos, Seq::empty(), fields, raws);
        },
        _ => {},
    }
}

/// The features of a collection begin in the document.
proof fn lemma_top_level_in(b: Seq<u8>)
    ensures
        match scanner::top_level(b) {
            Ok(TopLevelView::Collection { pos, .. }) => 0 <= pos <= b.len(),
            _ => true,
        },
{
    scanner::lemma_skipped(b, 0);
    let p = scanner::skipped(b, 0);
    if p < b.len() && b[p] == 123 {
        lemma_top_from_in(b, p + 1, Seq::empty(), None);
    }
}

proof fn lemma_top_from_in(
    b: Seq<u8>,
    pos: int,
    keys: Seq<MemberView>,
    declared: Option<Seq<char>>,
)
    requires
        0 <= pos <= b.len(),
    ensures
        match scanner::top_from(b, pos, keys, declared) {
            Ok(TopLevelView::Collection { pos, .. }) => 0 <= pos <= b.len(),
            _ => true,
        },
    decreases b.len() - pos,
{
    scanner::lemma_skipped(b, pos);
    let p = scanner::skipped(b, pos);
    if p >= b.len() || b[p] == 125 {
    } else if b[p] == 44 {
        lemma_top_from_in(b, p + 1, keys, declared);
    } else if b[p] == 34 {
        scanner::lemma_value_bounds(b, p);
        match scanner::value_bounds(b, p) {
            Ok(Some((s, e))) => match json::string_at(b.subrange(s, e)) {
                Ok(key) => {
                    scanner::lemma_skipped(b, e);
                    let q = scanner::skipped(b, e);
                    if q < b.len() && b[q] == 58 {
                        scanner::lemma_skipped(b, q + 1);
                        let v = scanner::skipped(b, q + 1);
                        scanner::lemma_value_bounds(b, v);
                        if key != "features"@ {
                            match scanner::member_at(b, v, key) {
                                Ok((m, end)) => {
                                    lemma_top_from_in(
                                        b,
                                        end,
                                        json::put(keys, m),
                                        if key == "type"@ {
                                            json::text_of(Some(m.value))
                                        } else {
                                            declared
                                        },
                                    );
                                },
                                Err(_) => {},
                            }
                        }
                    }
                },
                Err(_) => {},
            },
            _ => {},
        }
    }
}

/// A collection gives the same schema, geometries and attributes whether it is
/// walked or held, when both ways find the same features in it and the same
/// reference system.
pub proof fn law_walking_and_holding_agree(
    b: Seq<u8>,
    pos: int,
    header_keys: Seq<MemberView>,
    members: Seq<MemberView>,
    items: Seq<JsonView>,
    raws: Seq<RawView>,
)
    requires
        scanner::top_level(b) == Ok::<TopLevelView, GeoJsonErrorView>(
            TopLevelView::Collection { pos, header_keys },
        ),
        reader::walked_raws(b, pos, Seq::empty()) == Ok::<Seq<RawView>, GeoJsonErrorView>(raws),
        json::get(members, "type"@) == Some(JsonView::Text("FeatureCollection"@)),
        json::get(members, "features"@) == Some(JsonView::Array(items)),
        reader::raws_from(items, 0, Seq::empty()) == Ok::<Seq<RawView>, GeoJsonErrorView>(raws),
        reader::crs_of(members) == reader::crs_of(header_keys),
    ensures
        match (reader::opened(b), reader::held(JsonView::Object(members))) {
            (Ok(OpenedView::Walked { pos, schema, count }), Ok((other, features))) => {
                let out = handed_out(b, pos, 0, schema.fields);
                &&& schema == other
                &&& count == features.len()
                &&& out.len() == features.len()
                &&& forall|i: int|
                    0 <= i < out.len() ==> match #[trigger] out[i] {
                        Ok(f) => f.geometry == features[i].geometry && f.attributes
                            == features[i].attributes,
                        Err(_) => false,
                    }
            },
            _ => false,
        },
{
    lemma_top_level_in(b);
    let fields = reader::schema_of(raws, header_keys).fields;
    lemma_walk(b, pos, Seq::empty(), fields, raws);
}

// ---------------------------------------------------------------------------
// Writing and scanning
// ---------------------------------------------------------------------------
/// What a writer has written when it was handed these texts.
pub open spec fn written(texts: Seq<Seq<u8>>) -> Seq<u8>
    decreases texts.len(),
{
    if texts.len() == 0 {
        writer::opening()
    } else {
        written(texts.drop_last()) + writer::separator(
            if texts.len() == 1 {
                writer::State::BeforeFirst
            } else {
                writer::State::Streaming
            },
        ) + texts.last()
    }
}

/// The texts of the features that the scanner finds from `pos` on, behind those
/// in `acc`.
pub open spec fn texts_found(b: Seq<u8>, pos: int, acc: Seq<Seq<u8>>) -> Outcome<Seq<Seq<u8>>>
    decreases b.len() - pos,
    when 0 <= pos <= b.len()
{
    proof {
        scanner::lemma_feature_bounds(b, pos);
    }
    match scanner::feature_bounds(b, pos) {
        Err(e) => Err(e),
        Ok(None) => Ok(acc),
        Ok(Some((s, e))) => texts_found(b, e, acc.push(b.subrange(s, e))),
    }
}

/// Whether a text is one object: it begins with a brace, and the scanner finds
/// its end where the text ends.
pub open spec fn one_object(t: Seq<u8>) -> bool {
    t.len() > 0 && t[0] == 123 && scanner::value_end(t, 0, 0, 0, false, false) == Ok::<
        int,
        GeoJsonErrorView,
    >(t.len() as int)
}

/// What stands around a value does not change where it ends.
proof fn lemma_end_inside(
    b: Seq<u8>,
    at: int,
    t: Seq<u8>,
    p: int,
    depth: nat,
    in_string: bool,
    escape: bool,
)
    requires
        0 <= at,
        at + t.len() <= b.len(),
        t.len() > 0,
        t[0] == 123,
        b.subrange(at, at + t.len()) == t,
        0 <= p <= t.len(),
        scanner::value_end(t, 0, p, depth, in_string, escape) == Ok::<int, GeoJsonErrorView>(
            t.len() as int,
        ),
    ensures
        scanner::value_end(b, at, at + p, depth, in_string, escape) == Ok::<
            int,
            GeoJsonErrorView,
        >(at + t.len()),
    decreases t.len() - p,
{
    assert(b[at] == b.subrange(at, at + t.len())[0]);
    if p < t.len() {
        let c = t[p];
        assert(b[at + p] == b.subrange(at, at + t.len())[p]);
        if escape {
            lemma_end_inside(b, at, t, p + 1, depth, in_string, false);
        } else if in_string {
            if c == 92 {
                lemma_end_inside(b, at, t, p + 1, depth, true, true);
            } else if c == 34 {
                lemma_end_inside(b, at, t, p + 1, depth, false, false);
            } else {
                lemma_end_inside(b, at, t, p + 1, depth, true, false);
            }
        } else if c == 34 {
            lemma_end_inside(b, at, t, p + 1, depth, true, false);
        } else if c == 123 || c == 91 {
            lemma_end_inside(b, at, t, p + 1, depth + 1, false, false);
        } else if c == 125 || c == 93 {
            if depth > 1 {
                lemma_end_inside(b, at, t, p + 1, (depth - 1) as nat, false, false);
            }
        } else {
            lemma_end_inside(b, at, t, p + 1, depth, false, false);
        }
    }
}

/// What stands from the text `i` on in a finished collection.
spec fn rest_from(texts: Seq<Seq<u8>>, i: int) -> Seq<u8>
    decreases texts.len() - i,
{
    if i >= texts.len() {
        writer::closing()
    } else {
        writer::separator(
            if i == 0 {
                writer::State::BeforeFirst
            } else {
                writer::State::Streaming
            },
        ) + texts[i] + rest_from(texts, i + 1)
    }
}

proof fn lemma_written_then_rest(texts: Seq<Seq<u8>>, i: int)
    requires
        0 <= i <= texts.len(),
    ensures
        written(texts.take(i)) + rest_from(texts, i) == written(texts) + writer::closing(),
    decreases texts.len() - i,
{
    if i == texts.len() {
        assert(texts.take(i) =~= texts);
    } else {
        lemma_written_then_rest(texts, i + 1);
        let more = texts.take(i + 1);
        assert(more.drop_last() =~= texts.take(i));
        assert(more.last() == texts[i]);
        assert(written(more) + rest_from(texts, i + 1) =~= written(texts.take(i)) + rest_from(
            texts,
            i,
        ));
    }
}

proof fn lemma_scan_rest(b: Seq<u8>, pos: int, texts: Seq<Seq<u8>>, i: int)
    requires
        forall|k: int| 0 <= k < texts.len() ==> one_object(#[trigger] texts[k]),
        0 <= i <= texts.len(),
        0 <= pos <= b.len(),
        b.skip(pos) == rest_from(texts, i),
    ensures
        texts_found(b, pos, texts.take(i)) == Ok::<Seq<Seq<u8>>, GeoJsonErrorView>(texts),
    decreases texts.len() - i,
{
    reveal_strlit("]}");
    let rest = rest_from(texts, i);
    assert(forall|k: int| 0 <= k < rest.len() ==> b[pos + k] == rest[k]) by {
        assert(forall|k: int| 0 <= k < rest.len() ==> b.skip(pos)[k] == b[pos + k]);
    }
    if i == texts.len() {
        assert(rest.len() == 2 && rest[0] == 93);
        assert(b[pos] == 93);
        assert(texts.take(i) =~= texts);
    } else {
        let t = texts[i];
        let sep = writer::separator(
            if i == 0 {
                writer::State::BeforeFirst
            } else {
                writer::State::Streaming
            },
        );
        let at = pos + sep.len();
        let tail = rest_from(texts, i + 1);
        assert(one_object(t));
        assert(rest == sep + t + tail);
        assert(b.len() - pos == rest.len());
        assert(rest.len() == sep.len() + t.len() + tail.len());
        assert(at + t.len() <= b.len());
        assert(b.subrange(at, at + t.len()) =~= t) by {
            assert forall|k: int| 0 <= k < t.len() implies b[at + k] == t[k] by {
                assert(rest[sep.len() + k] == t[k]);
                assert(b[pos + (sep.len() + k)] == rest[sep.len() + k]);
            }
        }
        assert(b[at] == b.subrange(at, at + t.len())[0]);
        assert(b[at] == 123);
        if i > 0 {
            assert(rest[0] == 44);
            assert(b[pos + 0] == 44);
            assert(scanner::skipped(b, pos) == pos);
            assert(scanner::feature_bounds(b, pos) == scanner::feature_bounds(b, at));
        }
        lemma_end_inside(b, at, t, 0, 0, false, false);
        assert(scanner::skipped(b, at) == at);
        assert(scanner::value_bounds(b, at) == Ok::<Option<(int, int)>, GeoJsonErrorView>(
            Some((at, at + t.len())),
        ));
        let end = at + t.len();
        assert(b.skip(end) =~= tail) by {
            assert forall|k: int| 0 <= k < tail.len() implies b[end + k] == tail[k] by {
                assert(rest[sep.len() + t.len() + k] == tail[k]);
                assert(b[pos + (sep.len() + t.len() + k)] == rest[sep.len() + t.len() + k]);
            }
            assert(b.len() - pos == rest.len());
        }
        assert(texts.take(i).push(t) =~= texts.take(i + 1));
        lemma_scan_rest(b, end, texts, i + 1);
    }
}

/// The scanner finds in a finished collection the texts that the writer was
/// handed, in their order and nothing else.
pub proof fn law_written_features_are_found(texts: Seq<Seq<u8>>)
    requires
        forall|k: int| 0 <= k < texts.len() ==> one_object(#[trigger] texts[k]),
    ensures
        writer::opening().len() <= (written(texts) + writer::closing()).len(),
        texts_found(
            written(texts) + writer::closing(),
            writer::opening().len() as int,
            Seq::empty(),
        ) == Ok::<Seq<Seq<u8>>, GeoJsonErrorView>(texts),
{
    let b = written(texts) + writer::closing();
    lemma_written_then_rest(texts, 0);
    assert(texts.take(0) =~= Seq::empty());
    assert(written(texts.take(0)) == writer::opening());
    let pos = writer::opening().len() as int;
    assert(b == writer::opening() + rest_from(texts, 0));
    assert(b.skip(pos) =~= rest_from(texts, 0));
    lemma_scan_rest(b, pos, texts, 0);
}

// ---------------------------------------------------------------------------
// Features
// ---------------------------------------------------------------------------
/// A feature comes back from its JSON object with its identifier, its geometry
/// without Z and M ordinates, and the properties that were written.
pub proof fn law_feature_comes_back(fields: Seq<FieldDefView>, f: FeatureView)
    requires
        match f.geometry {
            None => true,
            Some(g) => printable_geometry(g),
        },
    ensures
        reader::raw_of(writer::feature_json_of(fields, f)) == Ok::<RawView, GeoJsonErrorView>(
            RawView {
                id: match f.fid {
                    None => FeatureId::Absent,
                    Some(n) => FeatureId::Number(n),
                },
                geometry: match f.geometry {
                    None => None,
                    Some(g) => Some(flat_geometry(g)),
                },
                properties: Some(
                    writer::properties_of(fields, f.attributes, fields.len() as int),
                ),
            },
        ),
{
    reveal_strlit("geometry");
    reveal_strlit("id");
    reveal_strlit("properties");
    reveal_strlit("type");
    assert("geometry"@.len() == 8 && "id"@.len() == 2 && "properties"@.len() == 10 && "type"@.len()
        == 4);
    reveal_with_fuel(json::key_from, 6);
    let ms = writer::feature_members(fields, f);
    match f.fid {
        None => {
            assert(ms.len() == 3);
            assert(ms[0].key == "geometry"@ && ms[1].key == "properties"@ && ms[2].key == "type"@);
        },
        Some(n) => {
            assert(ms.len() == 4);
            assert(ms[0].key == "geometry"@ && ms[1].key == "id"@ && ms[2].key == "properties"@
                && ms[3].key == "type"@);
        },
    }
    match f.geometry {
        None => {},
        Some(g) => {
            law_geometry_comes_back(g);
            assert(!(shapes::geometry_json_of(g) is Null));
        },
    }
}

/// Whether a value comes back from JSON under a field of type `ty`: a null does,
/// and so does a boolean, an integer, a finite number or a string under a field
/// of its own type.
pub open spec fn comes_back(v: ValueView, ty: ValueType) -> bool {
    match v {
        ValueView::Null => true,
        ValueView::Bool(_) => ty == ValueType::Bool,
        ValueView::Int16(_) => ty == ValueType::Int16,
        ValueView::Int32(_) => ty == ValueType::Int32,
        ValueView::Int64(_) => ty == ValueType::Int64,
        ValueView::Float32(b) => ty == ValueType::Float32 && float_convert::finite32(b),
        ValueView::Float64(b) => ty == ValueType::Float64 && float_bits::finite(b),
        ValueView::Text(_) => ty == ValueType::String,
        _ => false,
    }
}

/// Whether no two fields have the same name.
pub open spec fn distinct_names(fields: Seq<FieldDefView>) -> bool {
    forall|i: int, j: int|
        0 <= i < j < fields.len() ==> (#[trigger] fields[i]).name != (#[trigger] fields[j]).name
}

/// Each field is found in the properties that are written for it.
pub proof fn lemma_property_found(
    fields: Seq<FieldDefView>,
    row: Seq<ValueView>,
    n: int,
    i: int,
)
    requires
        distinct_names(fields),
        0 <= n <= fields.len(),
        0 <= i < fields.len(),
    ensures
        json::ascending(writer::properties_of(fields, row, n)),
        i < n ==> json::member(writer::properties_of(fields, row, n), fields[i].name) == Some(
            writer::property_of(fields, row, i),
        ),
    decreases n,
{
    if n > 0 {
        lemma_property_found(fields, row, n - 1, i);
        let m = writer::property_of(fields, row, n - 1);
        json::law_put_then_get(
            writer::properties_of(fields, row, n - 1),
            m,
            fields[i].name,
        );
        if i < n - 1 {
            assert(fields[i].name != fields[n - 1].name);
        }
    }
}

/// The attributes of a feature come back from the properties that are written for
/// it, under the same fields.
pub proof fn law_attributes_come_back(
    fields: Seq<FieldDefView>,
    row: Seq<ValueView>,
    i: int,
)
    requires
        distinct_names(fields),
        0 <= i < fields.len(),
        i < row.len(),
        comes_back(row[i], fields[i].ty),
    ensures
        reader::cell_of(
            fields[i],
            Some(writer::properties_of(fields, row, fields.len() as int)),
        ) == row[i],
{
    lemma_property_found(fields, row, fields.len() as int, i);
    match row[i] {
        ValueView::Float32(b) => {
            let m = float_convert::magnitude32(b) as nat;
            float_convert::law_single_through_double(m);
            float_convert::lemma_widened_fits(m);
        },
        _ => {},
    }
}

} // verus!
