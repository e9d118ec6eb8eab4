//! A collection that was written is read back.
//!
//! The text of each feature is made and parsed outside, so the law speaks of
//! texts that the parser reads as the objects they were made from. A parsed
//! member keeps its text beside its value, a built one does not: the two are
//! compared without those texts.

use crate::crs::CrsView;
use crate::feature::FeatureView;
use crate::float_convert;
use crate::geojson::error::{GeoJsonErrorView, Outcome};
use crate::geojson::geometry as shapes;
use crate::geojson::json;
use crate::geojson::json::{JsonView, MemberView};
use crate::geojson::laws;
use crate::geojson::properties;
use crate::geojson::reader;
use crate::geojson::reader::{FeatureId, OpenedView, RawView};
use crate::geojson::scanner;
use crate::geojson::scanner::TopLevelView;
use crate::geojson::writer;
use crate::geometry::{Coord, GeometryView, PolygonView};
use crate::schema::FieldDefView;
use crate::value::ValueView;
use vstd::prelude::*;
use vstd::string::*;

verus! {

// ---------------------------------------------------------------------------
// Values without the texts of their members
// ---------------------------------------------------------------------------
/// The value without the texts of its members.
pub open spec fn unlabelled(j: JsonView) -> JsonView
    decreases j,
{
    match j {
        JsonView::Array(a) => JsonView::Array(
            Seq::new(
                a.len(),
                |i: int|
                    if 0 <= i < a.len() {
                        unlabelled(a[i])
                    } else {
                        arbitrary()
                    },
            ),
        ),
        JsonView::Object(ms) => JsonView::Object(
            Seq::new(
                ms.len(),
                |i: int|
                    if 0 <= i < ms.len() {
                        shapes::built(ms[i].key, unlabelled(ms[i].value))
                    } else {
                        arbitrary()
                    },
            ),
        ),
        _ => j,
    }
}

/// The items without the texts of their members.
spec fn unlabelled_items(a: Seq<JsonView>) -> Seq<JsonView> {
    Seq::new(a.len(), |i: int| unlabelled(a[i]))
}

/// The members without their texts.
pub open spec fn unlabelled_members(ms: Seq<MemberView>) -> Seq<MemberView> {
    Seq::new(ms.len(), |i: int| shapes::built(ms[i].key, unlabelled(ms[i].value)))
}

proof fn lemma_unlabelled(j: JsonView)
    ensures
        match j {
            JsonView::Array(a) => unlabelled(j) == JsonView::Array(unlabelled_items(a)),
            JsonView::Object(ms) => unlabelled(j) == JsonView::Object(unlabelled_members(ms)),
            _ => unlabelled(j) == j,
        },
{
    match j {
        JsonView::Array(a) => {
            assert(unlabelled(j)->Array_0 =~= unlabelled_items(a));
        },
        JsonView::Object(ms) => {
            assert(unlabelled(j)->Object_0 =~= unlabelled_members(ms));
        },
        _ => {},
    }
}

proof fn lemma_key(ms: Seq<MemberView>, key: Seq<char>, i: int)
    requires
        0 <= i,
    ensures
        json::key_from(unlabelled_members(ms), key, i) == json::key_from(ms, key, i),
        match json::key_from(ms, key, i) {
            Some(k) => i <= k < ms.len() && ms[k].key == key,
            None => true,
        },
    decreases ms.len() - i,
{
    if i < ms.len() {
        lemma_key(ms, key, i + 1);
    }
}

/// What is found under a key, without the texts of its members.
proof fn lemma_get(ms: Seq<MemberView>, key: Seq<char>)
    ensures
        json::get(unlabelled_members(ms), key) == (match json::get(ms, key) {
            None => None,
            Some(v) => Some(unlabelled(v)),
        }),
{
    lemma_key(ms, key, 0);
}

// ---------------------------------------------------------------------------
// Geometries do not depend on the texts
// ---------------------------------------------------------------------------
proof fn lemma_coord(j: JsonView)
    ensures
        shapes::coord_of(unlabelled(j)) == shapes::coord_of(j),
{
    lemma_unlabelled(j);
    match j {
        JsonView::Array(a) => {
            if a.len() >= 2 {
                lemma_unlabelled(a[0]);
                lemma_unlabelled(a[1]);
            }
        },
        _ => {},
    }
}

proof fn lemma_coords(a: Seq<JsonView>, i: int, acc: Seq<Coord>)
    requires
        0 <= i,
    ensures
        shapes::coords_from(unlabelled_items(a), i, acc) == shapes::coords_from(a, i, acc),
    decreases a.len() - i,
{
    if i < a.len() {
        lemma_coord(a[i]);
        match shapes::coord_of(a[i]) {
            Ok(c) => lemma_coords(a, i + 1, acc.push(c)),
            Err(_) => {},
        }
    }
}

proof fn lemma_line(j: JsonView)
    ensures
        shapes::line_of(unlabelled(j)) == shapes::line_of(j),
{
    lemma_unlabelled(j);
    match j {
        JsonView::Array(a) => lemma_coords(a, 0, Seq::empty()),
        _ => {},
    }
}

proof fn lemma_lines(a: Seq<JsonView>, i: int, acc: Seq<Seq<Coord>>)
    requires
        0 <= i,
    ensures
        shapes::lines_from(unlabelled_items(a), i, acc) == shapes::lines_from(a, i, acc),
    decreases a.len() - i,
{
    if i < a.len() {
        lemma_line(a[i]);
        match shapes::line_of(a[i]) {
            Ok(l) => lemma_lines(a, i + 1, acc.push(l)),
            Err(_) => {},
        }
    }
}

proof fn lemma_polygon(j: JsonView)
    ensures
        shapes::polygon_of(unlabelled(j)) == shapes::polygon_of(j),
{
    lemma_unlabelled(j);
    match j {
        JsonView::Array(a) => {
            if a.len() > 0 {
                lemma_line(a[0]);
                lemma_lines(a, 1, Seq::empty());
            }
        },
        _ => {},
    }
}

proof fn lemma_polygons(a: Seq<JsonView>, i: int, acc: Seq<PolygonView>)
    requires
        0 <= i,
    ensures
        shapes::polygons_from(unlabelled_items(a), i, acc) == shapes::polygons_from(a, i, acc),
    decreases a.len() - i,
{
    if i < a.len() {
        lemma_polygon(a[i]);
        match shapes::polygon_of(a[i]) {
            Ok(p) => lemma_polygons(a, i + 1, acc.push(p)),
            Err(_) => {},
        }
    }
}

proof fn lemma_simple(ty: Seq<char>, c: JsonView)
    ensures
        shapes::simple_of(ty, unlabelled(c)) == shapes::simple_of(ty, c),
{
    lemma_unlabelled(c);
    lemma_coord(c);
    lemma_line(c);
    lemma_polygon(c);
    match c {
        JsonView::Array(a) => {
            lemma_coords(a, 0, Seq::empty());
            lemma_lines(a, 0, Seq::empty());
            lemma_polygons(a, 0, Seq::empty());
        },
        _ => {},
    }
}

proof fn lemma_geometry(j: JsonView)
    ensures
        shapes::geometry_of(unlabelled(j)) == shapes::geometry_of(j),
    decreases j, 0int,
{
    lemma_unlabelled(j);
    match j {
        JsonView::Object(ms) => {
            lemma_get(ms, "type"@);
            lemma_get(ms, "coordinates"@);
            lemma_get(ms, "geometries"@);
            match json::get(ms, "type"@) {
                Some(t) => lemma_unlabelled(t),
                None => {},
            }
            match json::get(ms, "coordinates"@) {
                Some(c) => {
                    match json::text_of(json::get(ms, "type"@)) {
                        Some(ty) => lemma_simple(ty, c),
                        None => {},
                    }
                },
                None => {},
            }
            shapes::lemma_get_smaller(ms, "geometries"@, 0);
            match json::get(ms, "geometries"@) {
                Some(g) => {
                    lemma_unlabelled(g);
                    match g {
                        JsonView::Array(items) => {
                            assert(decreases_to!(j => j->Object_0));
                            assert(decreases_to!(g => g->Array_0));
                            lemma_geometries(items, 0, Seq::empty());
                        },
                        _ => {},
                    }
                },
                None => {},
            }
        },
        _ => {},
    }
}

proof fn lemma_geometries(a: Seq<JsonView>, i: int, acc: Seq<GeometryView>)
    requires
        0 <= i,
    ensures
        shapes::geometries_from(unlabelled_items(a), i, acc) == shapes::geometries_from(a, i, acc),
    decreases a, a.len() - i,
{
    if i < a.len() {
        assert(decreases_to!(a => a[i]));
        lemma_geometry(a[i]);
        match shapes::geometry_of(a[i]) {
            Ok(g) => lemma_geometries(a, i + 1, acc.push(g)),
            Err(_) => {},
        }
    }
}

// ---------------------------------------------------------------------------
// One feature
// ---------------------------------------------------------------------------
/// Whether the parser reads the text as that object: the text is one object, and
/// what is parsed is the object but for the texts of members.
pub open spec fn stands_for(t: Seq<u8>, j: JsonView) -> bool {
    laws::one_object(t) && match json::parsed(t) {
        Ok(p) => unlabelled(p) == j,
        Err(_) => false,
    }
}

/// The value that a text is parsed as.
pub open spec fn parsed_value(t: Seq<u8>) -> JsonView {
    json::parsed(t)->Ok_0
}

/// The feature that a text describes.
pub open spec fn raw_in(t: Seq<u8>) -> RawView {
    reader::raw_of(parsed_value(t))->Ok_0
}

/// A text that stands for a feature describes that feature.
proof fn lemma_feature(t: Seq<u8>, fields: Seq<FieldDefView>, f: FeatureView)
    requires
        stands_for(t, writer::feature_json_of(fields, f)),
        f.geometry matches Some(g) ==> laws::printable_geometry(g),
    ensures
        reader::raw_of(parsed_value(t)) is Ok,
        raw_in(t).id == (match f.fid {
            None => FeatureId::Absent,
            Some(n) => FeatureId::Number(n),
        }),
        raw_in(t).geometry == (match f.geometry {
            None => None,
            Some(g) => Some(laws::flat_geometry(g)),
        }),
        raw_in(t).properties is Some,
        unlabelled_members(raw_in(t).properties->0) == writer::properties_of(
            fields,
            f.attributes,
            fields.len() as int,
        ),
{
    let j = parsed_value(t);
    lemma_unlabelled(j);
    laws::law_feature_comes_back(fields, f);
    let ms = j->Object_0;
    assert(unlabelled_members(ms) == writer::feature_members(fields, f));
    lemma_get(ms, "type"@);
    lemma_get(ms, "geometry"@);
    lemma_get(ms, "properties"@);
    lemma_get(ms, "id"@);
    match json::get(ms, "type"@) {
        Some(v) => lemma_unlabelled(v),
        None => {},
    }
    match json::get(ms, "id"@) {
        Some(v) => lemma_unlabelled(v),
        None => {},
    }
    match json::get(ms, "geometry"@) {
        Some(v) => {
            lemma_unlabelled(v);
            lemma_geometry(v);
        },
        None => {},
    }
    match json::get(ms, "properties"@) {
        Some(v) => lemma_unlabelled(v),
        None => {},
    }
    lemma_feature_type(fields, f);
}

/// The object of a feature is of the type `Feature`.
proof fn lemma_feature_type(fields: Seq<FieldDefView>, f: FeatureView)
    ensures
        json::get(writer::feature_members(fields, f), "type"@) == Some(
            JsonView::Text("Feature"@),
        ),
        json::get(writer::feature_members(fields, f), "properties"@) == Some(
            JsonView::Object(writer::properties_of(fields, f.attributes, fields.len() as int)),
        ),
{
    reveal_strlit("geometry");
    reveal_strlit("id");
    reveal_strlit("properties");
    reveal_strlit("type");
    assert("geometry"@.len() == 8 && "id"@.len() == 2 && "properties"@.len() == 10 && "type"@.len()
        == 4);
    reveal_with_fuel(json::key_from, 6);
    let ms = writer::feature_members(fields, f);
    match f.fid {
        None => {
            assert(ms.len() == 3);
            assert(ms[0].key == "geometry"@ && ms[1].key == "properties"@ && ms[2].key == "type"@);
        },
        Some(n) => {
            assert(ms.len() == 4);
            assert(ms[0].key == "geometry"@ && ms[1].key == "id"@ && ms[2].key == "properties"@
                && ms[3].key == "type"@);
        },
    }
}

/// The value of a feature in a field; null where it has none.
pub open spec fn written_value(row: Seq<ValueView>, i: int) -> ValueView {
    if i < row.len() {
        row[i]
    } else {
        ValueView::Null
    }
}

/// A value that comes back under a type comes back from the properties that were
/// parsed.
proof fn lemma_cell(
    fields: Seq<FieldDefView>,
    row: Seq<ValueView>,
    i: int,
    props: Seq<MemberView>,
    field: FieldDefView,
)
    requires
        laws::distinct_names(fields),
        0 <= i < fields.len(),
        unlabelled_members(props) == writer::properties_of(fields, row, fields.len() as int),
        field.name == fields[i].name,
        laws::comes_back(written_value(row, i), field.ty),
    ensures
        reader::cell_of(field, Some(props)) == written_value(row, i),
{
    laws::lemma_property_found(fields, row, fields.len() as int, i);
    lemma_key(props, field.name, 0);
    let want = writer::property_of(fields, row, i);
    assert(json::member(unlabelled_members(props), field.name) == Some(want));
    let k = json::key_from(props, field.name, 0)->0;
    assert(unlabelled_members(props)[k] == want);
    lemma_unlabelled(props[k].value);
    assert(props[k].value == want.value);
    match written_value(row, i) {
        ValueView::Float32(b) => {
            let m = float_convert::magnitude32(b) as nat;
            float_convert::law_single_through_double(m);
            float_convert::lemma_widened_fits(m);
        },
        _ => {},
    }
}

// ---------------------------------------------------------------------------
// The frame of a collection
// ---------------------------------------------------------------------------
/// Whether the parser reads the three strings before the first feature.
pub open spec fn frame_is_read() -> bool {
    &&& json::parsed_string(writer::ascii("\"type\""@)) == Ok::<Seq<char>, Seq<char>>("type"@)
    &&& json::parsed(writer::ascii("\"FeatureCollection\""@)) == Ok::<JsonView, Seq<char>>(
        JsonView::Text("FeatureCollection"@),
    )
    &&& json::parsed_string(writer::ascii("\"features\""@)) == Ok::<Seq<char>, Seq<char>>(
        "features"@,
    )
}

/// A string without quotes and backslashes ends at the next quote.
proof fn lemma_string_end(b: Seq<u8>, s: int, p: int, e: int)
    requires
        0 <= s < p <= e < b.len(),
        b[s] == 34,
        b[e] == 34,
        forall|k: int| p <= k < e ==> #[trigger] b[k] != 34 && b[k] != 92,
    ensures
        scanner::value_end(b, s, p, 0, true, false) == Ok::<int, GeoJsonErrorView>(e + 1),
    decreases e - p,
{
    if p < e {
        assert(b[p] != 34 && b[p] != 92);
        lemma_string_end(b, s, p + 1, e);
    }
}

proof fn lemma_string_bounds(b: Seq<u8>, s: int, e: int)
    requires
        0 <= s < e < b.len(),
        b[s] == 34,
        b[e] == 34,
        forall|k: int| s < k < e ==> #[trigger] b[k] != 34 && b[k] != 92,
    ensures
        scanner::skipped(b, s) == s,
        scanner::value_bounds(b, s) == Ok::<Option<(int, int)>, GeoJsonErrorView>(
            Some((s, e + 1)),
        ),
{
    lemma_string_end(b, s, s + 1, e);
}

/// The member that stands before the features.
pub open spec fn type_member() -> MemberView {
    let value = JsonView::Text("FeatureCollection"@);
    MemberView { key: "type"@, value, text: json::rendered(value) }
}

/// A document that begins as the writer begins one is a collection whose features
/// stand behind that beginning.
proof fn lemma_frame(b: Seq<u8>)
    requires
        frame_is_read(),
        writer::opening().len() <= b.len(),
        b.take(writer::opening().len() as int) == writer::opening(),
    ensures
        scanner::top_level(b) == Ok::<TopLevelView, GeoJsonErrorView>(
            TopLevelView::Collection {
                pos: writer::opening().len() as int,
                header_keys: seq![type_member()],
            },
        ),
{
    let o = writer::opening();
    reveal_strlit("{\"type\":\"FeatureCollection\",\"features\":[");
    reveal_strlit("\"type\"");
    reveal_strlit("\"FeatureCollection\"");
    reveal_strlit("\"features\"");
    reveal_strlit("type");
    reveal_strlit("features");
    assert(o.len() == 40);
    assert(forall|k: int| 0 <= k < 40 ==> b[k] == b.take(40)[k]);
    assert(b[0] == 123 && b[1] == 34 && b[6] == 34 && b[7] == 58 && b[8] == 34 && b[26] == 34
        && b[27] == 44 && b[28] == 34 && b[37] == 34 && b[38] == 58 && b[39] == 91);
    assert(b.subrange(1, 7) =~= writer::ascii("\"type\""@));
    assert(b.subrange(8, 27) =~= writer::ascii("\"FeatureCollection\""@));
    assert(b.subrange(28, 38) =~= writer::ascii("\"features\""@));
    assert("type"@.len() == 4 && "features"@.len() == 8);
    lemma_string_bounds(b, 1, 6);
    lemma_string_bounds(b, 8, 26);
    lemma_string_bounds(b, 28, 37);
    assert(json::put(Seq::empty(), type_member()) =~= seq![type_member()]);
    let m = type_member();
    let declared = Some("FeatureCollection"@);
    assert(scanner::skipped(b, 38) == 38 && scanner::skipped(b, 39) == 39);
    assert(scanner::top_from(b, 28, seq![m], declared) == scanner::features_at(b, 39, seq![m]));
    assert(scanner::skipped(b, 27) == 27);
    assert(scanner::top_from(b, 27, seq![m], declared) == scanner::top_from(
        b,
        28,
        seq![m],
        declared,
    ));
    assert(scanner::skipped(b, 7) == 7 && scanner::skipped(b, 8) == 8);
    assert(scanner::member_at(b, 8, "type"@) == Ok::<(MemberView, int), GeoJsonErrorView>(
        (m, 27),
    ));
    assert(scanner::top_from(b, 1, Seq::empty(), None) == scanner::top_from(
        b,
        27,
        seq![m],
        declared,
    ));
    assert(scanner::skipped(b, 0) == 0);
}

// ---------------------------------------------------------------------------
// The whole collection
// ---------------------------------------------------------------------------
/// The features that some texts describe.
pub open spec fn raws_in(texts: Seq<Seq<u8>>) -> Seq<RawView> {
    Seq::new(texts.len(), |k: int| raw_in(texts[k]))
}

/// Where the scanner finds the texts, the reader finds the features.
proof fn lemma_raws_found(b: Seq<u8>, pos: int, acc: Seq<Seq<u8>>, all: Seq<Seq<u8>>)
    requires
        0 <= pos <= b.len(),
        laws::texts_found(b, pos, acc) == Ok::<Seq<Seq<u8>>, GeoJsonErrorView>(all),
        forall|k: int|
            0 <= k < all.len() ==> json::parsed(#[trigger] all[k]) is Ok && reader::raw_of(
                parsed_value(all[k]),
            ) is Ok,
    ensures
        acc.len() <= all.len(),
        acc == all.take(acc.len() as int),
        reader::walked_raws(b, pos, raws_in(acc)) == Ok::<Seq<RawView>, GeoJsonErrorView>(
            raws_in(all),
        ),
    decreases b.len() - pos,
{
    scanner::lemma_feature_bounds(b, pos);
    match scanner::feature_bounds(b, pos) {
        Err(_) => {},
        Ok(None) => {
            assert(acc =~= all.take(acc.len() as int));
        },
        Ok(Some((s, e))) => {
            let t = b.subrange(s, e);
            let more = acc.push(t);
            lemma_raws_found(b, e, more, all);
            assert(all[acc.len() as int] == more[acc.len() as int]);
            assert(acc =~= all.take(acc.len() as int)) by {
                assert(forall|k: int| 0 <= k < acc.len() ==> acc[k] == more[k]);
                assert(forall|k: int|
                    0 <= k < more.len() ==> more[k] == all.take(more.len() as int)[k]);
            }
            assert(raws_in(more) =~= raws_in(acc).push(raw_in(t)));
        },
    }
}

/// A collection that was written is read back: its reader counts the features
/// that were written and hands out each with its identifier and its geometry
/// without Z and M ordinates. Every field that was written is among those that
/// are read, and holds every value that comes back under its type.
pub proof fn law_collection_comes_back(
    fields: Seq<FieldDefView>,
    features: Seq<FeatureView>,
    texts: Seq<Seq<u8>>,
)
    requires
        frame_is_read(),
        texts.len() == features.len(),
        forall|k: int|
            0 <= k < texts.len() ==> stands_for(
                #[trigger] texts[k],
                writer::feature_json_of(fields, features[k]),
            ),
        forall|k: int|
            0 <= k < features.len() ==> ((#[trigger] features[k]).geometry matches Some(g)
                ==> laws::printable_geometry(g)),
    ensures
        match reader::opened(laws::written(texts) + writer::closing()) {
            Ok(OpenedView::Walked { pos, schema, count }) => {
                let out = laws::handed_out(
                    laws::written(texts) + writer::closing(),
                    pos,
                    0,
                    schema.fields,
                );
                &&& count == features.len()
                &&& out.len() == features.len()
                &&& schema.crs == CrsView::Epsg(4326)
                &&& forall|k: int| 0 <= k < out.len() ==> comes_back_as(#[trigger] out[k], features[k])
                &&& laws::distinct_names(fields) && features.len() > 0 ==> forall|i: int|
                    0 <= i < fields.len() ==> has_field(schema.fields, (#[trigger] fields[i]).name)
                &&& laws::distinct_names(fields) ==> forall|k: int, i: int, x: int|
                    0 <= k < out.len() && 0 <= i < fields.len() && 0 <= x < schema.fields.len()
                        && (#[trigger] schema.fields[x]).name == (#[trigger] fields[i]).name
                        && laws::comes_back(
                        written_value(features[k].attributes, i),
                        schema.fields[x].ty,
                    ) ==> (#[trigger] out[k])->Ok_0.attributes[x] == written_value(
                        features[k].attributes,
                        i,
                    )
            },
            _ => false,
        },
{
    let b = laws::written(texts) + writer::closing();
    let start = writer::opening().len() as int;
    laws::law_written_features_are_found(texts);
    lemma_begins(texts);
    assert(b.take(start) =~= writer::opening()) by {
        assert(b.take(start) =~= laws::written(texts).take(start));
    }
    lemma_frame(b);
    assert forall|k: int| 0 <= k < texts.len() implies json::parsed(#[trigger] texts[k]) is Ok
        && reader::raw_of(parsed_value(texts[k])) is Ok by {
        lemma_feature(texts[k], fields, features[k]);
    }
    lemma_raws_found(b, start, Seq::empty(), texts);
    assert(raws_in(Seq::<Seq<u8>>::empty()) =~= Seq::empty());
    let raws = raws_in(texts);
    let schema = reader::schema_of(raws, seq![type_member()]);
    laws::lemma_walk(b, start, Seq::empty(), schema.fields, raws);
    let out = laws::handed_out(b, start, 0, schema.fields);
    reveal_strlit("type");
    reveal_strlit("crs");
    assert("type"@.len() == 4 && "crs"@.len() == 3);
    reveal_with_fuel(json::key_from, 2);
    assert(json::get(seq![type_member()], "crs"@) is None);
    assert forall|k: int| 0 <= k < out.len() implies comes_back_as(#[trigger] out[k], features[k]) by {
        lemma_feature(texts[k], fields, features[k]);
        assert(raws[k] == raw_in(texts[k]));
    }
    if laws::distinct_names(fields) {
        if features.len() > 0 {
            lemma_feature(texts[0], fields, features[0]);
            assert(raws[0] == raw_in(texts[0]));
            assert forall|i: int| 0 <= i < fields.len() implies has_field(
                schema.fields,
                (#[trigger] fields[i]).name,
            ) by {
                lemma_field(fields, features[0].attributes, i, raws);
            }
        }
        assert forall|k: int, i: int, x: int|
            0 <= k < out.len() && 0 <= i < fields.len() && 0 <= x < schema.fields.len()
                && (#[trigger] schema.fields[x]).name == (#[trigger] fields[i]).name
                        && laws::comes_back(
                written_value(features[k].attributes, i),
                schema.fields[x].ty,
            ) implies (#[trigger] out[k])->Ok_0.attributes[x] == written_value(
            features[k].attributes,
            i,
        ) by {
            lemma_feature(texts[k], fields, features[k]);
            assert(raws[k] == raw_in(texts[k]));
            lemma_cell(
                fields,
                features[k].attributes,
                i,
                raws[k].properties->0,
                schema.fields[x],
            );
        }
    }
}

/// Whether there is a field of that name.
pub open spec fn has_field(fields: Seq<FieldDefView>, name: Seq<char>) -> bool {
    exists|x: int| 0 <= x < fields.len() && (#[trigger] fields[x]).name == name
}

/// A field that was written for the first feature is inferred.
proof fn lemma_field(
    fields: Seq<FieldDefView>,
    row: Seq<ValueView>,
    i: int,
    raws: Seq<RawView>,
)
    requires
        laws::distinct_names(fields),
        0 <= i < fields.len(),
        raws.len() > 0,
        raws[0].properties is Some,
        unlabelled_members(raws[0].properties->0) == writer::properties_of(
            fields,
            row,
            fields.len() as int,
        ),
    ensures
        has_field(properties::fields_of(reader::rows_of(raws)), fields[i].name),
{
    let name = fields[i].name;
    let rows = reader::rows_of(raws);
    let props = raws[0].properties->0;
    laws::lemma_property_found(fields, row, fields.len() as int, i);
    lemma_key(props, name, 0);
    let k = json::key_from(props, name, 0)->0;
    assert(props[k].key == name);
    assert(rows[0] == Some(props));
    assert(!properties::row_lacks(rows[0], name));
    properties::lemma_keys(rows, name);
    let keys = properties::keys_of(rows);
    let x = choose|x: int| 0 <= x < keys.len() && keys[x] == name;
    assert(properties::fields_of(rows)[x].name == name);
}

/// Whether what is handed out for a feature has its identifier and its geometry.
pub open spec fn comes_back_as(r: Outcome<FeatureView>, f: FeatureView) -> bool {
    match r {
        Ok(x) => x.fid == f.fid && x.geometry == (match f.geometry {
            None => None,
            Some(g) => Some(laws::flat_geometry(g)),
        }),
        Err(_) => false,
    }
}

/// What is written begins with the opening.
proof fn lemma_begins(texts: Seq<Seq<u8>>)
    ensures
        writer::opening().len() <= laws::written(texts).len(),
        laws::written(texts).take(writer::opening().len() as int) == writer::opening(),
    decreases texts.len(),
{
    let n = writer::opening().len() as int;
    if texts.len() == 0 {
        assert(writer::opening().take(n) =~= writer::opening());
    } else {
        let before = laws::written(texts.drop_last());
        lemma_begins(texts.drop_last());
        assert(laws::written(texts).take(n) =~= before.take(n));
    }
}

} // verus!
