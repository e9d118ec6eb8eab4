//! That what is written says what it was made of.

use crate::feature::FeatureView;
use crate::float_bits;
use crate::float_convert;
use crate::float_laws;
use crate::geojson::geometry as shapes;
use crate::geojson::json;
use crate::geojson::json::{JsonView, MemberView};
use crate::geojson::laws;
use crate::geojson::properties;
use crate::geojson::reading_laws;
use crate::geojson::writer;
use crate::geometry::GeometryView;
use crate::schema::FieldDefView;
use crate::single_laws;
use crate::text;
use crate::text_laws;
use crate::value::ValueView;
use vstd::prelude::*;
use vstd::string::*;

verus! {

/// A geometry is written as an object that describes it, without its Z and M
/// ordinates.
pub proof fn law_written_geometry_is_described(g: GeometryView)
    requires
        laws::printable_geometry(g),
    ensures
        reading_laws::describes(shapes::geometry_json_of(g), laws::flat_geometry(g)),
{
    laws::law_geometry_comes_back(g);
    reading_laws::law_read_geometry_is_described(shapes::geometry_json_of(g));
}

/// Whether a JSON value is that whole number.
pub open spec fn whole(j: JsonView, n: int) -> bool {
    match j {
        JsonView::UInt(k) => k == n,
        JsonView::NegInt(k) => k == n && n < 0,
        _ => false,
    }
}

/// Whether two small hexadecimal digits at place `2 * i` of a text are those of a
/// byte.
pub open spec fn spelled(s: Seq<char>, i: int, b: u8) -> bool {
    &&& text_laws::worth(s[2 * i]) is Some
    &&& text_laws::worth(s[2 * i + 1]) is Some
    &&& 16 * text_laws::worth(s[2 * i])->0 + text_laws::worth(s[2 * i + 1])->0 == b
    &&& text::lower(s[2 * i]) == s[2 * i]
    &&& text::lower(s[2 * i + 1]) == s[2 * i + 1]
}

/// Whether a text has two small hexadecimal digits for each of the bytes.
pub open spec fn spells(s: Seq<char>, b: Seq<u8>) -> bool {
    &&& s.len() == 2 * b.len()
    &&& forall|i: int| 0 <= i < b.len() ==> spelled(s, i, #[trigger] b[i])
}

/// Bytes are written as two digits each.
pub proof fn law_bytes_are_spelled(b: Seq<u8>)
    ensures
        spells(properties::hex_of(b), b),
    decreases b.len(),
{
    if b.len() > 0 {
        let t = b.drop_last();
        let s = properties::hex_of(b);
        let h = properties::hex_of(t);
        law_bytes_are_spelled(t);
        assert(s.len() == 2 * b.len());
        assert forall|i: int| 0 <= i < b.len() implies spelled(s, i, #[trigger] b[i]) by {
            if i < t.len() {
                assert(spelled(h, i, t[i]));
                assert(s[2 * i] == h[2 * i] && s[2 * i + 1] == h[2 * i + 1]);
            }
        }
    }
}

/// Whether a JSON value says what an attribute value is. A number that JSON has no
/// form for is null.
pub open spec fn says(j: JsonView, v: ValueView) -> bool {
    match v {
        ValueView::Null => j is Null,
        ValueView::Bool(b) => j == JsonView::Bool(b),
        ValueView::Int16(n) => whole(j, n as int),
        ValueView::Int32(n) => whole(j, n as int),
        ValueView::Int64(n) => whole(j, n as int),
        ValueView::Float32(b) => if float_convert::finite32(b) {
            j matches JsonView::Float(d) && float_laws::number(d) == single_laws::single_number(b)
                * single_laws::ratio()
        } else {
            j is Null
        },
        ValueView::Float64(b) => if float_bits::finite(b) {
            j == JsonView::Float(b)
        } else {
            j is Null
        },
        ValueView::DateTime(b) => if float_bits::finite(b) {
            j == JsonView::Float(b)
        } else {
            j is Null
        },
        ValueView::Text(s) => j == JsonView::Text(s),
        ValueView::Xml(s) => j == JsonView::Text(s),
        ValueView::Binary(b) => j matches JsonView::Text(s) && spells(s, b),
        ValueView::Guid(g) => j matches JsonView::Text(s) && spells(s, g@),
    }
}

/// An attribute value is written as a JSON value that says what it is.
pub proof fn law_written_values(v: ValueView)
    ensures
        says(properties::json_of_value(v), v),
{
    match v {
        ValueView::Binary(b) => {
            law_bytes_are_spelled(b);
        },
        ValueView::Guid(g) => {
            law_bytes_are_spelled(g@);
        },
        ValueView::Float32(b) => {
            if float_convert::finite32(b) {
                single_laws::law_doubles_of_singles(b);
            }
        },
        _ => {},
    }
}

/// Whether the members say what a feature is: its type, its geometry or null, its
/// identifier if it has one, and under the name of each field the value of that
/// field, or null where there is none.
pub open spec fn tells(ms: Seq<MemberView>, fields: Seq<FieldDefView>, f: FeatureView) -> bool {
    &&& reading_laws::holds(ms, "type"@, JsonView::Text("Feature"@))
    &&& match f.geometry {
        None => reading_laws::holds(ms, "geometry"@, JsonView::Null),
        Some(g) => laws::printable_geometry(g) ==> exists|j: JsonView| #[trigger]
            reading_laws::holds(ms, "geometry"@, j) && reading_laws::describes(
                j,
                laws::flat_geometry(g),
            ),
    }
    &&& match f.fid {
        None => reading_laws::missing(ms, "id"@),
        Some(n) => exists|j: JsonView| #[trigger]
            reading_laws::holds(ms, "id"@, j) && whole(j, n as int),
    }
    &&& exists|ps: Seq<MemberView>| #[trigger]
        reading_laws::holds(ms, "properties"@, JsonView::Object(ps)) && lists(
            ps,
            fields,
            f.attributes,
        )
}

/// Whether the members are the values of the fields.
pub open spec fn lists(
    ps: Seq<MemberView>,
    fields: Seq<FieldDefView>,
    row: Seq<ValueView>,
) -> bool {
    &&& forall|i: int|
        #![trigger fields[i]]
        0 <= i < fields.len() ==> exists|j: JsonView| #[trigger]
            reading_laws::holds(ps, fields[i].name, j) && says(j, given(row, i))
    &&& forall|k: int|
        #![trigger ps[k]]
        0 <= k < ps.len() ==> exists|i: int|
            0 <= i < fields.len() && ps[k].key == (#[trigger] fields[i]).name
}

proof fn lemma_keys_are_fields(fields: Seq<FieldDefView>, row: Seq<ValueView>, n: int, k: int)
    requires
        0 <= n <= fields.len(),
        0 <= k < writer::properties_of(fields, row, n).len(),
    ensures
        exists|i: int|
            0 <= i < n && writer::properties_of(fields, row, n)[k].key == (
            #[trigger] fields[i]).name,
    decreases n,
{
    if n > 0 {
        let prev = writer::properties_of(fields, row, n - 1);
        let now = writer::properties_of(fields, row, n);
        let m = writer::property_of(fields, row, n - 1);
        let p = json::place_from(prev, m.key, 0);
        json::lemma_place(prev, m.key, 0);
        let replaced = p < prev.len() && prev[p].key == m.key;
        if k == p {
            assert(now[k].key == fields[n - 1].name);
        } else {
            let q = if replaced || k < p {
                k
            } else {
                k - 1
            };
            assert(now[k] == prev[q]);
            lemma_keys_are_fields(fields, row, n - 1, q);
            let i = choose|i: int| 0 <= i < n - 1 && prev[q].key == (#[trigger] fields[i]).name;
            assert(now[k].key == fields[i].name);
        }
    }
}

/// The value that is written for a field.
pub open spec fn given(row: Seq<ValueView>, i: int) -> ValueView {
    if i < row.len() {
        row[i]
    } else {
        ValueView::Null
    }
}

proof fn lemma_listed(fields: Seq<FieldDefView>, row: Seq<ValueView>, i: int)
    requires
        laws::distinct_names(fields),
        0 <= i < fields.len(),
    ensures
        ({
            let ps = writer::properties_of(fields, row, fields.len() as int);
            let j = writer::property_of(fields, row, i).value;
            reading_laws::holds(ps, fields[i].name, j) && says(j, given(row, i))
        }),
{
    let ps = writer::properties_of(fields, row, fields.len() as int);
    laws::lemma_property_found(fields, row, fields.len() as int, i);
    reading_laws::law_get_is_the_first(ps, fields[i].name);
    law_written_values(given(row, i));
}

proof fn lemma_lists(fields: Seq<FieldDefView>, row: Seq<ValueView>)
    requires
        laws::distinct_names(fields),
    ensures
        lists(writer::properties_of(fields, row, fields.len() as int), fields, row),
{
    let ps = writer::properties_of(fields, row, fields.len() as int);
    assert forall|i: int|
        #![trigger fields[i]]
        0 <= i < fields.len() implies exists|j: JsonView| #[trigger]
        reading_laws::holds(ps, fields[i].name, j) && says(j, given(row, i)) by {
        lemma_listed(fields, row, i);
    }
    assert forall|k: int| #![trigger ps[k]] 0 <= k < ps.len() implies exists|i: int|
        0 <= i < fields.len() && ps[k].key == (#[trigger] fields[i]).name by {
        lemma_keys_are_fields(fields, row, fields.len() as int, k);
    }
}

proof fn lemma_member_names()
    ensures
        "geometry"@ != "id"@,
        "geometry"@ != "properties"@,
        "geometry"@ != "type"@,
        "id"@ != "properties"@,
        "id"@ != "type"@,
        "properties"@ != "type"@,
{
    reveal_strlit("geometry");
    reveal_strlit("id");
    reveal_strlit("properties");
    reveal_strlit("type");
    assert("geometry"@.len() == 8 && "id"@.len() == 2 && "properties"@.len() == 10 && "type"@.len()
        == 4);
}

/// A feature is written as an object that says what it is.
pub proof fn law_written_features(fields: Seq<FieldDefView>, f: FeatureView)
    requires
        laws::distinct_names(fields),
    ensures
        writer::feature_json_of(fields, f) matches JsonView::Object(ms) && tells(ms, fields, f),
{
    let ms = writer::feature_members(fields, f);
    let row = f.attributes;
    let ps = writer::properties_of(fields, row, fields.len() as int);
    lemma_member_names();
    let n = ms.len() as int;
    assert(ms[n - 1].key == "type"@ && ms[n - 2].key == "properties"@ && ms[0].key == "geometry"@);
    if f.fid is Some {
        assert(n == 4);
        assert(ms[1].key == "id"@);
        assert(reading_laws::holds(ms, "id"@, ms[1].value));
    }
    assert(reading_laws::holds(ms, "type"@, ms[n - 1].value));
    assert(reading_laws::holds(ms, "geometry"@, ms[0].value));
    assert(reading_laws::holds(ms, "properties"@, ms[n - 2].value));
    assert(ms[n - 2].value == JsonView::Object(ps));
    lemma_lists(fields, row);
    if let Some(g) = f.geometry {
        if laws::printable_geometry(g) {
            law_written_geometry_is_described(g);
        }
    }
}

/// The members of a feature stand in the order of their keys.
pub proof fn law_written_members_ascend(fields: Seq<FieldDefView>, f: FeatureView, i: int, j: int)
    requires
        0 <= i < j < writer::feature_members(fields, f).len(),
    ensures
        exists|k: int| #[trigger]
            reading_laws::smaller_at(
                writer::feature_members(fields, f)[i].key,
                writer::feature_members(fields, f)[j].key,
                k,
            ),
{
    reveal_strlit("geometry");
    reveal_strlit("id");
    reveal_strlit("properties");
    reveal_strlit("type");
    let a = writer::feature_members(fields, f)[i].key;
    let b = writer::feature_members(fields, f)[j].key;
    assert("geometry"@[0] == 'g' && "id"@[0] == 'i' && "properties"@[0] == 'p' && "type"@[0]
        == 't');
    assert(a.take(0) =~= b.take(0));
    assert(reading_laws::smaller_at(a, b, 0));
}

} // verus!
