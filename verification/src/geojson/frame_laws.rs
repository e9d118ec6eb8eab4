//! How the members of a document stand in its text, and what the document is
//! taken for.

use crate::geojson::document_laws;
use crate::geojson::document_laws::{Part, Unit};
use crate::geojson::error::GeoJsonErrorView;
use crate::geojson::json;
use crate::geojson::json::{JsonView, MemberView};
use crate::geojson::scanner;
use crate::geojson::scanner::TopLevelView;
use vstd::prelude::*;
use vstd::string::*;

verus! {

/// A member in the text: its key as a string, and its value.
pub struct Entry {
    pub key: Seq<Unit>,
    pub value: Part,
}

pub open spec fn key_bytes(e: Entry) -> Seq<u8> {
    document_laws::part_bytes(Part::Quoted(e.key))
}

/// A key, a colon and a value.
pub open spec fn entry_bytes(e: Entry) -> Seq<u8> {
    key_bytes(e) + (seq![58u8] + document_laws::part_bytes(e.value))
}

/// The members, each with a comma behind it.
pub open spec fn entries_bytes(es: Seq<Entry>) -> Seq<u8>
    decreases es.len(),
{
    if es.len() == 0 {
        Seq::empty()
    } else {
        entry_bytes(es[0]) + (seq![44u8] + entries_bytes(es.skip(1)))
    }
}

/// Whether the parts of a member are well written, and its value is an object, an
/// array or a string.
pub open spec fn entry_sound(e: Entry) -> bool {
    &&& document_laws::units_sound(e.key)
    &&& document_laws::part_sound(e.value)
    &&& !(e.value is Byte)
}

/// Whether the text of a member reads as that member, which is not that of the
/// features.
pub open spec fn reads_as(e: Entry, m: MemberView) -> bool {
    &&& entry_sound(e)
    &&& m.key != "features"@
    &&& json::string_at(key_bytes(e)) == Ok::<Seq<char>, GeoJsonErrorView>(m.key)
    &&& json::json_at(document_laws::part_bytes(e.value)) == Ok::<JsonView, GeoJsonErrorView>(
        m.value,
    )
    &&& m.text == json::rendered(m.value)
}

pub open spec fn all_read_as(es: Seq<Entry>, ms: Seq<MemberView>) -> bool {
    es.len() == ms.len() && forall|i: int| 0 <= i < es.len() ==> reads_as(#[trigger] es[i], ms[i])
}

/// The members put one after the other into an object that has `keys`.
pub open spec fn gathered(ms: Seq<MemberView>, keys: Seq<MemberView>) -> Seq<MemberView>
    decreases ms.len(),
{
    if ms.len() == 0 {
        keys
    } else {
        gathered(ms.skip(1), json::put(keys, ms[0]))
    }
}

/// The text under the last key `type`, or what was declared before.
pub open spec fn declared(ms: Seq<MemberView>, before: Option<Seq<char>>) -> Option<Seq<char>>
    decreases ms.len(),
{
    if ms.len() == 0 {
        before
    } else {
        declared(
            ms.skip(1),
            if ms[0].key == "type"@ {
                match ms[0].value {
                    JsonView::Text(s) => Some(s),
                    _ => None,
                }
            } else {
                before
            },
        )
    }
}

proof fn lemma_first_byte(p: Part)
    requires
        !(p is Byte),
    ensures
        document_laws::part_bytes(p).len() >= 2,
        scanner::structured(document_laws::part_bytes(p)[0]),
        !scanner::blank(document_laws::part_bytes(p)[0]),
        p is Quoted ==> document_laws::part_bytes(p)[0] == 34,
{
}

proof fn lemma_key(b: Seq<u8>, pos: int, e: Entry)
    requires
        document_laws::stands(b, pos, entry_bytes(e)),
        entry_sound(e),
    ensures
        b[pos] == 34,
        scanner::skipped(b, pos) == pos,
        scanner::value_bounds(b, pos) == Ok::<Option<(int, int)>, GeoJsonErrorView>(
            Some((pos, pos + key_bytes(e).len())),
        ),
        b.subrange(pos, pos + key_bytes(e).len()) == key_bytes(e),
        forall|key: Seq<char>| #[trigger]
            scanner::after_key(b, pos + key_bytes(e).len(), key) == Ok::<int, GeoJsonErrorView>(
                pos + key_bytes(e).len() + 1,
            ),
        document_laws::stands(
            b,
            pos + key_bytes(e).len() + 1,
            document_laws::part_bytes(e.value),
        ),
{
    let k = key_bytes(e);
    let v = document_laws::part_bytes(e.value);
    let q = pos + k.len();
    lemma_first_byte(Part::Quoted(e.key));
    lemma_first_byte(e.value);
    document_laws::lemma_split(b, pos, k, seq![58u8] + v);
    document_laws::lemma_split(b, q, seq![58u8], v);
    document_laws::lemma_byte(b, pos, k, 0);
    document_laws::lemma_byte(b, q, seq![58u8], 0);
    document_laws::lemma_byte(b, q + 1, v, 0);
    document_laws::law_values_are_found(b, pos, pos, Part::Quoted(e.key));
}

proof fn lemma_entry(
    b: Seq<u8>,
    pos: int,
    e: Entry,
    m: MemberView,
    keys: Seq<MemberView>,
    d: Option<Seq<char>>,
)
    requires
        document_laws::stands(b, pos, entry_bytes(e)),
        reads_as(e, m),
    ensures
        scanner::top_from(b, pos, keys, d) == scanner::top_from(
            b,
            pos + entry_bytes(e).len(),
            json::put(keys, m),
            if m.key == "type"@ {
                match m.value {
                    JsonView::Text(s) => Some(s),
                    _ => None,
                }
            } else {
                d
            },
        ),
{
    let k = key_bytes(e);
    let v = document_laws::part_bytes(e.value);
    let at = pos + k.len() + 1;
    lemma_key(b, pos, e);
    document_laws::law_values_are_found(b, at, at, e.value);
    assert(scanner::after_key(b, pos + k.len(), m.key) == Ok::<int, GeoJsonErrorView>(at));
    assert(scanner::member_at(b, at, m.key) == Ok::<(MemberView, int), GeoJsonErrorView>(
        (m, at + v.len()),
    ));
}

proof fn lemma_entries(
    b: Seq<u8>,
    pos: int,
    es: Seq<Entry>,
    ms: Seq<MemberView>,
    keys: Seq<MemberView>,
    d: Option<Seq<char>>,
)
    requires
        document_laws::stands(b, pos, entries_bytes(es)),
        all_read_as(es, ms),
    ensures
        scanner::top_from(b, pos, keys, d) == scanner::top_from(
            b,
            pos + entries_bytes(es).len(),
            gathered(ms, keys),
            declared(ms, d),
        ),
    decreases es.len(),
{
    if es.len() > 0 {
        let e = es[0];
        let rest = entries_bytes(es.skip(1));
        let q = pos + entry_bytes(e).len();
        document_laws::lemma_split(b, pos, entry_bytes(e), seq![44u8] + rest);
        document_laws::lemma_split(b, q, seq![44u8], rest);
        document_laws::lemma_byte(b, q, seq![44u8], 0);
        assert(reads_as(es[0], ms[0]));
        lemma_entry(b, pos, e, ms[0], keys, d);
        let more = json::put(keys, ms[0]);
        let next = declared(seq![ms[0]], d);
        assert(seq![ms[0]].skip(1) =~= Seq::<MemberView>::empty());
        reveal_with_fuel(declared, 2);
        assert(scanner::skipped(b, q) == q);
        assert(scanner::top_from(b, q, more, next) == scanner::top_from(b, q + 1, more, next));
        assert forall|i: int| 0 <= i < es.skip(1).len() implies reads_as(
            #[trigger] es.skip(1)[i],
            ms.skip(1)[i],
        ) by {
            assert(reads_as(es[i + 1], ms[i + 1]));
        }
        lemma_entries(b, q + 1, es.skip(1), ms.skip(1), more, next);
    }
}

/// A document whose features open behind some members is a collection: the
/// members stand in its header, and its features begin behind the bracket.
pub proof fn law_collections_are_opened(
    es: Seq<Entry>,
    ms: Seq<MemberView>,
    f: Seq<Unit>,
    rest: Seq<u8>,
)
    requires
        all_read_as(es, ms),
        document_laws::units_sound(f),
        json::string_at(document_laws::part_bytes(Part::Quoted(f))) == Ok::<
            Seq<char>,
            GeoJsonErrorView,
        >("features"@),
    ensures
        ({
            let key = document_laws::part_bytes(Part::Quoted(f));
            let head = seq![123u8] + (entries_bytes(es) + (key + seq![58u8, 91u8]));
            scanner::top_level(head + rest) == Ok::<TopLevelView, GeoJsonErrorView>(
                TopLevelView::Collection {
                    pos: head.len() as int,
                    header_keys: gathered(ms, Seq::empty()),
                },
            )
        }),
{
    let key = document_laws::part_bytes(Part::Quoted(f));
    let tail = key + seq![58u8, 91u8];
    let head = seq![123u8] + (entries_bytes(es) + tail);
    let b = head + rest;
    assert(b.subrange(0, head.len() as int) =~= head);
    document_laws::lemma_split(b, 0, seq![123u8], entries_bytes(es) + tail);
    document_laws::lemma_split(b, 1, entries_bytes(es), tail);
    let p = 1 + entries_bytes(es).len() as int;
    document_laws::lemma_split(b, p, key, seq![58u8, 91u8]);
    let q = p + key.len();
    document_laws::lemma_byte(b, 0, seq![123u8], 0);
    document_laws::lemma_byte(b, q, seq![58u8, 91u8], 0);
    document_laws::lemma_byte(b, q, seq![58u8, 91u8], 1);
    assert(scanner::skipped(b, 0) == 0);
    lemma_entries(b, 1, es, ms, Seq::empty(), None);
    lemma_first_byte(Part::Quoted(f));
    document_laws::lemma_byte(b, p, key, 0);
    assert(scanner::skipped(b, p) == p);
    document_laws::law_values_are_found(b, p, p, Part::Quoted(f));
    assert(scanner::skipped(b, q) == q);
    assert(scanner::skipped(b, q + 1) == q + 1);
    assert(scanner::after_key(b, q, "features"@) == Ok::<int, GeoJsonErrorView>(q + 1));
    assert(b.subrange(p, q) == key);
}

/// A document without features is what its last `type` says: a feature, a
/// geometry, or nothing that is supported.
pub proof fn law_single_objects_are_told(es: Seq<Entry>, ms: Seq<MemberView>, rest: Seq<u8>)
    requires
        all_read_as(es, ms),
    ensures
        ({
            let all = JsonView::Object(gathered(ms, Seq::empty()));
            let top = scanner::top_level(seq![123u8] + (entries_bytes(es) + seq![125u8]) + rest);
            match declared(ms, None) {
                None => top matches Err(e) && e is Malformed,
                Some(ty) => if ty == "Feature"@ {
                    top == Ok::<TopLevelView, GeoJsonErrorView>(TopLevelView::BareFeature(all))
                } else if ty == "Point"@ || ty == "LineString"@ || ty == "Polygon"@ || ty
                    == "MultiPoint"@ || ty == "MultiLineString"@ || ty == "MultiPolygon"@ || ty
                    == "GeometryCollection"@ {
                    top == Ok::<TopLevelView, GeoJsonErrorView>(TopLevelView::BareGeometry(all))
                } else {
                    top matches Err(e) && e is Unsupported
                },
            }
        }),
{
    let head = seq![123u8] + (entries_bytes(es) + seq![125u8]);
    let b = head + rest;
    assert(b.subrange(0, head.len() as int) =~= head);
    document_laws::lemma_split(b, 0, seq![123u8], entries_bytes(es) + seq![125u8]);
    document_laws::lemma_split(b, 1, entries_bytes(es), seq![125u8]);
    let p = 1 + entries_bytes(es).len() as int;
    document_laws::lemma_byte(b, 0, seq![123u8], 0);
    document_laws::lemma_byte(b, p, seq![125u8], 0);
    assert(scanner::skipped(b, 0) == 0);
    lemma_entries(b, 1, es, ms, Seq::empty(), None);
    assert(scanner::skipped(b, p) == p);
}

/// A document is an object: without one there is nothing to read.
pub proof fn law_documents_are_objects(b: Seq<u8>)
    ensures
        b.len() == 0 ==> scanner::top_level(b) is Err,
        b.len() > 0 && !document_laws::space(b[0]) && b[0] != 123 ==> scanner::top_level(b) is Err,
{
    scanner::lemma_skipped(b, 0);
}

} // verus!
