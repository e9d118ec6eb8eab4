//! How values stand in the text of a document, and what a document says as a
//! whole.

use crate::crs::CrsView;
use crate::feature::FeatureView;
use crate::geojson::error::GeoJsonErrorView;
use crate::geojson::json;
use crate::geojson::json::{JsonView, MemberView};
use crate::geojson::properties;
use crate::geojson::properties::Row;
use crate::geojson::reader;
use crate::geojson::reader::{FeatureId, RawView};
use crate::geojson::reading_laws;
use crate::geojson::scanner;
use crate::geometry;
use crate::geometry::{GeometryType, GeometryView};
use crate::schema::SchemaView;
use crate::text;
use crate::text_laws;
use crate::value::ValueView;
use vstd::prelude::*;
use vstd::string::*;

verus! {

// ---------------------------------------------------------------------------
// Values in text
// ---------------------------------------------------------------------------
/// A byte of a string, or one behind a backslash.
pub enum Unit {
    Plain(u8),
    Escaped(u8),
}

/// A piece of JSON text: a byte that is none of the quotes, braces and brackets,
/// a string, or what stands between braces or brackets.
pub enum Part {
    Byte(u8),
    Quoted(Seq<Unit>),
    Braces(Seq<Part>),
    Brackets(Seq<Part>),
}

pub open spec fn unit_bytes(u: Unit) -> Seq<u8> {
    match u {
        Unit::Plain(c) => seq![c],
        Unit::Escaped(c) => seq![92u8, c],
    }
}

pub open spec fn units_bytes(us: Seq<Unit>) -> Seq<u8>
    decreases us.len(),
{
    if us.len() == 0 {
        Seq::empty()
    } else {
        unit_bytes(us[0]) + units_bytes(us.skip(1))
    }
}

/// The bytes of a piece.
pub open spec fn part_bytes(p: Part) -> Seq<u8>
    decreases p,
{
    match p {
        Part::Byte(c) => seq![c],
        Part::Quoted(us) => seq![34u8] + (units_bytes(us) + seq![34u8]),
        Part::Braces(ps) => seq![123u8] + (parts_bytes(ps) + seq![125u8]),
        Part::Brackets(ps) => seq![91u8] + (parts_bytes(ps) + seq![93u8]),
    }
}

pub open spec fn parts_bytes(ps: Seq<Part>) -> Seq<u8>
    decreases ps,
{
    if ps.len() == 0 {
        Seq::empty()
    } else {
        part_bytes(ps[0]) + parts_bytes(ps.skip(1))
    }
}

pub open spec fn units_sound(us: Seq<Unit>) -> bool {
    forall|i: int| 0 <= i < us.len() ==> ((#[trigger] us[i]) matches Unit::Plain(c) ==> c != 34 && c
        != 92)
}

/// Whether every byte of a piece is what it is given as.
pub open spec fn part_sound(p: Part) -> bool
    decreases p,
{
    match p {
        Part::Byte(c) => c != 34 && c != 123 && c != 125 && c != 91 && c != 93,
        Part::Quoted(us) => units_sound(us),
        Part::Braces(ps) => parts_sound(ps),
        Part::Brackets(ps) => parts_sound(ps),
    }
}

pub open spec fn parts_sound(ps: Seq<Part>) -> bool
    decreases ps,
{
    ps.len() > 0 ==> part_sound(ps[0]) && parts_sound(ps.skip(1))
}

/// Whether those bytes stand at `pos`.
pub open spec fn stands(b: Seq<u8>, pos: int, s: Seq<u8>) -> bool {
    0 <= pos && pos + s.len() <= b.len() && b.subrange(pos, pos + s.len()) == s
}

pub proof fn lemma_split(b: Seq<u8>, pos: int, s: Seq<u8>, t: Seq<u8>)
    requires
        stands(b, pos, s + t),
    ensures
        stands(b, pos, s),
        stands(b, pos + s.len(), t),
{
    let whole = b.subrange(pos, pos + (s + t).len());
    assert(b.subrange(pos, pos + s.len()) =~= whole.take(s.len() as int));
    assert((s + t).take(s.len() as int) =~= s);
    assert(b.subrange(pos + s.len(), pos + s.len() + t.len()) =~= whole.skip(s.len() as int));
    assert((s + t).skip(s.len() as int) =~= t);
}

pub proof fn lemma_byte(b: Seq<u8>, pos: int, s: Seq<u8>, i: int)
    requires
        stands(b, pos, s),
        0 <= i < s.len(),
    ensures
        b[pos + i] == s[i],
{
    assert(b.subrange(pos, pos + s.len())[i] == s[i]);
}

proof fn lemma_units(b: Seq<u8>, start: int, pos: int, us: Seq<Unit>, depth: nat)
    requires
        stands(b, pos, units_bytes(us)),
        units_sound(us),
    ensures
        scanner::value_end(b, start, pos, depth, true, false) == scanner::value_end(
            b,
            start,
            pos + units_bytes(us).len(),
            depth,
            true,
            false,
        ),
    decreases us.len(),
{
    if us.len() > 0 {
        let rest = us.skip(1);
        lemma_split(b, pos, unit_bytes(us[0]), units_bytes(rest));
        assert forall|i: int| 0 <= i < rest.len() implies ((#[trigger] rest[i]) matches Unit::Plain(
            c,
        ) ==> c != 34 && c != 92) by {
            assert(rest[i] == us[i + 1]);
        }
        lemma_units(b, start, pos + unit_bytes(us[0]).len(), rest, depth);
        lemma_byte(b, pos, unit_bytes(us[0]), 0);
        match us[0] {
            Unit::Plain(c) => {},
            Unit::Escaped(c) => {
                assert(scanner::value_end(b, start, pos, depth, true, false) == scanner::value_end(
                    b,
                    start,
                    pos + 1,
                    depth,
                    true,
                    true,
                ));
            },
        }
    }
}

proof fn lemma_part(b: Seq<u8>, start: int, pos: int, p: Part, depth: nat)
    requires
        stands(b, pos, part_bytes(p)),
        part_sound(p),
        depth >= 1,
        scanner::structured(b[start]),
    ensures
        scanner::value_end(b, start, pos, depth, false, false) == scanner::value_end(
            b,
            start,
            pos + part_bytes(p).len(),
            depth,
            false,
            false,
        ),
    decreases p, 0int,
{
    match p {
        Part::Byte(c) => {
            lemma_byte(b, pos, seq![c], 0);
        },
        Part::Quoted(us) => {
            let s = units_bytes(us);
            lemma_split(b, pos, seq![34u8], s + seq![34u8]);
            lemma_split(b, pos + 1, s, seq![34u8]);
            lemma_byte(b, pos, seq![34u8], 0);
            lemma_byte(b, pos + 1 + s.len(), seq![34u8], 0);
            lemma_units(b, start, pos + 1, us, depth);
            assert(scanner::value_end(b, start, pos, depth, false, false) == scanner::value_end(
                b,
                start,
                pos + 1,
                depth,
                true,
                false,
            ));
        },
        Part::Braces(ps) => {
            assert(decreases_to!(p => ps));
            lemma_nested(b, start, pos, 123, 125, ps, depth);
        },
        Part::Brackets(ps) => {
            assert(decreases_to!(p => ps));
            lemma_nested(b, start, pos, 91, 93, ps, depth);
        },
    }
}

proof fn lemma_nested(
    b: Seq<u8>,
    start: int,
    pos: int,
    open: u8,
    close: u8,
    ps: Seq<Part>,
    depth: nat,
)
    requires
        stands(b, pos, seq![open] + (parts_bytes(ps) + seq![close])),
        parts_sound(ps),
        depth >= 1,
        scanner::structured(b[start]),
        open == 123 || open == 91,
        close == 125 || close == 93,
    ensures
        scanner::value_end(b, start, pos, depth, false, false) == scanner::value_end(
            b,
            start,
            pos + (seq![open] + (parts_bytes(ps) + seq![close])).len(),
            depth,
            false,
            false,
        ),
    decreases ps, 2int,
{
    let s = parts_bytes(ps);
    lemma_split(b, pos, seq![open], s + seq![close]);
    lemma_split(b, pos + 1, s, seq![close]);
    lemma_byte(b, pos, seq![open], 0);
    lemma_byte(b, pos + 1 + s.len(), seq![close], 0);
    lemma_parts(b, start, pos + 1, ps, depth + 1);
    assert(scanner::value_end(b, start, pos, depth, false, false) == scanner::value_end(
        b,
        start,
        pos + 1,
        depth + 1,
        false,
        false,
    ));
}

proof fn lemma_parts(b: Seq<u8>, start: int, pos: int, ps: Seq<Part>, depth: nat)
    requires
        stands(b, pos, parts_bytes(ps)),
        parts_sound(ps),
        depth >= 1,
        scanner::structured(b[start]),
    ensures
        scanner::value_end(b, start, pos, depth, false, false) == scanner::value_end(
            b,
            start,
            pos + parts_bytes(ps).len(),
            depth,
            false,
            false,
        ),
    decreases ps, 1int,
{
    if ps.len() > 0 {
        lemma_split(b, pos, part_bytes(ps[0]), parts_bytes(ps.skip(1)));
        assert(decreases_to!(ps => ps[0]));
        lemma_part(b, start, pos, ps[0], depth);
        lemma_parts(b, start, pos + part_bytes(ps[0]).len(), ps.skip(1), depth);
    }
}

proof fn lemma_group_end(b: Seq<u8>, pos: int, open: u8, close: u8, ps: Seq<Part>)
    requires
        stands(b, pos, seq![open] + (parts_bytes(ps) + seq![close])),
        parts_sound(ps),
        open == 123 || open == 91,
        close == 125 || close == 93,
    ensures
        scanner::value_end(b, pos, pos, 0, false, false) == Ok::<int, GeoJsonErrorView>(
            pos + 1 + parts_bytes(ps).len() + 1,
        ),
{
    let s = parts_bytes(ps);
    lemma_split(b, pos, seq![open], s + seq![close]);
    lemma_split(b, pos + 1, s, seq![close]);
    lemma_byte(b, pos, seq![open], 0);
    lemma_byte(b, pos + 1 + s.len(), seq![close], 0);
    lemma_parts(b, pos, pos + 1, ps, 1);
    assert(scanner::value_end(b, pos, pos, 0, false, false) == scanner::value_end(
        b,
        pos,
        pos + 1,
        1,
        false,
        false,
    ));
}

proof fn lemma_string_end(b: Seq<u8>, pos: int, us: Seq<Unit>)
    requires
        stands(b, pos, part_bytes(Part::Quoted(us))),
        units_sound(us),
    ensures
        scanner::value_end(b, pos, pos, 0, false, false) == Ok::<int, GeoJsonErrorView>(
            pos + part_bytes(Part::Quoted(us)).len(),
        ),
{
    let s = units_bytes(us);
    lemma_split(b, pos, seq![34u8], s + seq![34u8]);
    lemma_split(b, pos + 1, s, seq![34u8]);
    lemma_byte(b, pos, seq![34u8], 0);
    lemma_byte(b, pos + 1 + s.len(), seq![34u8], 0);
    lemma_units(b, pos, pos + 1, us, 0);
    assert(scanner::value_end(b, pos, pos, 0, false, false) == scanner::value_end(
        b,
        pos,
        pos + 1,
        0,
        true,
        false,
    ));
}

/// Whether the byte is white space.
pub open spec fn space(c: u8) -> bool {
    c == 32 || c == 9 || c == 10 || c == 12 || c == 13
}

/// Whether the byte may stand in a number or a word.
pub open spec fn wordy(c: u8) -> bool {
    !space(c) && c != 44 && c != 58 && c != 34 && c != 123 && c != 125 && c != 91 && c != 93
}

proof fn lemma_word_end(b: Seq<u8>, start: int, pos: int, end: int)
    requires
        0 <= start <= pos <= end <= b.len(),
        start < end,
        forall|i: int| start <= i < end ==> wordy(#[trigger] b[i]),
        end < b.len() ==> space(b[end]) || b[end] == 44 || b[end] == 58 || b[end] == 125 || b[end]
            == 93,
    ensures
        scanner::value_end(b, start, pos, 0, false, false) == Ok::<int, GeoJsonErrorView>(end),
    decreases end - pos,
{
    assert(wordy(b[start]));
    if pos < end {
        assert(wordy(b[pos]));
        lemma_word_end(b, start, pos + 1, end);
    }
}

proof fn lemma_skip(b: Seq<u8>, pos: int, end: int)
    requires
        0 <= pos <= end < b.len(),
        forall|i: int| pos <= i < end ==> space(#[trigger] b[i]),
        !space(b[end]),
    ensures
        scanner::skipped(b, pos) == end,
    decreases end - pos,
{
    if pos < end {
        assert(space(b[pos]));
        lemma_skip(b, pos + 1, end);
    }
}

/// An object, an array or a string is found whole, whatever stands in it and
/// whatever follows, with white space before it or without.
pub proof fn law_values_are_found(b: Seq<u8>, pos: int, start: int, p: Part)
    requires
        0 <= pos <= start,
        forall|i: int| pos <= i < start ==> space(#[trigger] b[i]),
        !(p is Byte),
        part_sound(p),
        stands(b, start, part_bytes(p)),
    ensures
        scanner::value_bounds(b, pos) == Ok::<Option<(int, int)>, GeoJsonErrorView>(
            Some((start, start + part_bytes(p).len())),
        ),
{
    lemma_byte(b, start, part_bytes(p), 0);
    lemma_skip(b, pos, start);
    match p {
        Part::Byte(_) => {},
        Part::Quoted(us) => {
            lemma_string_end(b, start, us);
        },
        Part::Braces(ps) => {
            lemma_group_end(b, start, 123, 125, ps);
        },
        Part::Brackets(ps) => {
            lemma_group_end(b, start, 91, 93, ps);
        },
    }
}

/// A number or a word is found whole: it ends before white space, a comma, a
/// colon, a closing brace or bracket, or at the end.
pub proof fn law_words_are_found(b: Seq<u8>, pos: int, start: int, end: int)
    requires
        0 <= pos <= start < end <= b.len(),
        forall|i: int| pos <= i < start ==> space(#[trigger] b[i]),
        forall|i: int| start <= i < end ==> wordy(#[trigger] b[i]),
        end < b.len() ==> space(b[end]) || b[end] == 44 || b[end] == 58 || b[end] == 125 || b[end]
            == 93,
    ensures
        scanner::value_bounds(b, pos) == Ok::<Option<(int, int)>, GeoJsonErrorView>(
            Some((start, end)),
        ),
{
    assert(wordy(b[start]));
    lemma_skip(b, pos, start);
    lemma_word_end(b, start, start, end);
}

/// Between the features of a collection stand white space and commas; the next
/// feature is the value behind them, and a closing bracket there ends the
/// collection.
pub proof fn law_features_between_commas(b: Seq<u8>, pos: int, start: int)
    requires
        0 <= pos <= start < b.len(),
        forall|i: int| pos <= i < start ==> space(#[trigger] b[i]) || b[i] == 44,
        !space(b[start]),
        b[start] != 44,
    ensures
        scanner::feature_bounds(b, pos) == if b[start] == 93 {
            Ok::<Option<(int, int)>, GeoJsonErrorView>(None)
        } else {
            scanner::value_bounds(b, start)
        },
    decreases start - pos,
{
    scanner::lemma_skipped(b, pos);
    let p = scanner::skipped(b, pos);
    if p > start {
        assert(scanner::blank(b[start]));
    }
    if p < start {
        assert(space(b[p]) || b[p] == 44);
        law_features_between_commas(b, p + 1, start);
    }
}

// ---------------------------------------------------------------------------
// The kind of geometry
// ---------------------------------------------------------------------------
/// Whether some feature has a geometry of that kind; one without coordinates
/// counts as a collection.
pub open spec fn has_kind(raws: Seq<RawView>, k: GeometryType) -> bool {
    exists|i: int|
        0 <= i < raws.len() && ((#[trigger] raws[i]).geometry matches Some(g) && (if g is Empty {
            k == GeometryType::GeometryCollection
        } else {
            k == geometry::kind_of(g)
        }))
}

proof fn lemma_kind_of_last(raws: Seq<RawView>, k: GeometryType)
    requires
        raws.len() > 0,
    ensures
        has_kind(raws, k) <==> has_kind(raws.drop_last(), k) || (raws.last().geometry matches Some(
            g,
        ) && reader::geom_kind(g) == k),
{
    let t = raws.drop_last();
    let last = raws.len() - 1;
    assert(forall|i: int| 0 <= i < t.len() ==> t[i] == raws[i]);
    if has_kind(t, k) {
        let i = choose|i: int|
            0 <= i < t.len() && ((#[trigger] t[i]).geometry matches Some(g) && (if g is Empty {
                k == GeometryType::GeometryCollection
            } else {
                k == geometry::kind_of(g)
            }));
        assert(raws[i] == t[i]);
    }
    if has_kind(raws, k) {
        let i = choose|i: int|
            0 <= i < raws.len() && ((#[trigger] raws[i]).geometry matches Some(g) && (if g is Empty {
                k == GeometryType::GeometryCollection
            } else {
                k == geometry::kind_of(g)
            }));
        if i < t.len() {
            assert(t[i] == raws[i]);
        }
    }
    assert(raws[last] == raws.last());
}

/// The kind of a document's geometry: none where no feature has one, the kind
/// that all have where it is the same, and a collection otherwise.
pub proof fn law_common_kind(raws: Seq<RawView>)
    ensures
        reader::common_kind(raws) is None <==> forall|k: GeometryType| !#[trigger] has_kind(raws, k),
        forall|k: GeometryType|
            #[trigger] has_kind(raws, k) && (forall|other: GeometryType| #[trigger]
                has_kind(raws, other) ==> other == k) ==> reader::common_kind(raws) == Some(k),
        forall|k: GeometryType, other: GeometryType|
            #[trigger] has_kind(raws, k) && #[trigger] has_kind(raws, other) && k != other
                ==> reader::common_kind(raws) == Some(GeometryType::GeometryCollection),
    decreases raws.len(),
{
    if raws.len() > 0 {
        let t = raws.drop_last();
        law_common_kind(t);
        assert forall|k: GeometryType|
            #[trigger] has_kind(raws, k) == (has_kind(t, k) || (raws.last().geometry matches Some(g)
                && reader::geom_kind(g) == k)) by {
            lemma_kind_of_last(raws, k);
        }
        if let Some(g) = raws.last().geometry {
            assert(has_kind(raws, reader::geom_kind(g)));
        }
        if let Some(k) = reader::common_kind(t) {
            if forall|j: GeometryType| !#[trigger] has_kind(t, j) {
                assert(false);
            }
            let j = choose|j: GeometryType| #[trigger] has_kind(t, j);
            assert(has_kind(raws, j));
            if forall|other: GeometryType| #[trigger] has_kind(t, other) ==> other == j {
                assert(k == j);
            } else {
                let other = choose|other: GeometryType| #[trigger] has_kind(t, other) && other != j;
                assert(k == GeometryType::GeometryCollection);
                assert(has_kind(raws, other));
            }
        }
    }
}

// ---------------------------------------------------------------------------
// The reference system
// ---------------------------------------------------------------------------
/// Whether a text has no digit.
pub open spec fn digitless(s: Seq<char>) -> bool {
    forall|i: int| 0 <= i < s.len() ==> !('0' <= #[trigger] s[i] && s[i] <= '9')
}

/// Whether a text has no letter E, large or small.
pub open spec fn without_e(s: Seq<char>) -> bool {
    !s.contains('e') && !s.contains('E')
}

proof fn lemma_digits_kept(a: Seq<char>, d: Seq<char>)
    requires
        digitless(a),
        forall|i: int| 0 <= i < d.len() ==> '0' <= #[trigger] d[i] && d[i] <= '9',
    ensures
        reader::digits_only(a + d) == d,
    decreases a.len() + d.len(),
{
    let s = a + d;
    if d.len() > 0 {
        let t = d.drop_last();
        assert(s.drop_last() =~= a + t);
        assert(forall|i: int| 0 <= i < t.len() ==> t[i] == d[i]);
        lemma_digits_kept(a, t);
        assert(s.last() == d[d.len() - 1]);
        assert(t.push(d.last()) =~= d);
    } else if a.len() > 0 {
        let t = a.drop_last();
        assert(s.drop_last() =~= t + d);
        assert(forall|i: int| 0 <= i < t.len() ==> t[i] == a[i]);
        lemma_digits_kept(t, d);
        assert(s.last() == a[a.len() - 1]);
    } else {
        assert(d =~= Seq::<char>::empty());
    }
}

/// The name of a reference system that ends in `EPSG`, anything without digits and
/// the letter E, and a code, stands for the code. `EPSG` may be in large letters
/// or small.
pub proof fn law_names_with_a_code(pre: Seq<char>, mark: Seq<char>, sep: Seq<char>, n: u32)
    requires
        text::lower_all(mark) == "epsg"@,
        digitless(sep),
        without_e(sep),
    ensures
        reader::named_crs(pre + (mark + (sep + text::dec(n as nat)))) == CrsView::Epsg(n),
{
    let digits = text::dec(n as nat);
    let s = pre + (mark + (sep + digits));
    let low = text::lower_all(s);
    let pat = "epsg"@;
    let p = pre.len() as int;
    reveal_strlit("epsg");
    assert(pat[0] == 'e' && pat[1] == 'p' && pat[2] == 's' && pat[3] == 'g');
    assert(mark.len() == 4) by {
        assert(text::lower_all(mark).len() == mark.len());
    }
    text_laws::law_decimal_reads_back(n as nat);
    assert(low.subrange(p, p + 4) =~= pat) by {
        assert forall|i: int| 0 <= i < 4 implies low.subrange(p, p + 4)[i] == pat[i] by {
            assert(s[p + i] == mark[i]);
            assert(text::lower_all(mark)[i] == text::lower(mark[i]));
        }
    }
    assert(text::occurs_at(low, pat, p));
    assert forall|j: int| p < j <= low.len() - 4 implies !#[trigger] text::occurs_at(
        low,
        pat,
        j,
    ) by {
        if text::occurs_at(low, pat, j) {
            assert(low.subrange(j, j + 4)[0] == low[j]);
            assert(low[j] == text::lower(s[j]));
            if j < p + 4 {
                assert(s[j] == mark[j - p]);
                assert(text::lower_all(mark)[j - p] == text::lower(mark[j - p]));
            } else if j < p + 4 + sep.len() {
                assert(s[j] == sep[j - p - 4]);
                assert(sep.contains(sep[j - p - 4]));
            } else {
                let k = j - p - 4 - sep.len();
                assert(s[j] == digits[k]);
                assert('0' <= digits[k] && digits[k] <= '9');
            }
        }
    }
    text::law_last_place_is_last(low, pat, low.len() - pat.len());
    match text::last_place(low, pat) {
        Some(k) => {
            if k < p {
                assert(!text::occurs_at(low, pat, p));
            }
            if k > p {
                assert(!text::occurs_at(low, pat, k));
            }
        },
        None => {
            assert(!text::occurs_at(low, pat, p));
        },
    }
    assert(s.skip(p + 4) =~= sep + digits);
    lemma_digits_kept(sep, digits);
    text_laws::law_unsigned_numbers(digits, u32::MAX as nat);
}

/// A name without `EPSG` stands for the system of longitudes and latitudes where
/// it has `CRS84` in it, and otherwise for itself.
pub proof fn law_names_without_a_code(name: Seq<char>)
    requires
        forall|i: int| !#[trigger] text::occurs_at(text::lower_all(name), "epsg"@, i),
    ensures
        (exists|i: int| #[trigger] text::occurs_at(name, "CRS84"@, i)) ==> reader::named_crs(name)
            == CrsView::Epsg(4326),
        (forall|i: int| !#[trigger] text::occurs_at(name, "CRS84"@, i)) ==> reader::named_crs(name)
            == CrsView::Wkt(name),
{
    let low = text::lower_all(name);
    text::law_last_place_is_last(low, "epsg"@, low.len() - "epsg"@.len());
    text::law_first_place_is_first(name, "CRS84"@, 0);
    if exists|i: int| #[trigger] text::occurs_at(name, "CRS84"@, i) {
        let i = choose|i: int| #[trigger] text::occurs_at(name, "CRS84"@, i);
        assert(text::occurs_at(name, "CRS84"@, i));
    }
}

/// A document without a member `crs` is in longitudes and latitudes.
pub proof fn law_no_reference_system(ms: Seq<MemberView>)
    requires
        reading_laws::missing(ms, "crs"@),
    ensures
        reader::crs_of(ms) == CrsView::Epsg(4326),
{
    reading_laws::law_get_is_the_first(ms, "crs"@);
    if let Some(v) = json::get(ms, "crs"@) {
        assert(reading_laws::holds(ms, "crs"@, v));
    }
}

/// The reference system of a document is that of the name under `crs`,
/// `properties` and `name`.
pub proof fn law_named_reference_system(
    ms: Seq<MemberView>,
    cs: Seq<MemberView>,
    ps: Seq<MemberView>,
    name: Seq<char>,
)
    requires
        reading_laws::holds(ms, "crs"@, JsonView::Object(cs)),
        reading_laws::holds(cs, "properties"@, JsonView::Object(ps)),
        reading_laws::holds(ps, "name"@, JsonView::Text(name)),
    ensures
        reader::crs_of(ms) == reader::named_crs(name),
{
    reading_laws::law_get_is_the_first(ms, "crs"@);
    reading_laws::law_get_is_the_first(cs, "properties"@);
    reading_laws::law_get_is_the_first(ps, "name"@);
}

// ---------------------------------------------------------------------------
// The document
// ---------------------------------------------------------------------------
proof fn lemma_raws(s: Seq<JsonView>, i: int, acc: Seq<RawView>)
    requires
        0 <= i <= s.len(),
        acc.len() == i,
        forall|k: int|
            0 <= k < i ==> reader::raw_of(#[trigger] s[k]) == Ok::<RawView, GeoJsonErrorView>(
                acc[k],
            ),
    ensures
        reader::raws_from(s, i, acc) matches Ok(r) ==> r.len() == s.len() && forall|k: int|
            0 <= k < s.len() ==> reader::raw_of(#[trigger] s[k]) == Ok::<RawView, GeoJsonErrorView>(
                r[k],
            ),
        reader::raws_from(s, i, acc) is Err ==> exists|k: int|
            i <= k < s.len() && reader::raw_of(#[trigger] s[k]) is Err,
    decreases s.len() - i,
{
    if i < s.len() {
        if let Ok(f) = reader::raw_of(s[i]) {
            lemma_raws(s, i + 1, acc.push(f));
        } else {
            assert(reader::raw_of(s[i]) is Err);
        }
    }
}

/// Whether a value in a field says what the property of that name does.
pub open spec fn cell(v: ValueView, name: Seq<char>, ty: crate::value::ValueType, row: Row) -> bool {
    match row {
        None => v is Null,
        Some(ms) => {
            &&& reading_laws::missing(ms, name) ==> v is Null
            &&& forall|k: int|
                #![trigger ms[k]]
                0 <= k < ms.len() && ms[k].key == name && (forall|j: int|
                    0 <= j < k ==> (#[trigger] ms[j]).key != name) ==> v
                    == properties::attribute_of(Some(ms[k]), ty)
        },
    }
}

proof fn lemma_cell(fields: Seq<crate::schema::FieldDefView>, row: Row, i: int)
    requires
        0 <= i < fields.len(),
    ensures
        cell(reader::attributes_of(fields, row)[i], fields[i].name, fields[i].ty, row),
{
    if let Some(ms) = row {
        let name = fields[i].name;
        json::lemma_key_from(ms, name, 0);
        match json::key_from(ms, name, 0) {
            None => {},
            Some(p) => {
                assert(ms[p].key == name);
                assert forall|k: int|
                    #![trigger ms[k]]
                    0 <= k < ms.len() && ms[k].key == name && (forall|j: int|
                        0 <= j < k ==> (#[trigger] ms[j]).key != name) implies reader::attributes_of(
                    fields,
                    row,
                )[i] == properties::attribute_of(Some(ms[k]), fields[i].ty) by {
                    if p < k {
                        assert(ms[p].key != name);
                    }
                    if k < p {
                        assert(ms[k].key != name);
                    }
                }
            },
        }
    }
}

/// Feature `i` of a collection is element `i` of its features: with the geometry
/// of that element, its identifier or else the number of its row, and in each
/// field the value of the property of that name.
pub proof fn law_features_of_a_collection(
    ms: Seq<MemberView>,
    items: Seq<JsonView>,
    schema: SchemaView,
    fs: Seq<FeatureView>,
    i: int,
)
    requires
        reading_laws::holds(ms, "type"@, JsonView::Text("FeatureCollection"@)),
        reading_laws::holds(ms, "features"@, JsonView::Array(items)),
        reader::held(JsonView::Object(ms)) == Ok::<
            (SchemaView, Seq<FeatureView>),
            GeoJsonErrorView,
        >((schema, fs)),
        0 <= i < items.len(),
    ensures
        fs.len() == items.len(),
        reader::raw_of(items[i]) matches Ok(raw) && {
            &&& fs[i].geometry == raw.geometry
            &&& raw.id matches FeatureId::Number(n) ==> fs[i].fid == Some(n)
            &&& raw.id is Absent || raw.id is Other ==> fs[i].fid == Some(i as i64)
            &&& fs[i].attributes.len() == schema.fields.len()
            &&& forall|k: int|
                0 <= k < schema.fields.len() ==> cell(
                    #[trigger] fs[i].attributes[k],
                    schema.fields[k].name,
                    schema.fields[k].ty,
                    raw.properties,
                )
        },
{
    reading_laws::law_get_is_the_first(ms, "type"@);
    reading_laws::law_get_is_the_first(ms, "features"@);
    lemma_raws(items, 0, Seq::empty());
    let raws = reader::raws_from(items, 0, Seq::empty())->Ok_0;
    assert(reader::raw_of(items[i]) == Ok::<RawView, GeoJsonErrorView>(raws[i]));
    assert forall|k: int| 0 <= k < schema.fields.len() implies cell(
        #[trigger] fs[i].attributes[k],
        schema.fields[k].name,
        schema.fields[k].ty,
        raws[i].properties,
    ) by {
        lemma_cell(schema.fields, raws[i].properties, k);
    }
}

/// A feature that is walked to keeps the number that it is given, has that of its
/// row where it is given a text that is none, and otherwise none; one that is held
/// has that of its row instead. A geometry that stands alone has none either way.
pub proof fn law_identifiers_of_rows(id: FeatureId, i: int)
    ensures
        id matches FeatureId::Number(n) ==> reader::held_fid(id, i) == Some(n)
            && reader::walked_fid(id, i) == Some(n),
        id is Other ==> reader::held_fid(id, i) == Some(i as i64) && reader::walked_fid(id, i)
            == Some(i as i64),
        id is Absent ==> reader::held_fid(id, i) == Some(i as i64) && reader::walked_fid(
            id,
            i,
        ) is None,
        id is Never ==> reader::held_fid(id, i) is None && reader::walked_fid(id, i) is None,
{
}

/// A document that is a feature, or a geometry, holds just that.
pub proof fn law_documents_of_one(ms: Seq<MemberView>, g: GeometryView)
    ensures
        reading_laws::holds(ms, "type"@, JsonView::Text("Feature"@)) ==> match reader::held(
            JsonView::Object(ms),
        ) {
            Ok((schema, fs)) => reader::feature_of(ms) matches Ok(raw) && fs.len() == 1
                && fs[0].geometry == raw.geometry && fs[0].fid == reader::held_fid(raw.id, 0),
            Err(e) => reader::feature_of(ms) == Err::<RawView, GeoJsonErrorView>(e),
        },
        reading_laws::describes(JsonView::Object(ms), g) ==> (reader::held(
            JsonView::Object(ms),
        ) matches Ok((schema, fs)) && fs.len() == 1 && fs[0].fid is None && schema.fields.len() == 0
            && (fs[0].geometry matches Some(h) && reading_laws::describes(JsonView::Object(ms), h))),
{
    let j = JsonView::Object(ms);
    reveal_strlit("Feature");
    reveal_strlit("FeatureCollection");
    assert("Feature"@.len() == 7 && "FeatureCollection"@.len() == 17);
    reading_laws::law_get_is_the_first(ms, "type"@);
    if reading_laws::describes(j, g) {
        lemma_described_type(j, ms, g);
        let ty = choose|ty: Seq<char>| #[trigger]
            reading_laws::holds(ms, "type"@, JsonView::Text(ty)) && scanner::geometry_name(ty) && ty
                != "Feature"@;
        lemma_no_collection(ty);
        reading_laws::law_described_geometry_is_read(j, g);
        reading_laws::law_read_geometry_is_described(j);
        let h = crate::geojson::geometry::geometry_of(j)->Ok_0;
        let raws = seq![RawView { id: FeatureId::Never, geometry: Some(h), properties: None }];
        assert(reader::document_raws(j, ms, ty) == Ok::<Seq<RawView>, GeoJsonErrorView>(raws));
        let rows = reader::rows_of(raws);
        assert(rows.drop_last() =~= Seq::<Row>::empty());
        reveal_with_fuel(properties::keys_of, 2);
        assert(properties::keys_of(rows) =~= Seq::<Seq<char>>::empty());
    }
}

proof fn lemma_no_collection(ty: Seq<char>)
    requires
        scanner::geometry_name(ty),
    ensures
        ty != "FeatureCollection"@,
{
    reveal_strlit("FeatureCollection");
    reveal_strlit("Point");
    reveal_strlit("LineString");
    reveal_strlit("Polygon");
    reveal_strlit("MultiPoint");
    reveal_strlit("MultiLineString");
    reveal_strlit("MultiPolygon");
    reveal_strlit("GeometryCollection");
    assert("FeatureCollection"@.len() == 17 && "Point"@.len() == 5 && "LineString"@.len() == 10
        && "Polygon"@.len() == 7 && "MultiPoint"@.len() == 10 && "MultiLineString"@.len() == 15
        && "MultiPolygon"@.len() == 12 && "GeometryCollection"@.len() == 18);
}

/// An element of the features is a feature, by its members, or a geometry that
/// stands for a feature with nothing else.
pub proof fn law_elements(j: JsonView, g: GeometryView)
    ensures
        forall|ms: Seq<MemberView>|
            j == JsonView::Object(ms) && #[trigger] reading_laws::holds(
                ms,
                "type"@,
                JsonView::Text("Feature"@),
            ) ==> reader::raw_of(j) == reader::feature_of(ms),
        reading_laws::describes(j, g) ==> (reader::raw_of(j) matches Ok(raw) && raw.id is Absent
            && raw.properties is None && (raw.geometry matches Some(h) && reading_laws::describes(
            j,
            h,
        ))),
        !(j is Object) ==> reader::raw_of(j) is Err,
{
    if let JsonView::Object(ms) = j {
        reading_laws::law_get_is_the_first(ms, "type"@);
        if reading_laws::describes(j, g) {
            lemma_described_type(j, ms, g);
            reading_laws::law_described_geometry_is_read(j, g);
            reading_laws::law_read_geometry_is_described(j);
        }
    }
}

/// What describes a geometry has one of the seven types, and is no feature.
proof fn lemma_described_type(j: JsonView, ms: Seq<MemberView>, g: GeometryView)
    requires
        j == JsonView::Object(ms),
        reading_laws::describes(j, g),
    ensures
        exists|ty: Seq<char>| #[trigger]
            reading_laws::holds(ms, "type"@, JsonView::Text(ty)) && scanner::geometry_name(ty) && ty
                != "Feature"@,
{
    reveal_strlit("Feature");
    reveal_strlit("Point");
    reveal_strlit("LineString");
    reveal_strlit("Polygon");
    reveal_strlit("MultiPoint");
    reveal_strlit("MultiLineString");
    reveal_strlit("MultiPolygon");
    reveal_strlit("GeometryCollection");
    assert("Feature"@.len() == 7 && "Point"@.len() == 5 && "LineString"@.len() == 10
        && "Polygon"@.len() == 7 && "MultiPoint"@.len() == 10 && "MultiLineString"@.len() == 15
        && "MultiPolygon"@.len() == 12 && "GeometryCollection"@.len() == 18);
    assert("Feature"@[0] == 'F' && "Polygon"@[0] == 'P');
    match g {
        GeometryView::Point(c) => {
            assert(reading_laws::holds(ms, "type"@, JsonView::Text("Point"@)));
        },
        GeometryView::LineString(s) => {
            assert(reading_laws::holds(ms, "type"@, JsonView::Text("LineString"@)));
        },
        GeometryView::Polygon(p) => {
            assert(reading_laws::holds(ms, "type"@, JsonView::Text("Polygon"@)));
        },
        GeometryView::MultiPoint(s) => {
            assert(reading_laws::holds(ms, "type"@, JsonView::Text("MultiPoint"@)));
        },
        GeometryView::MultiLineString(s) => {
            assert(reading_laws::holds(ms, "type"@, JsonView::Text("MultiLineString"@)));
        },
        GeometryView::MultiPolygon(s) => {
            assert(reading_laws::holds(ms, "type"@, JsonView::Text("MultiPolygon"@)));
        },
        GeometryView::GeometryCollection(s) => {
            assert(reading_laws::holds(ms, "type"@, JsonView::Text("GeometryCollection"@)));
        },
        GeometryView::Empty(_) => {},
    }
}

// ---------------------------------------------------------------------------
// The order of the fields
// ---------------------------------------------------------------------------
/// Whether member `j` of feature `i` has that key.
pub open spec fn here(rows: Seq<Row>, i: int, j: int, key: Seq<char>) -> bool {
    0 <= i < rows.len() && rows[i] is Some && 0 <= j < rows[i]->0.len() && rows[i]->0[j].key == key
}

/// Whether the key comes before member `m` of feature `n`.
pub open spec fn seen(rows: Seq<Row>, n: int, m: int, key: Seq<char>) -> bool {
    exists|i: int, j: int| #[trigger] here(rows, i, j, key) && (i < n || (i == n && j < m))
}

/// Whether a key comes before another does: it stands somewhere where the other
/// has not come yet.
pub open spec fn comes_first(rows: Seq<Row>, key: Seq<char>, other: Seq<char>) -> bool {
    exists|i: int, j: int| #[trigger] here(rows, i, j, key) && !seen(rows, i, j, other)
}

spec fn in_order(rows: Seq<Row>, keys: Seq<Seq<char>>) -> bool {
    forall|a: int, b: int|
        0 <= a < b < keys.len() ==> comes_first(rows, #[trigger] keys[a], #[trigger] keys[b])
}

spec fn complete(rows: Seq<Row>, n: int, m: int, keys: Seq<Seq<char>>) -> bool {
    forall|key: Seq<char>| #[trigger] keys.contains(key) <==> seen(rows, n, m, key)
}

proof fn lemma_seen_next(rows: Seq<Row>, n: int, m: int, key: Seq<char>)
    requires
        0 <= n < rows.len(),
        rows[n] is Some,
        0 <= m < rows[n]->0.len(),
    ensures
        seen(rows, n, m + 1, key) <==> seen(rows, n, m, key) || rows[n]->0[m].key == key,
{
    if rows[n]->0[m].key == key {
        assert(here(rows, n, m, key));
    }
}

proof fn lemma_order_in_row(rows: Seq<Row>, n: int, m: int, keys: Seq<Seq<char>>)
    requires
        0 <= n < rows.len(),
        rows[n] is Some,
        0 <= m <= rows[n]->0.len(),
        complete(rows, n, m, keys),
        in_order(rows, keys),
    ensures
        complete(
            rows,
            n,
            rows[n]->0.len() as int,
            properties::add_keys(keys, rows[n]->0, m),
        ),
        in_order(rows, properties::add_keys(keys, rows[n]->0, m)),
    decreases rows[n]->0.len() - m,
{
    let ms = rows[n]->0;
    if m < ms.len() {
        let key = ms[m].key;
        assert forall|k: Seq<char>| #[trigger] seen(rows, n, m + 1, k) <==> (seen(rows, n, m, k)
            || key == k) by {
            lemma_seen_next(rows, n, m, k);
        }
        if keys.contains(key) {
            assert(complete(rows, n, m + 1, keys)) by {
                assert forall|k: Seq<char>| #[trigger] keys.contains(k) <==> seen(
                    rows,
                    n,
                    m + 1,
                    k,
                ) by {
                    assert(seen(rows, n, m + 1, k) <==> (seen(rows, n, m, k) || key == k));
                }
            }
            lemma_order_in_row(rows, n, m + 1, keys);
        } else {
            let more = keys.push(key);
            assert(!seen(rows, n, m, key));
            assert forall|a: int, b: int| 0 <= a < b < more.len() implies comes_first(
                rows,
                #[trigger] more[a],
                #[trigger] more[b],
            ) by {
                if b < keys.len() {
                    assert(more[a] == keys[a] && more[b] == keys[b]);
                } else {
                    assert(more[a] == keys[a]);
                    assert(keys.contains(keys[a]));
                    let (i, j) = choose|i: int, j: int| #[trigger]
                        here(rows, i, j, keys[a]) && (i < n || (i == n && j < m));
                    if seen(rows, i, j, key) {
                        let (x, y) = choose|x: int, y: int| #[trigger]
                            here(rows, x, y, key) && (x < i || (x == i && y < j));
                        assert(here(rows, x, y, key) && (x < n || (x == n && y < m)));
                        assert(seen(rows, n, m, key));
                    }
                    assert(here(rows, i, j, more[a]) && !seen(rows, i, j, more[b]));
                }
            }
            assert(complete(rows, n, m + 1, more)) by {
                assert forall|k: Seq<char>| #[trigger] more.contains(k) <==> seen(
                    rows,
                    n,
                    m + 1,
                    k,
                ) by {
                    assert(seen(rows, n, m + 1, k) <==> (seen(rows, n, m, k) || key == k));
                    if keys.contains(k) {
                        let i = choose|i: int| 0 <= i < keys.len() && keys[i] == k;
                        assert(more[i] == k);
                    }
                    if k == key {
                        assert(more[keys.len() as int] == k);
                    }
                    if more.contains(k) && k != key {
                        let i = choose|i: int| 0 <= i < more.len() && more[i] == k;
                        assert(keys[i] == k);
                    }
                }
            }
            lemma_order_in_row(rows, n, m + 1, more);
        }
    }
}

proof fn lemma_order(rows: Seq<Row>, n: int)
    requires
        0 <= n <= rows.len(),
    ensures
        complete(rows, n, 0, properties::keys_of(rows.take(n))),
        in_order(rows, properties::keys_of(rows.take(n))),
    decreases n,
{
    let keys = properties::keys_of(rows.take(n));
    if n == 0 {
        assert forall|k: Seq<char>| #[trigger] keys.contains(k) <==> seen(rows, 0, 0, k) by {
        }
    } else {
        let t = rows.take(n);
        lemma_order(rows, n - 1);
        assert(t.drop_last() =~= rows.take(n - 1));
        assert(t.last() == rows[n - 1]);
        let before = properties::keys_of(rows.take(n - 1));
        let last = match rows[n - 1] {
            None => 0int,
            Some(ms) => ms.len() as int,
        };
        if rows[n - 1] is Some {
            lemma_order_in_row(rows, n - 1, 0, before);
        }
        assert forall|k: Seq<char>| #[trigger] keys.contains(k) <==> seen(rows, n, 0, k) by {
            assert(keys.contains(k) <==> seen(rows, n - 1, last, k));
            if seen(rows, n, 0, k) {
                let (i, j) = choose|i: int, j: int| #[trigger]
                    here(rows, i, j, k) && (i < n || (i == n && j < 0));
                assert(here(rows, i, j, k) && (i < n - 1 || (i == n - 1 && j < last)));
            }
            if seen(rows, n - 1, last, k) {
                let (i, j) = choose|i: int, j: int| #[trigger]
                    here(rows, i, j, k) && (i < n - 1 || (i == n - 1 && j < last));
                assert(here(rows, i, j, k) && (i < n || (i == n && j < 0)));
            }
        }
    }
}

/// The fields stand in the order in which their keys first come.
pub proof fn law_fields_in_the_order_of_keys(rows: Seq<Row>, a: int, b: int)
    requires
        0 <= a < b < properties::fields_of(rows).len(),
    ensures
        comes_first(
            rows,
            properties::fields_of(rows)[a].name,
            properties::fields_of(rows)[b].name,
        ),
{
    lemma_order(rows, rows.len() as int);
    assert(rows.take(rows.len() as int) =~= rows);
    let keys = properties::keys_of(rows);
    assert(comes_first(rows, keys[a], keys[b]));
}

} // verus!
