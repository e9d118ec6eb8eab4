//! A scanner that finds the values of a feature collection in its text without
//! parsing the collection as a whole.
//!
//! The scanner knows strings, escapes and the nesting of braces and brackets;
//! the bytes of each value it finds are handed to the JSON parser.

use crate::geojson::error::{GeoJsonError, GeoJsonErrorView};
use crate::geojson::json;
use crate::geojson::json::{parse_json, parse_json_string, parse_member, put_member, Json, JsonView,
    Member, MemberView};
use crate::text;
use crate::text::{push_hex, same};
use vstd::prelude::*;
use vstd::slice::*;
use vstd::string::*;

verus! {

/// What stands at the top of a document.
#[derive(Debug)]
pub enum TopLevel {
    /// A feature collection: `pos` is behind the bracket that opens its features,
    /// `header_keys` holds the members that stand before them.
    Collection { pos: usize, header_keys: Vec<Member> },
    /// A single feature.
    BareFeature(Json),
    /// A single geometry.
    BareGeometry(Json),
}

/// A [`TopLevel`] as sequences.
#[verifier::ext_equal]
pub enum TopLevelView {
    Collection { pos: int, header_keys: Seq<MemberView> },
    BareFeature(JsonView),
    BareGeometry(JsonView),
}

impl View for TopLevel {
    type V = TopLevelView;

    open spec fn view(&self) -> TopLevelView {
        match self {
            TopLevel::Collection { pos, header_keys } => TopLevelView::Collection {
                pos: *pos as int,
                header_keys: json::members_view(header_keys@),
            },
            TopLevel::BareFeature(j) => TopLevelView::BareFeature(j@),
            TopLevel::BareGeometry(j) => TopLevelView::BareGeometry(j@),
        }
    }
}

// ---------------------------------------------------------------------------
// Bytes
// ---------------------------------------------------------------------------
/// Whether the byte is ASCII white space.
pub open spec fn blank(b: u8) -> bool {
    b == 32 || b == 9 || b == 10 || b == 12 || b == 13
}

/// The first position at or behind `pos` that holds no white space.
pub open spec fn skipped(b: Seq<u8>, pos: int) -> int
    decreases b.len() - pos,
{
    if pos < b.len() && blank(b[pos]) {
        skipped(b, pos + 1)
    } else {
        pos
    }
}

/// A byte in hexadecimal.
pub open spec fn hex_text(b: u8) -> Seq<char> {
    "0x"@ + text::hex(b as nat, false)
}

/// Whether the byte opens an object, an array or a string.
pub open spec fn structured(b: u8) -> bool {
    b == 123 || b == 91 || b == 34
}

/// Whether the byte ends a number or a word.
pub open spec fn ends_scalar(b: u8) -> bool {
    blank(b) || b == 44 || b == 125 || b == 93 || b == 58
}

/// The error for a closing brace or bracket that nothing opens.
pub open spec fn unbalanced(b: u8) -> GeoJsonErrorView {
    GeoJsonErrorView::Malformed(
        "unbalanced '"@.push(b as char) + "' at value start (got "@ + hex_text(b) + ")"@,
    )
}

/// The error for a value that the end of the input cuts off.
pub open spec fn cut_off() -> GeoJsonErrorView {
    GeoJsonErrorView::Malformed("unexpected EOF mid-value (unterminated object/array/string?)"@)
}

/// Where the value that begins at `start` ends, when the bytes before `pos` were
/// walked: `depth` braces and brackets are open there, and `in_string` and
/// `escape` tell whether a string or an escape is.
///
/// An object, an array or a string ends where what opens it is closed. Anything
/// else ends before the next white space, comma, colon or closing bracket
/// outside of strings and brackets, or at the end of the input.
pub open spec fn value_end(
    b: Seq<u8>,
    start: int,
    pos: int,
    depth: nat,
    in_string: bool,
    escape: bool,
) -> Result<int, GeoJsonErrorView>
    decreases b.len() - pos,
{
    let first = b[start];
    let loose = !structured(first) && depth == 0 && !in_string && pos > start;
    if pos >= b.len() {
        if loose {
            Ok(pos)
        } else {
            Err(cut_off())
        }
    } else {
        let c = b[pos];
        if loose && ends_scalar(c) {
            Ok(pos)
        } else if escape {
            value_end(b, start, pos + 1, depth, in_string, false)
        } else if in_string {
            if c == 92 {
                value_end(b, start, pos + 1, depth, true, true)
            } else if c == 34 {
                if depth == 0 && first == 34 {
                    Ok(pos + 1)
                } else {
                    value_end(b, start, pos + 1, depth, false, false)
                }
            } else {
                value_end(b, start, pos + 1, depth, true, false)
            }
        } else if c == 34 {
            value_end(b, start, pos + 1, depth, true, false)
        } else if c == 123 || c == 91 {
            value_end(b, start, pos + 1, depth + 1, false, false)
        } else if c == 125 || c == 93 {
            if depth == 0 {
                Err(unbalanced(c))
            } else if depth == 1 && structured(first) {
                Ok(pos + 1)
            } else {
                value_end(b, start, pos + 1, (depth - 1) as nat, false, false)
            }
        } else {
            value_end(b, start, pos + 1, depth, false, false)
        }
    }
}

/// Where the next value begins and ends; `None` at the end of the input.
pub open spec fn value_bounds(b: Seq<u8>, pos: int) -> Result<Option<(int, int)>, GeoJsonErrorView> {
    let s = skipped(b, pos);
    if s >= b.len() {
        Ok(None)
    } else {
        match value_end(b, s, s, 0, false, false) {
            Ok(e) => Ok(Some((s, e))),
            Err(x) => Err(x),
        }
    }
}

/// Skipping goes forward and stays in the input.
pub proof fn lemma_skipped(b: Seq<u8>, pos: int)
    ensures
        pos <= skipped(b, pos),
        pos <= b.len() ==> skipped(b, pos) <= b.len(),
        skipped(b, pos) < b.len() ==> !blank(b[skipped(b, pos)]),
        forall|k: int| pos <= k < skipped(b, pos) ==> blank(#[trigger] b[k]),
    decreases b.len() - pos,
{
    if pos < b.len() && blank(b[pos]) {
        lemma_skipped(b, pos + 1);
    }
}

/// A value has at least one byte and ends in the input.
pub proof fn lemma_value_end(
    b: Seq<u8>,
    start: int,
    pos: int,
    depth: nat,
    in_string: bool,
    escape: bool,
)
    requires
        0 <= start <= pos <= b.len(),
        start < b.len(),
    ensures
        match value_end(b, start, pos, depth, in_string, escape) {
            Ok(e) => pos <= e <= b.len() && start < e,
            Err(_) => true,
        },
    decreases b.len() - pos,
{
    if pos < b.len() {
        let c = b[pos];
        lemma_value_end(b, start, pos + 1, depth, in_string, false);
        lemma_value_end(b, start, pos + 1, depth, true, true);
        lemma_value_end(b, start, pos + 1, depth, true, false);
        lemma_value_end(b, start, pos + 1, depth, false, false);
        lemma_value_end(b, start, pos + 1, depth + 1, false, false);
        if depth > 0 {
            lemma_value_end(b, start, pos + 1, (depth - 1) as nat, false, false);
        }
    }
}

/// The bounds of a value lie in the input, behind where the search began.
pub proof fn lemma_value_bounds(b: Seq<u8>, pos: int)
    requires
        0 <= pos <= b.len(),
    ensures
        match value_bounds(b, pos) {
            Ok(Some((s, e))) => pos <= s < e <= b.len(),
            _ => true,
        },
{
    lemma_skipped(b, pos);
    let s = skipped(b, pos);
    if s < b.len() {
        lemma_value_end(b, s, s, 0, false, false);
    }
}

fn is_blank(b: u8) -> (r: bool)
    ensures
        r == blank(b),
{
    b == 32 || b == 9 || b == 10 || b == 12 || b == 13
}

/// The first position at or behind `pos` that holds no white space.
pub fn skip_ws(bytes: &[u8], pos: usize) -> (r: usize)
    requires
        pos <= bytes@.len(),
    ensures
        r == skipped(bytes@, pos as int),
        pos <= r <= bytes@.len(),
{
    let mut p: usize = pos;
    while p < bytes.len() && is_blank(bytes[p])
        invariant
            pos <= p <= bytes@.len(),
            skipped(bytes@, pos as int) == skipped(bytes@, p as int),
        decreases bytes@.len() - p,
    {
        p = p + 1;
    }
    p
}

fn push_hex_text(m: &mut String, b: u8)
    ensures
        final(m)@ == old(m)@ + hex_text(b),
{
    let ghost before = m@;
    m.append("0x");
    push_hex(m, b as u64, false);
    proof {
        assert(before + "0x"@ + text::hex(b as nat, false) =~= before + hex_text(b));
    }
}

/// The message `head` and the byte in hexadecimal.
fn byte_error(head: &str, b: u8) -> (r: GeoJsonError)
    ensures
        r@ == GeoJsonErrorView::Malformed(head@ + hex_text(b)),
{
    let mut m: String = head.to_owned();
    push_hex_text(&mut m, b);
    GeoJsonError::Malformed(m)
}

/// Where the next value begins and ends; `None` at the end of the input.
pub fn read_one_balanced_value(bytes: &[u8], pos: usize) -> (r: Result<
    Option<(usize, usize)>,
    GeoJsonError,
>)
    requires
        pos <= bytes@.len(),
    ensures
        match r {
            Ok(None) => value_bounds(bytes@, pos as int) == Ok::<
                Option<(int, int)>,
                GeoJsonErrorView,
            >(None),
            Ok(Some((s, e))) => value_bounds(bytes@, pos as int) == Ok::<
                Option<(int, int)>,
                GeoJsonErrorView,
            >(Some((s as int, e as int))) && pos <= s < e <= bytes@.len(),
            Err(e) => value_bounds(bytes@, pos as int) == Err::<
                Option<(int, int)>,
                GeoJsonErrorView,
            >(e@),
        },
{
    let len: usize = bytes.len();
    let start: usize = skip_ws(bytes, pos);
    if start >= len {
        return Ok(None);
    }
    proof {
        lemma_value_bounds(bytes@, pos as int);
    }
    let first: u8 = bytes[start];
    let closed: bool = first == 123 || first == 91 || first == 34;
    let mut depth: usize = 0;
    let mut in_string: bool = false;
    let mut escape: bool = false;
    let mut p: usize = start;
    while p < len
        invariant
            start <= p <= len == bytes@.len(),
            start < len,
            pos <= start,
            start == skipped(bytes@, pos as int),
            first == bytes@[start as int],
            closed == structured(first),
            depth <= p - start,
            value_end(bytes@, start as int, start as int, 0, false, false) == value_end(
                bytes@,
                start as int,
                p as int,
                depth as nat,
                in_string,
                escape,
            ),
            match value_bounds(bytes@, pos as int) {
                Ok(Some((s, e))) => pos <= s < e <= bytes@.len(),
                _ => true,
            },
        decreases len - p,
    {
        let c: u8 = bytes[p];
        if !closed && depth == 0 && !in_string && p > start {
            if is_blank(c) || c == 44 || c == 125 || c == 93 || c == 58 {
                return Ok(Some((start, p)));
            }
        }
        if escape {
            escape = false;
        } else if in_string {
            if c == 92 {
                escape = true;
            } else if c == 34 {
                if depth == 0 && first == 34 {
                    return Ok(Some((start, p + 1)));
                }
                in_string = false;
            }
        } else if c == 34 {
            in_string = true;
        } else if c == 123 || c == 91 {
            depth = depth + 1;
        } else if c == 125 || c == 93 {
            if depth == 0 {
                let mut m: String = "unbalanced '".to_owned();
                m.push(c as char);
                m.append("' at value start (got ");
                push_hex_text(&mut m, c);
                m.append(")");
                return Err(GeoJsonError::Malformed(m));
            }
            if depth == 1 && closed {
                return Ok(Some((start, p + 1)));
            }
            depth = depth - 1;
        }
        p = p + 1;
    }
    if !closed && p > start && depth == 0 && !in_string {
        Ok(Some((start, p)))
    } else {
        Err(
            GeoJsonError::malformed(
                "unexpected EOF mid-value (unterminated object/array/string?)",
            ),
        )
    }
}

// ---------------------------------------------------------------------------
// The top of a document
// ---------------------------------------------------------------------------
/// Whether the name is one of the seven geometry types.
pub open spec fn geometry_name(s: Seq<char>) -> bool {
    s == "Point"@ || s == "LineString"@ || s == "Polygon"@ || s == "MultiPoint"@ || s
        == "MultiLineString"@ || s == "MultiPolygon"@ || s == "GeometryCollection"@
}

pub fn is_geometry_name(s: &str) -> (r: bool)
    ensures
        r == geometry_name(s@),
{
    same(s, "Point") || same(s, "LineString") || same(s, "Polygon") || same(s, "MultiPoint") || same(
        s,
        "MultiLineString",
    ) || same(s, "MultiPolygon") || same(s, "GeometryCollection")
}

/// What an object without a `features` member is, by its declared type.
pub open spec fn bare(declared: Option<Seq<char>>, keys: Seq<MemberView>) -> Result<
    TopLevelView,
    GeoJsonErrorView,
> {
    match declared {
        None => Err(GeoJsonErrorView::Malformed("GeoJSON root missing 'type'"@)),
        Some(ty) => if ty == "Feature"@ {
            Ok(TopLevelView::BareFeature(JsonView::Object(keys)))
        } else if geometry_name(ty) {
            Ok(TopLevelView::BareGeometry(JsonView::Object(keys)))
        } else {
            Err(GeoJsonErrorView::Unsupported("top-level type '"@ + ty + "'"@))
        },
    }
}

/// What stands behind the key that was read up to `pos`.
pub open spec fn after_key(
    b: Seq<u8>,
    pos: int,
    key: Seq<char>,
) -> Result<int, GeoJsonErrorView> {
    let q = skipped(b, pos);
    if q >= b.len() {
        Err(GeoJsonErrorView::Malformed("EOF after key"@))
    } else if b[q] != 58 {
        Err(
            GeoJsonErrorView::Malformed(
                "expected ':' after key '"@ + key + "', got byte "@ + hex_text(b[q]),
            ),
        )
    } else {
        Ok(skipped(b, q + 1))
    }
}

/// The collection whose features open at `v`.
pub open spec fn features_at(b: Seq<u8>, v: int, keys: Seq<MemberView>) -> Result<
    TopLevelView,
    GeoJsonErrorView,
> {
    if v >= b.len() {
        Err(GeoJsonErrorView::Malformed("EOF before features array"@))
    } else if b[v] != 91 {
        Err(
            GeoJsonErrorView::Malformed(
                "expected '[' after \"features\", got byte "@ + hex_text(b[v]),
            ),
        )
    } else {
        Ok(TopLevelView::Collection { pos: v + 1, header_keys: keys })
    }
}

/// The member whose value stands at `v`, and where the value ends.
pub open spec fn member_at(b: Seq<u8>, v: int, key: Seq<char>) -> Result<
    (MemberView, int),
    GeoJsonErrorView,
> {
    match value_bounds(b, v) {
        Err(x) => Err(x),
        Ok(None) => Err(
            GeoJsonErrorView::Malformed("EOF while reading value for key '"@ + key + "'"@),
        ),
        Ok(Some((s, e))) => match json::json_at(b.subrange(s, e)) {
            Err(x) => Err(x),
            Ok(value) => Ok((MemberView { key, value, text: json::rendered(value) }, e)),
        },
    }
}

/// What the members from `pos` on make of the object, when `keys` were read
/// before and `declared` is its type.
///
/// The walk ends at the `features` member or at the closing brace; commas
/// between members are skipped, however many there are.
pub open spec fn top_from(
    b: Seq<u8>,
    pos: int,
    keys: Seq<MemberView>,
    declared: Option<Seq<char>>,
) -> Result<TopLevelView, GeoJsonErrorView>
    decreases b.len() - pos,
    when 0 <= pos <= b.len()
{
    let p = skipped(b, pos);
    proof {
        lemma_skipped(b, pos);
    }
    if p >= b.len() {
        Err(GeoJsonErrorView::Malformed("unexpected EOF in top-level object"@))
    } else if b[p] == 125 {
        bare(declared, keys)
    } else if b[p] == 44 {
        top_from(b, p + 1, keys, declared)
    } else if b[p] != 34 {
        Err(
            GeoJsonErrorView::Malformed(
                "expected object key (string) or '}', got byte "@ + hex_text(b[p]),
            ),
        )
    } else {
        proof {
            lemma_value_bounds(b, p);
        }
        match value_bounds(b, p) {
            Err(x) => Err(x),
            Ok(None) => Err(GeoJsonErrorView::Malformed("EOF while reading key"@)),
            Ok(Some((s, e))) => match json::string_at(b.subrange(s, e)) {
                Err(x) => Err(x),
                Ok(key) => match after_key(b, e, key) {
                    Err(x) => Err(x),
                    Ok(v) => {
                        proof {
                            lemma_skipped(b, e);
                            lemma_skipped(b, skipped(b, e) + 1);
                            lemma_value_bounds(b, v);
                        }
                        if key == "features"@ {
                            features_at(b, v, keys)
                        } else {
                            match member_at(b, v, key) {
                                Err(x) => Err(x),
                                Ok((m, end)) => top_from(
                                    b,
                                    end,
                                    json::put(keys, m),
                                    if key == "type"@ {
                                        json::text_of(Some(m.value))
                                    } else {
                                        declared
                                    },
                                ),
                            }
                        }
                    },
                },
            },
        }
    }
}

/// What a document is.
pub open spec fn top_level(b: Seq<u8>) -> Result<TopLevelView, GeoJsonErrorView> {
    let p = skipped(b, 0);
    if p >= b.len() {
        Err(GeoJsonErrorView::Malformed("empty input"@))
    } else if b[p] != 123 {
        Err(
            GeoJsonErrorView::Malformed(
                "GeoJSON root must be a JSON object (got first byte "@ + hex_text(b[p]) + ")"@,
            ),
        )
    } else {
        top_from(b, p + 1, Seq::empty(), None)
    }
}

fn wrap_bare(declared: Option<String>, keys: Vec<Member>) -> (r: Result<TopLevel, GeoJsonError>)
    ensures
        match r {
            Ok(t) => bare(
                match declared {
                    None => None,
                    Some(s) => Some(s@),
                },
                json::members_view(keys@),
            ) == Ok::<TopLevelView, GeoJsonErrorView>(t@),
            Err(e) => bare(
                match declared {
                    None => None,
                    Some(s) => Some(s@),
                },
                json::members_view(keys@),
            ) == Err::<TopLevelView, GeoJsonErrorView>(e@),
        },
{
    proof {
        json::lemma_object_view(keys);
    }
    match declared {
        None => Err(GeoJsonError::malformed("GeoJSON root missing 'type'")),
        Some(ty) => if same(ty.as_str(), "Feature") {
            Ok(TopLevel::BareFeature(Json::Object(keys)))
        } else if is_geometry_name(ty.as_str()) {
            Ok(TopLevel::BareGeometry(Json::Object(keys)))
        } else {
            let mut m: String = "top-level type '".to_owned();
            m.append(ty.as_str());
            m.append("'");
            Err(GeoJsonError::Unsupported(m))
        },
    }
}

fn skip_colon(bytes: &[u8], pos: usize, key: &String) -> (r: Result<usize, GeoJsonError>)
    requires
        pos <= bytes@.len(),
    ensures
        match r {
            Ok(v) => after_key(bytes@, pos as int, key@) == Ok::<int, GeoJsonErrorView>(v as int)
                && pos < v <= bytes@.len(),
            Err(e) => after_key(bytes@, pos as int, key@) == Err::<int, GeoJsonErrorView>(e@),
        },
{
    let q: usize = skip_ws(bytes, pos);
    if q >= bytes.len() {
        return Err(GeoJsonError::malformed("EOF after key"));
    }
    if bytes[q] != 58 {
        let mut m: String = "expected ':' after key '".to_owned();
        m.append(key.as_str());
        m.append("', got byte ");
        return Err(byte_error(m.as_str(), bytes[q]));
    }
    Ok(skip_ws(bytes, q + 1))
}

fn open_features(bytes: &[u8], v: usize, keys: Vec<Member>) -> (r: Result<TopLevel, GeoJsonError>)
    requires
        v <= bytes@.len(),
    ensures
        match r {
            Ok(t) => features_at(bytes@, v as int, json::members_view(keys@)) == Ok::<
                TopLevelView,
                GeoJsonErrorView,
            >(t@),
            Err(e) => features_at(bytes@, v as int, json::members_view(keys@)) == Err::<
                TopLevelView,
                GeoJsonErrorView,
            >(e@),
        },
        match r {
            Ok(TopLevel::Collection { pos, header_keys }) => pos <= bytes@.len(),
            _ => true,
        },
{
    if v >= bytes.len() {
        return Err(GeoJsonError::malformed("EOF before features array"));
    }
    if bytes[v] != 91 {
        return Err(byte_error("expected '[' after \"features\", got byte ", bytes[v]));
    }
    Ok(TopLevel::Collection { pos: v + 1, header_keys: keys })
}

fn read_member(bytes: &[u8], v: usize, key: String) -> (r: Result<(Member, usize), GeoJsonError>)
    requires
        v <= bytes@.len(),
    ensures
        match r {
            Ok((m, e)) => member_at(bytes@, v as int, key@) == Ok::<
                (MemberView, int),
                GeoJsonErrorView,
            >((m@, e as int)) && v < e <= bytes@.len(),
            Err(x) => member_at(bytes@, v as int, key@) == Err::<
                (MemberView, int),
                GeoJsonErrorView,
            >(x@),
        },
{
    match read_one_balanced_value(bytes, v) {
        Err(x) => Err(x),
        Ok(None) => {
            let mut m: String = "EOF while reading value for key '".to_owned();
            m.append(key.as_str());
            m.append("'");
            Err(GeoJsonError::Malformed(m))
        },
        Ok(Some((s, e))) => match parse_member(key, slice_subrange(bytes, s, e)) {
            Err(x) => Err(x),
            Ok(m) => Ok((m, e)),
        },
    }
}

/// Finds out what a document is.
pub fn open_top_level(bytes: &[u8]) -> (r: Result<TopLevel, GeoJsonError>)
    ensures
        match r {
            Ok(t) => top_level(bytes@) == Ok::<TopLevelView, GeoJsonErrorView>(t@),
            Err(e) => top_level(bytes@) == Err::<TopLevelView, GeoJsonErrorView>(e@),
        },
        match r {
            Ok(TopLevel::Collection { pos, header_keys }) => pos <= bytes@.len(),
            _ => true,
        },
{
    let start: usize = skip_ws(bytes, 0);
    if start >= bytes.len() {
        return Err(GeoJsonError::malformed("empty input"));
    }
    if bytes[start] != 123 {
        let mut m: String = "GeoJSON root must be a JSON object (got first byte ".to_owned();
        push_hex_text(&mut m, bytes[start]);
        m.append(")");
        return Err(GeoJsonError::Malformed(m));
    }
    let mut keys: Vec<Member> = Vec::new();
    let mut declared: Option<String> = None;
    let mut pos: usize = start + 1;
    proof {
        assert(json::members_view(keys@) =~= Seq::empty());
    }
    loop
        invariant
            pos <= bytes@.len(),
            top_level(bytes@) == top_from(
                bytes@,
                pos as int,
                json::members_view(keys@),
                match declared {
                    None => None,
                    Some(s) => Some(s@),
                },
            ),
        decreases bytes@.len() - pos,
    {
        let p: usize = skip_ws(bytes, pos);
        if p >= bytes.len() {
            return Err(GeoJsonError::malformed("unexpected EOF in top-level object"));
        }
        if bytes[p] == 125 {
            return wrap_bare(declared, keys);
        }
        if bytes[p] == 44 {
            pos = p + 1;
            continue;
        }
        if bytes[p] != 34 {
            return Err(
                byte_error("expected object key (string) or '}', got byte ", bytes[p]),
            );
        }
        let (s, e): (usize, usize) = match read_one_balanced_value(bytes, p) {
            Err(x) => return Err(x),
            Ok(None) => return Err(GeoJsonError::malformed("EOF while reading key")),
            Ok(Some((s, e))) => (s, e),
        };
        let key: String = match parse_json_string(slice_subrange(bytes, s, e)) {
            Err(x) => return Err(x),
            Ok(k) => k,
        };
        let v: usize = match skip_colon(bytes, e, &key) {
            Err(x) => return Err(x),
            Ok(v) => v,
        };
        if same(key.as_str(), "features") {
            return open_features(bytes, v, keys);
        }
        let is_type: bool = same(key.as_str(), "type");
        let (m, end): (Member, usize) = match read_member(bytes, v, key) {
            Err(x) => return Err(x),
            Ok((m, end)) => (m, end),
        };
        if is_type {
            declared = match m.value.as_str() {
                None => None,
                Some(s) => Some(s.to_owned()),
            };
        }
        put_member(&mut keys, m);
        pos = end;
    }
}

// ---------------------------------------------------------------------------
// The features of a collection
// ---------------------------------------------------------------------------
/// Where the next feature begins and ends; `None` where the array closes.
pub open spec fn feature_bounds(b: Seq<u8>, pos: int) -> Result<
    Option<(int, int)>,
    GeoJsonErrorView,
>
    decreases b.len() - pos,
{
    let p = skipped(b, pos);
    proof {
        lemma_skipped(b, pos);
    }
    if p >= b.len() {
        Err(GeoJsonErrorView::Malformed("EOF inside features array (no closing ']')"@))
    } else if b[p] == 93 {
        Ok(None)
    } else if b[p] == 44 {
        feature_bounds(b, p + 1)
    } else {
        value_bounds(b, p)
    }
}

/// The next feature of the array and where it ends; `None` where the array
/// closes.
pub open spec fn feature_value(b: Seq<u8>, pos: int) -> Result<
    Option<(JsonView, int)>,
    GeoJsonErrorView,
> {
    match feature_bounds(b, pos) {
        Err(x) => Err(x),
        Ok(None) => Ok(None),
        Ok(Some((s, e))) => match json::json_at(b.subrange(s, e)) {
            Err(x) => Err(x),
            Ok(j) => Ok(Some((j, e))),
        },
    }
}

/// A feature lies in the input, behind where the search began.
pub proof fn lemma_feature_bounds(b: Seq<u8>, pos: int)
    requires
        0 <= pos <= b.len(),
    ensures
        match feature_bounds(b, pos) {
            Ok(Some((s, e))) => pos <= s < e <= b.len(),
            _ => true,
        },
    decreases b.len() - pos,
{
    lemma_skipped(b, pos);
    let p = skipped(b, pos);
    if p < b.len() {
        if b[p] == 44 {
            lemma_feature_bounds(b, p + 1);
        } else {
            lemma_value_bounds(b, p);
        }
    }
}

/// Reads the next feature of the array.
pub fn next_feature_value(bytes: &[u8], pos: usize) -> (r: Result<
    Option<(Json, usize)>,
    GeoJsonError,
>)
    requires
        pos <= bytes@.len(),
    ensures
        match r {
            Ok(None) => feature_value(bytes@, pos as int) == Ok::<
                Option<(JsonView, int)>,
                GeoJsonErrorView,
            >(None),
            Ok(Some((j, e))) => feature_value(bytes@, pos as int) == Ok::<
                Option<(JsonView, int)>,
                GeoJsonErrorView,
            >(Some((j@, e as int))) && pos < e <= bytes@.len(),
            Err(e) => feature_value(bytes@, pos as int) == Err::<
                Option<(JsonView, int)>,
                GeoJsonErrorView,
            >(e@),
        },
{
    let mut at: usize = pos;
    loop
        invariant
            pos <= at <= bytes@.len(),
            feature_bounds(bytes@, pos as int) == feature_bounds(bytes@, at as int),
        decreases bytes@.len() - at,
    {
        let p: usize = skip_ws(bytes, at);
        if p >= bytes.len() {
            return Err(GeoJsonError::malformed("EOF inside features array (no closing ']')"));
        }
        if bytes[p] == 93 {
            return Ok(None);
        }
        if bytes[p] == 44 {
            at = p + 1;
            continue;
        }
        let (s, e): (usize, usize) = match read_one_balanced_value(bytes, p) {
            Err(x) => return Err(x),
            Ok(None) => {
                proof {
                    lemma_skipped(bytes@, at as int);
                }
                return Err(GeoJsonError::malformed("EOF mid-feature"));
            },
            Ok(Some((s, e))) => (s, e),
        };
        return match parse_json(slice_subrange(bytes, s, e)) {
            Err(x) => Err(x),
            Ok(j) => Ok(Some((j, e))),
        };
    }
}

} // verus!
