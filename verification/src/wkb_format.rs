//! Well-Known Binary as the format has it, and that the encoder and the decoder
//! keep to it.
//!
//! A geometry is laid out here as a tree whose every node chooses its own byte
//! order, which the format allows.

use crate::error::ErrorView;
use crate::float_bits;
use crate::float_bits::NAN;
use crate::geometry::{Coord, GeometryType, GeometryView, PolygonView};
use crate::octets;
use crate::wkb;
use crate::wkb::Preamble;
use crate::wkb_laws;
use vstd::prelude::*;

verus! {

// ---------------------------------------------------------------------------
// The format
// ---------------------------------------------------------------------------
/// The ordinates of a position: x, then y.
pub type Pair = (u64, u64);

/// A geometry in the format; `big` says that the highest byte of each of its own
/// numbers comes first.
pub enum Node {
    Point { big: bool, at: Pair },
    Line { big: bool, path: Seq<Pair> },
    Polygon { big: bool, rings: Seq<Seq<Pair>> },
    /// Several points (4), lines (5), polygons (6) or geometries of any kind (7).
    Many { big: bool, code: nat, nodes: Seq<Node> },
}

/// A number of four bytes.
#[verifier::opaque]
pub open spec fn word(v: nat, big: bool) -> Seq<u8> {
    let a = (v % 0x100) as u8;
    let b = (v / 0x100 % 0x100) as u8;
    let c = (v / 0x1_0000 % 0x100) as u8;
    let d = (v / 0x100_0000 % 0x100) as u8;
    if big {
        seq![d, c, b, a]
    } else {
        seq![a, b, c, d]
    }
}

/// A number of eight bytes.
pub open spec fn double(v: u64, big: bool) -> Seq<u8> {
    let low = v as nat % 0x1_0000_0000;
    let high = v as nat / 0x1_0000_0000;
    if big {
        word(high, big) + word(low, big)
    } else {
        word(low, big) + word(high, big)
    }
}

/// What each geometry begins with: the byte order and the type.
pub open spec fn head(big: bool, code: nat) -> Seq<u8> {
    seq![
        if big {
            0u8
        } else {
            1u8
        },
    ] + word(code, big)
}

pub open spec fn pair_bytes(p: Pair, big: bool) -> Seq<u8> {
    double(p.0, big) + double(p.1, big)
}

pub open spec fn path_bytes(s: Seq<Pair>, big: bool) -> Seq<u8>
    decreases s.len(),
{
    if s.len() == 0 {
        Seq::empty()
    } else {
        pair_bytes(s[0], big) + path_bytes(s.skip(1), big)
    }
}

/// How many positions there are, and the positions.
pub open spec fn counted(s: Seq<Pair>, big: bool) -> Seq<u8> {
    word(s.len(), big) + path_bytes(s, big)
}

pub open spec fn rings_bytes(s: Seq<Seq<Pair>>, big: bool) -> Seq<u8>
    decreases s.len(),
{
    if s.len() == 0 {
        Seq::empty()
    } else {
        counted(s[0], big) + rings_bytes(s.skip(1), big)
    }
}

/// The bytes of a geometry.
pub open spec fn node_bytes(t: Node) -> Seq<u8>
    decreases t,
{
    match t {
        Node::Point { big, at } => head(big, 1) + pair_bytes(at, big),
        Node::Line { big, path } => head(big, 2) + counted(path, big),
        Node::Polygon { big, rings } => head(big, 3) + (word(rings.len(), big) + rings_bytes(
            rings,
            big,
        )),
        Node::Many { big, code, nodes } => head(big, code) + (word(nodes.len(), big) + nodes_bytes(
            nodes,
        )),
    }
}

pub open spec fn nodes_bytes(s: Seq<Node>) -> Seq<u8>
    decreases s,
{
    if s.len() == 0 {
        Seq::empty()
    } else {
        node_bytes(s[0]) + nodes_bytes(s.skip(1))
    }
}

/// How many positions, rings or geometries a count can announce.
pub open spec fn few(n: nat) -> bool {
    n < 0x1_0000_0000
}

/// Whether a geometry may stand below a node of that type.
pub open spec fn belongs(code: nat, t: Node) -> bool {
    &&& code == 4 ==> t is Point
    &&& code == 5 ==> t is Line
    &&& code == 6 ==> t is Polygon
}

/// Whether the tree is one that the format can hold.
pub open spec fn sound(t: Node) -> bool
    decreases t,
{
    match t {
        Node::Point { big, at } => true,
        Node::Line { big, path } => few(path.len()),
        Node::Polygon { big, rings } => few(rings.len()) && forall|i: int|
            0 <= i < rings.len() ==> few((#[trigger] rings[i]).len()),
        Node::Many { big, code, nodes } => 4 <= code <= 7 && few(nodes.len()) && all_sound(
            code,
            nodes,
        ),
    }
}

pub open spec fn all_sound(code: nat, s: Seq<Node>) -> bool
    decreases s,
{
    s.len() > 0 ==> sound(s[0]) && belongs(code, s[0]) && all_sound(code, s.skip(1))
}

// ---------------------------------------------------------------------------
// What the tree stands for
// ---------------------------------------------------------------------------
pub open spec fn coord(p: Pair) -> Coord {
    Coord { x: p.0, y: p.1, z: None, m: None }
}

pub open spec fn coords(s: Seq<Pair>) -> Seq<Coord> {
    Seq::new(s.len(), |i: int| coord(s[i]))
}

pub open spec fn paths(s: Seq<Seq<Pair>>) -> Seq<Seq<Coord>> {
    Seq::new(s.len(), |i: int| coords(s[i]))
}

/// Two ordinates that are not numbers are how an empty point is written.
pub open spec fn nowhere(p: Pair) -> bool {
    float_bits::nan(p.0) && float_bits::nan(p.1)
}

/// The point of a multi-point.
pub open spec fn spot(t: Node) -> Coord {
    if nowhere(t->at) {
        coord((NAN, NAN))
    } else {
        coord(t->at)
    }
}

/// The polygon of a multi-polygon: the first ring is the exterior.
pub open spec fn area(t: Node) -> PolygonView {
    if t->rings.len() == 0 {
        PolygonView { exterior: Seq::empty(), holes: Seq::empty() }
    } else {
        PolygonView { exterior: coords(t->rings[0]), holes: paths(t->rings.skip(1)) }
    }
}

pub open spec fn kind(code: nat) -> GeometryType {
    if code == 4 {
        GeometryType::MultiPoint
    } else if code == 5 {
        GeometryType::MultiLineString
    } else if code == 6 {
        GeometryType::MultiPolygon
    } else {
        GeometryType::GeometryCollection
    }
}

/// The geometry that the tree stands for.
pub open spec fn meaning(t: Node) -> GeometryView
    decreases t,
{
    match t {
        Node::Point { big, at } => if nowhere(at) {
            GeometryView::Empty(GeometryType::Point)
        } else {
            GeometryView::Point(coord(at))
        },
        Node::Line { big, path } => if path.len() == 0 {
            GeometryView::Empty(GeometryType::LineString)
        } else {
            GeometryView::LineString(coords(path))
        },
        Node::Polygon { big, rings } => if rings.len() == 0 {
            GeometryView::Empty(GeometryType::Polygon)
        } else {
            GeometryView::Polygon(area(t))
        },
        Node::Many { big, code, nodes } => if nodes.len() == 0 {
            GeometryView::Empty(kind(code))
        } else if code == 4 {
            GeometryView::MultiPoint(Seq::new(nodes.len(), |i: int| spot(nodes[i])))
        } else if code == 5 {
            GeometryView::MultiLineString(Seq::new(nodes.len(), |i: int| coords(nodes[i]->path)))
        } else if code == 6 {
            GeometryView::MultiPolygon(Seq::new(nodes.len(), |i: int| area(nodes[i])))
        } else {
            GeometryView::GeometryCollection(meanings(nodes))
        },
    }
}

pub open spec fn meanings(s: Seq<Node>) -> Seq<GeometryView>
    decreases s,
{
    if s.len() == 0 {
        Seq::empty()
    } else {
        seq![meaning(s[0])] + meanings(s.skip(1))
    }
}

// ---------------------------------------------------------------------------
// Reading
// ---------------------------------------------------------------------------
proof fn lemma_word(b: Seq<u8>, pos: int, v: nat, big: bool)
    requires
        wkb_laws::stands_at(b, pos, word(v, big)),
        few(v),
    ensures
        word(v, big).len() == 4,
        wkb::u32_at(b, pos, !big) == Ok::<(u32, int), ErrorView>((v as u32, pos + 4)),
{
    lemma_word_value(v, big);
}

proof fn lemma_joined(low: Seq<u8>, high: Seq<u8>)
    requires
        low.len() == 4,
        high.len() == 4,
    ensures
        octets::le_nat(low + high) == octets::le_nat(low) + 0x1_0000_0000 * octets::le_nat(high),
        octets::be_nat(high + low) == octets::be_nat(low) + 0x1_0000_0000 * octets::be_nat(high),
{
    octets::law_places(low);
    octets::law_places(high);
    octets::law_places(low + high);
    octets::law_places(high + low);
}

proof fn lemma_word_len(v: nat, big: bool)
    ensures
        word(v, big).len() == 4,
{
    reveal(word);
}

proof fn lemma_digits(v: nat)
    requires
        few(v),
    ensures
        v == v % 0x100 + 0x100 * (v / 0x100 % 0x100) + 0x1_0000 * (v / 0x1_0000 % 0x100)
            + 0x100_0000 * (v / 0x100_0000 % 0x100),
{
    let p = v / 0x100;
    let q = v / 0x1_0000;
    let r = v / 0x100_0000;
    assert(p / 0x100 == q);
    assert(q / 0x100 == r);
    assert(p == p % 0x100 + 0x100 * q);
    assert(q == q % 0x100 + 0x100 * r);
    assert(r < 0x100);
}

proof fn lemma_word_value(v: nat, big: bool)
    requires
        few(v),
    ensures
        word(v, big).len() == 4,
        big ==> octets::be_nat(word(v, big)) == v,
        !big ==> octets::le_nat(word(v, big)) == v,
{
    reveal(word);
    let a = (v % 0x100) as u8;
    let b = (v / 0x100 % 0x100) as u8;
    let c = (v / 0x1_0000 % 0x100) as u8;
    let d = (v / 0x100_0000 % 0x100) as u8;
    lemma_digits(v);
    assert(v == a + 0x100 * b + 0x1_0000 * c + 0x100_0000 * d);
    let w = word(v, big);
    octets::law_places(w);
    if big {
        assert(w[0] == d && w[1] == c && w[2] == b && w[3] == a);
    } else {
        assert(w[0] == a && w[1] == b && w[2] == c && w[3] == d);
    }
}

proof fn lemma_double(b: Seq<u8>, pos: int, v: u64, big: bool)
    requires
        wkb_laws::stands_at(b, pos, double(v, big)),
    ensures
        double(v, big).len() == 8,
        wkb::double_at(b, pos, !big) == Ok::<(u64, int), ErrorView>((v, pos + 8)),
{
    let low = v as nat % 0x1_0000_0000;
    let high = v as nat / 0x1_0000_0000;
    lemma_word_value(low, big);
    lemma_word_value(high, big);
    lemma_joined(word(low, big), word(high, big));
}

proof fn lemma_pair(b: Seq<u8>, pos: int, p: Pair, big: bool)
    requires
        wkb_laws::stands_at(b, pos, pair_bytes(p, big)),
    ensures
        pair_bytes(p, big).len() == 16,
        wkb::coord_at(b, pos, !big) == Ok::<(Coord, int), ErrorView>((coord(p), pos + 16)),
{
    lemma_word_len(p.0 as nat % 0x1_0000_0000, big);
    lemma_word_len(p.0 as nat / 0x1_0000_0000, big);
    wkb_laws::lemma_split(b, pos, double(p.0, big), double(p.1, big));
    lemma_double(b, pos, p.0, big);
    lemma_double(b, pos + 8, p.1, big);
}

proof fn lemma_path(b: Seq<u8>, pos: int, s: Seq<Pair>, big: bool, acc: Seq<Coord>)
    requires
        wkb_laws::stands_at(b, pos, path_bytes(s, big)),
    ensures
        wkb::coords_at(b, pos, !big, s.len(), acc) == Ok::<(Seq<Coord>, int), ErrorView>(
            (acc + coords(s), pos + path_bytes(s, big).len()),
        ),
    decreases s.len(),
{
    if s.len() == 0 {
        assert(acc + coords(s) =~= acc);
    } else {
        wkb_laws::lemma_split(b, pos, pair_bytes(s[0], big), path_bytes(s.skip(1), big));
        lemma_pair(b, pos, s[0], big);
        lemma_path(b, pos + 16, s.skip(1), big, acc.push(coord(s[0])));
        assert(acc.push(coord(s[0])) + coords(s.skip(1)) =~= acc + coords(s));
    }
}

proof fn lemma_counted(b: Seq<u8>, pos: int, s: Seq<Pair>, big: bool)
    requires
        wkb_laws::stands_at(b, pos, counted(s, big)),
        few(s.len()),
    ensures
        wkb::ring_at(b, pos, !big) == Ok::<(Seq<Coord>, int), ErrorView>(
            (coords(s), pos + counted(s, big).len()),
        ),
{
    lemma_word_len(s.len(), big);
    wkb_laws::lemma_split(b, pos, word(s.len(), big), path_bytes(s, big));
    lemma_word(b, pos, s.len(), big);
    lemma_path(b, pos + 4, s, big, Seq::empty());
    assert(Seq::<Coord>::empty() + coords(s) =~= coords(s));
}

proof fn lemma_rings(b: Seq<u8>, pos: int, s: Seq<Seq<Pair>>, big: bool, acc: Seq<Seq<Coord>>)
    requires
        wkb_laws::stands_at(b, pos, rings_bytes(s, big)),
        forall|i: int| 0 <= i < s.len() ==> few((#[trigger] s[i]).len()),
    ensures
        wkb::rings_at(b, pos, !big, s.len(), acc) == Ok::<(Seq<Seq<Coord>>, int), ErrorView>(
            (acc + paths(s), pos + rings_bytes(s, big).len()),
        ),
    decreases s.len(),
{
    if s.len() == 0 {
        assert(acc + paths(s) =~= acc);
    } else {
        wkb_laws::lemma_split(b, pos, counted(s[0], big), rings_bytes(s.skip(1), big));
        lemma_counted(b, pos, s[0], big);
        assert forall|i: int| 0 <= i < s.skip(1).len() implies few(
            (#[trigger] s.skip(1)[i]).len(),
        ) by {
            assert(s.skip(1)[i] == s[i + 1]);
        }
        lemma_rings(b, pos + counted(s[0], big).len(), s.skip(1), big, acc.push(coords(s[0])));
        assert(acc.push(coords(s[0])) + paths(s.skip(1)) =~= acc + paths(s));
    }
}

proof fn lemma_head(b: Seq<u8>, pos: int, big: bool, code: nat, rest: Seq<u8>)
    requires
        wkb_laws::stands_at(b, pos, head(big, code) + rest),
        1 <= code <= 7,
    ensures
        wkb::preamble_at(b, pos) == Ok::<(Preamble, int), ErrorView>(
            (Preamble { le: !big, base: code as u32, has_z: false, has_m: false }, pos + 5),
        ),
        head(big, code).len() == 5,
        wkb_laws::stands_at(b, pos + 5, rest),
{
    let mark = seq![
        if big {
            0u8
        } else {
            1u8
        },
    ];
    lemma_word_len(code, big);
    wkb_laws::lemma_split(b, pos, head(big, code), rest);
    wkb_laws::lemma_split(b, pos, mark, word(code, big));
    assert(b.subrange(pos, pos + 1)[0] == mark[0]);
    lemma_word(b, pos + 1, code, big);
}

proof fn lemma_node(b: Seq<u8>, pos: int, t: Node)
    requires
        wkb_laws::stands_at(b, pos, node_bytes(t)),
        sound(t),
    ensures
        wkb::geometry_at(b, pos) == Ok::<(GeometryView, int), ErrorView>(
            (meaning(t), pos + node_bytes(t).len()),
        ),
        wkb_laws::stands_at(b, pos, node_bytes(t)),
    decreases t, 0int,
{
    match t {
        Node::Point { big, at } => {
            lemma_point(b, pos, big, at);
        },
        Node::Line { big, path } => {
            lemma_line(b, pos, big, path);
        },
        Node::Polygon { big, rings } => {
            lemma_polygon(b, pos, big, rings);
        },
        Node::Many { big, code, nodes } => {
            lemma_many_parts(b, pos, big, code, nodes);
            assert(decreases_to!(t => nodes));
            lemma_nodes(b, pos + 9, code, nodes, Seq::empty());
            lemma_many(b, pos, big, code, nodes);
        },
    }
}

proof fn lemma_point(b: Seq<u8>, pos: int, big: bool, at: Pair)
    requires
        wkb_laws::stands_at(b, pos, node_bytes(Node::Point { big, at })),
    ensures
        wkb::geometry_at(b, pos) == Ok::<(GeometryView, int), ErrorView>(
            (meaning(Node::Point { big, at }), pos + node_bytes(Node::Point { big, at }).len()),
        ),
{
    lemma_head(b, pos, big, 1, pair_bytes(at, big));
    lemma_pair(b, pos + 5, at, big);
    assert(wkb::geometry_at(b, pos) == wkb::point_at(b, pos + 5, !big));
}

proof fn lemma_line(b: Seq<u8>, pos: int, big: bool, path: Seq<Pair>)
    requires
        wkb_laws::stands_at(b, pos, node_bytes(Node::Line { big, path })),
        few(path.len()),
    ensures
        wkb::geometry_at(b, pos) == Ok::<(GeometryView, int), ErrorView>(
            (meaning(Node::Line { big, path }), pos + node_bytes(Node::Line { big, path }).len()),
        ),
{
    lemma_head(b, pos, big, 2, counted(path, big));
    lemma_counted(b, pos + 5, path, big);
    assert(wkb::geometry_at(b, pos) == wkb::line_at(b, pos + 5, !big));
}

proof fn lemma_many_parts(b: Seq<u8>, pos: int, big: bool, code: nat, nodes: Seq<Node>)
    requires
        wkb_laws::stands_at(b, pos, node_bytes(Node::Many { big, code, nodes })),
        sound(Node::Many { big, code, nodes }),
    ensures
        wkb_laws::stands_at(b, pos + 9, nodes_bytes(nodes)),
        4 <= code <= 7,
        all_sound(code, nodes),
{
    let rest = word(nodes.len(), big) + nodes_bytes(nodes);
    lemma_word_len(nodes.len(), big);
    lemma_head(b, pos, big, code, rest);
    wkb_laws::lemma_split(b, pos + 5, word(nodes.len(), big), nodes_bytes(nodes));
}

proof fn lemma_polygon(b: Seq<u8>, pos: int, big: bool, rings: Seq<Seq<Pair>>)
    requires
        wkb_laws::stands_at(b, pos, node_bytes(Node::Polygon { big, rings })),
        sound(Node::Polygon { big, rings }),
    ensures
        wkb::geometry_at(b, pos) == Ok::<(GeometryView, int), ErrorView>(
            (
                meaning(Node::Polygon { big, rings }),
                pos + node_bytes(Node::Polygon { big, rings }).len(),
            ),
        ),
{
    let rest = word(rings.len(), big) + rings_bytes(rings, big);
    lemma_head(b, pos, big, 3, rest);
    lemma_word_len(rings.len(), big);
    wkb_laws::lemma_split(b, pos + 5, word(rings.len(), big), rings_bytes(rings, big));
    lemma_word(b, pos + 5, rings.len(), big);
    lemma_rings(b, pos + 9, rings, big, Seq::empty());
    assert(Seq::<Seq<Coord>>::empty() + paths(rings) =~= paths(rings));
    if rings.len() > 0 {
        assert(paths(rings).skip(1) =~= paths(rings.skip(1)));
    } else {
        assert(rings_bytes(rings, big).len() == 0);
    }
    assert(wkb::geometry_at(b, pos) == wkb::polygon_at(b, pos + 5, !big));
}

proof fn lemma_many(b: Seq<u8>, pos: int, big: bool, code: nat, nodes: Seq<Node>)
    requires
        wkb_laws::stands_at(b, pos, node_bytes(Node::Many { big, code, nodes })),
        sound(Node::Many { big, code, nodes }),
        wkb::children_at(b, pos + 9, kind(code), nodes.len(), Seq::empty()) == Ok::<
            (Seq<GeometryView>, int),
            ErrorView,
        >((Seq::<GeometryView>::empty() + meanings(nodes), pos + 9 + nodes_bytes(nodes).len())),
    ensures
        wkb::geometry_at(b, pos) == Ok::<(GeometryView, int), ErrorView>(
            (
                meaning(Node::Many { big, code, nodes }),
                pos + node_bytes(Node::Many { big, code, nodes }).len(),
            ),
        ),
{
    let rest = word(nodes.len(), big) + nodes_bytes(nodes);
    lemma_word_len(nodes.len(), big);
    lemma_head(b, pos, big, code, rest);
    wkb_laws::lemma_split(b, pos + 5, word(nodes.len(), big), nodes_bytes(nodes));
    lemma_word(b, pos + 5, nodes.len(), big);
    assert(Seq::<GeometryView>::empty() + meanings(nodes) =~= meanings(nodes));
    assert(wkb::geometry_at(b, pos) == wkb::parent_at(b, pos + 5, !big, code as u32));
    assert(wkb::parent_of(code as u32) == kind(code));
    if nodes.len() > 0 {
        lemma_assembled(code, nodes);
    } else {
        assert(nodes_bytes(nodes).len() == 0);
    }
}

proof fn lemma_nodes(b: Seq<u8>, pos: int, code: nat, s: Seq<Node>, acc: Seq<GeometryView>)
    requires
        wkb_laws::stands_at(b, pos, nodes_bytes(s)),
        4 <= code <= 7,
        all_sound(code, s),
    ensures
        wkb::children_at(b, pos, kind(code), s.len(), acc) == Ok::<
            (Seq<GeometryView>, int),
            ErrorView,
        >((acc + meanings(s), pos + nodes_bytes(s).len())),
    decreases s, 1int,
{
    if s.len() == 0 {
        assert(acc + meanings(s) =~= acc);
    } else {
        let g = meaning(s[0]);
        wkb_laws::lemma_split(b, pos, node_bytes(s[0]), nodes_bytes(s.skip(1)));
        assert(decreases_to!(s => s[0]));
        lemma_node(b, pos, s[0]);
        wkb::lemma_geometry_advances(b, pos);
        lemma_nodes(b, pos + node_bytes(s[0]).len(), code, s.skip(1), acc.push(g));
        assert(acc.push(g) + meanings(s.skip(1)) =~= acc + meanings(s));
    }
}

proof fn lemma_meanings(code: nat, s: Seq<Node>)
    requires
        all_sound(code, s),
    ensures
        meanings(s).len() == s.len(),
        forall|i: int|
            #![trigger meanings(s)[i]]
            #![trigger s[i]]
            0 <= i < s.len() ==> meanings(s)[i] == meaning(s[i]) && belongs(code, s[i]),
    decreases s.len(),
{
    if s.len() > 0 {
        lemma_meanings(code, s.skip(1));
        assert forall|i: int| 0 <= i < s.len() implies #[trigger] meanings(s)[i] == meaning(s[i])
            && belongs(code, s[i]) by {
            if i > 0 {
                assert(s.skip(1)[i - 1] == s[i]);
                assert(meanings(s)[i] == meanings(s.skip(1))[i - 1]);
            }
        }
        assert forall|i: int| 0 <= i < s.len() implies meanings(s)[i] == meaning(#[trigger] s[i])
            && belongs(code, s[i]) by {
            assert(meanings(s)[i] == meaning(s[i]));
        }
    }
}

proof fn lemma_assembled(code: nat, s: Seq<Node>)
    requires
        all_sound(code, s),
        4 <= code <= 7,
        s.len() > 0,
    ensures
        wkb::assemble(kind(code), meanings(s)) == meaning(Node::Many { big: true, code, nodes: s }),
{
    lemma_meanings(code, s);
    let t = meaning(Node::Many { big: true, code, nodes: s });
    let r = wkb::assemble(kind(code), meanings(s));
    if code == 4 {
        assert(r->MultiPoint_0 =~= t->MultiPoint_0);
    } else if code == 5 {
        assert forall|i: int| 0 <= i < s.len() implies r->MultiLineString_0[i]
            == #[trigger] t->MultiLineString_0[i] by {
            assert(meanings(s)[i] == meaning(s[i]));
            assert(wkb::child_line(meaning(s[i])) =~= coords(s[i]->path));
        }
        assert(r->MultiLineString_0 =~= t->MultiLineString_0);
    } else if code == 6 {
        assert(r->MultiPolygon_0 =~= t->MultiPolygon_0);
    }
}

/// Every tree that the format can hold is read as the geometry that it stands
/// for, whatever the byte orders, and whatever follows it.
pub proof fn law_either_byte_order_is_read(t: Node, rest: Seq<u8>)
    requires
        sound(t),
    ensures
        wkb::decoded(node_bytes(t) + rest) == Ok::<GeometryView, ErrorView>(meaning(t)),
{
    let b = node_bytes(t) + rest;
    assert(b.subrange(0, node_bytes(t).len() as int) =~= node_bytes(t));
    lemma_node(b, 0, t);
}

/// The number that four bytes of `b` from the second on stand for.
pub open spec fn written_code(b: Seq<u8>) -> int {
    if b[0] == 0 {
        b[4] + 0x100 * b[3] + 0x1_0000 * b[2] + 0x100_0000 * b[1]
    } else {
        b[1] + 0x100 * b[2] + 0x1_0000 * b[3] + 0x100_0000 * b[4]
    }
}

/// What is refused: bytes too few to begin a geometry, a byte order that there
/// is not, a type with Z or M ordinates in either of the two notations, and a
/// type that there is not.
pub proof fn law_what_is_refused(b: Seq<u8>)
    ensures
        b.len() < 5 ==> (wkb::decoded(b) matches Err(e) && e is Malformed),
        b.len() > 0 && b[0] > 1 ==> (wkb::decoded(b) matches Err(e) && e is Malformed),
        b.len() >= 5 && b[0] <= 1 ==> {
            let code = written_code(b);
            let flagged = code >= 0x4000_0000 || 1001 <= code <= 1007 || 2001 <= code <= 2007
                || 3001 <= code <= 3007;
            flagged || code == 0 || 8 <= code < 0x100 ==> (wkb::decoded(b) matches Err(e)
                && e is Unsupported)
        },
{
    if b.len() >= 5 && b[0] <= 1 {
        octets::law_places(b.subrange(1, 5));
    }
}

// ---------------------------------------------------------------------------
// Bytes that are cut short
// ---------------------------------------------------------------------------
/// Whether the first bytes of `full` are those of `b`.
pub open spec fn begins(full: Seq<u8>, b: Seq<u8>) -> bool {
    b.len() <= full.len() && b == full.take(b.len() as int)
}

proof fn lemma_same_word(full: Seq<u8>, b: Seq<u8>, pos: int, le: bool)
    requires
        begins(full, b),
        0 <= pos,
    ensures
        wkb::u32_at(b, pos, le) is Ok ==> wkb::u32_at(full, pos, le) == wkb::u32_at(b, pos, le),
{
    if pos + 4 <= b.len() {
        assert(full.subrange(pos, pos + 4) =~= b.subrange(pos, pos + 4));
    }
}

proof fn lemma_same_coord(full: Seq<u8>, b: Seq<u8>, pos: int, le: bool)
    requires
        begins(full, b),
        0 <= pos,
    ensures
        wkb::coord_at(b, pos, le) is Ok ==> wkb::coord_at(full, pos, le) == wkb::coord_at(
            b,
            pos,
            le,
        ),
{
    if pos + 8 <= b.len() {
        assert(full.subrange(pos, pos + 8) =~= b.subrange(pos, pos + 8));
    }
    if pos + 16 <= b.len() {
        assert(full.subrange(pos + 8, pos + 16) =~= b.subrange(pos + 8, pos + 16));
    }
}

proof fn lemma_same_coords(
    full: Seq<u8>,
    b: Seq<u8>,
    pos: int,
    le: bool,
    n: nat,
    acc: Seq<Coord>,
)
    requires
        begins(full, b),
        0 <= pos,
    ensures
        wkb::coords_at(b, pos, le, n, acc) is Ok ==> wkb::coords_at(full, pos, le, n, acc)
            == wkb::coords_at(b, pos, le, n, acc),
    decreases n,
{
    if n > 0 {
        lemma_same_coord(full, b, pos, le);
        if let Ok((c, p)) = wkb::coord_at(b, pos, le) {
            lemma_same_coords(full, b, p, le, (n - 1) as nat, acc.push(c));
        }
    }
}

proof fn lemma_same_ring(full: Seq<u8>, b: Seq<u8>, pos: int, le: bool)
    requires
        begins(full, b),
        0 <= pos,
    ensures
        wkb::ring_at(b, pos, le) matches Ok((s, p)) ==> p >= pos && wkb::ring_at(full, pos, le)
            == wkb::ring_at(b, pos, le),
{
    lemma_same_word(full, b, pos, le);
    if let Ok((n, p)) = wkb::u32_at(b, pos, le) {
        lemma_same_coords(full, b, p, le, n as nat, Seq::empty());
        wkb::lemma_coords_advance(b, p, le, n as nat, Seq::empty());
    }
}

proof fn lemma_same_rings(
    full: Seq<u8>,
    b: Seq<u8>,
    pos: int,
    le: bool,
    n: nat,
    acc: Seq<Seq<Coord>>,
)
    requires
        begins(full, b),
        0 <= pos,
    ensures
        wkb::rings_at(b, pos, le, n, acc) is Ok ==> wkb::rings_at(full, pos, le, n, acc)
            == wkb::rings_at(b, pos, le, n, acc),
    decreases n,
{
    if n > 0 {
        lemma_same_ring(full, b, pos, le);
        if let Ok((r, p)) = wkb::ring_at(b, pos, le) {
            lemma_same_rings(full, b, p, le, (n - 1) as nat, acc.push(r));
        }
    }
}

proof fn lemma_same_geometry(full: Seq<u8>, b: Seq<u8>, pos: int)
    requires
        begins(full, b),
        0 <= pos <= b.len(),
    ensures
        wkb::geometry_at(b, pos) is Ok ==> wkb::geometry_at(full, pos) == wkb::geometry_at(b, pos),
    decreases b.len() - pos, 0nat,
{
    if pos < b.len() {
        assert(b[pos] == full[pos]);
        lemma_same_word(full, b, pos + 1, b[pos] == 1);
        if let Ok((h, p)) = wkb::preamble_at(b, pos) {
            assert(wkb::preamble_at(full, pos) == wkb::preamble_at(b, pos));
            lemma_same_word(full, b, p, h.le);
            if h.has_z || h.has_m {
            } else if h.base == 1 {
                lemma_same_coord(full, b, p, h.le);
            } else if h.base == 2 {
                lemma_same_ring(full, b, p, h.le);
            } else if h.base == 3 {
                if let Ok((n, q)) = wkb::u32_at(b, p, h.le) {
                    lemma_same_rings(full, b, q, h.le, n as nat, Seq::empty());
                }
            } else if 4 <= h.base <= 7 {
                if let Ok((n, q)) = wkb::u32_at(b, p, h.le) {
                    lemma_same_children(
                        full,
                        b,
                        q,
                        wkb::parent_of(h.base),
                        n as nat,
                        Seq::empty(),
                    );
                    assert(wkb::parent_at(b, p, h.le, h.base) is Ok ==> wkb::parent_at(
                        full,
                        p,
                        h.le,
                        h.base,
                    ) == wkb::parent_at(b, p, h.le, h.base));
                }
            }
        }
    }
}

proof fn lemma_same_children(
    full: Seq<u8>,
    b: Seq<u8>,
    pos: int,
    parent: GeometryType,
    n: nat,
    acc: Seq<GeometryView>,
)
    requires
        begins(full, b),
        0 <= pos <= b.len(),
    ensures
        wkb::children_at(b, pos, parent, n, acc) is Ok ==> wkb::children_at(
            full,
            pos,
            parent,
            n,
            acc,
        ) == wkb::children_at(b, pos, parent, n, acc),
    decreases b.len() - pos, n,
{
    if n > 0 {
        lemma_same_geometry(full, b, pos);
        wkb::lemma_geometry_advances(b, pos);
        if let Ok((g, p)) = wkb::geometry_at(b, pos) {
            lemma_same_children(full, b, p, parent, (n - 1) as nat, acc.push(g));
        }
    }
}

/// A geometry whose bytes are cut short anywhere is refused.
pub proof fn law_cut_short_is_refused(t: Node, k: int)
    requires
        sound(t),
        0 <= k < node_bytes(t).len(),
    ensures
        wkb::decoded(node_bytes(t).take(k)) is Err,
{
    let full = node_bytes(t);
    let b = full.take(k);
    assert(full.subrange(0, full.len() as int) =~= full);
    lemma_node(full, 0, t);
    lemma_same_geometry(full, b, 0);
    wkb::lemma_geometry_advances(b, 0);
}

// ---------------------------------------------------------------------------
// Writing
// ---------------------------------------------------------------------------
pub open spec fn pair(c: Coord) -> Pair {
    (c.x, c.y)
}

pub open spec fn pairs(s: Seq<Coord>) -> Seq<Pair> {
    Seq::new(s.len(), |i: int| pair(s[i]))
}

pub open spec fn all_pairs(s: Seq<Seq<Coord>>) -> Seq<Seq<Pair>> {
    Seq::new(s.len(), |i: int| pairs(s[i]))
}

pub open spec fn point_node(c: Coord) -> Node {
    Node::Point { big: false, at: pair(c) }
}

pub open spec fn line_node(s: Seq<Coord>) -> Node {
    Node::Line { big: false, path: pairs(s) }
}

pub open spec fn polygon_node(p: PolygonView) -> Node {
    Node::Polygon { big: false, rings: all_pairs(seq![p.exterior] + p.holes) }
}

pub open spec fn many(code: nat, nodes: Seq<Node>) -> Node {
    Node::Many { big: false, code, nodes }
}

/// The tree that a geometry is written as: the lowest byte of each number comes
/// first, and an empty geometry has no parts.
pub open spec fn node_of(g: GeometryView) -> Node
    decreases g,
{
    match g {
        GeometryView::Point(c) => point_node(c),
        GeometryView::LineString(s) => line_node(s),
        GeometryView::Polygon(p) => polygon_node(p),
        GeometryView::MultiPoint(s) => many(4, Seq::new(s.len(), |i: int| point_node(s[i]))),
        GeometryView::MultiLineString(s) => many(5, Seq::new(s.len(), |i: int| line_node(s[i]))),
        GeometryView::MultiPolygon(s) => many(6, Seq::new(s.len(), |i: int| polygon_node(s[i]))),
        GeometryView::GeometryCollection(s) => many(7, nodes_of(s)),
        GeometryView::Empty(t) => match t {
            GeometryType::Point => Node::Point { big: false, at: (NAN, NAN) },
            GeometryType::LineString => Node::Line { big: false, path: Seq::empty() },
            GeometryType::Polygon => Node::Polygon { big: false, rings: Seq::empty() },
            GeometryType::MultiPoint => many(4, Seq::empty()),
            GeometryType::MultiLineString => many(5, Seq::empty()),
            GeometryType::MultiPolygon => many(6, Seq::empty()),
            GeometryType::GeometryCollection => many(7, Seq::empty()),
        },
    }
}

pub open spec fn nodes_of(s: Seq<GeometryView>) -> Seq<Node>
    decreases s,
{
    if s.len() == 0 {
        Seq::empty()
    } else {
        seq![node_of(s[0])] + nodes_of(s.skip(1))
    }
}

proof fn lemma_written_word(v: nat)
    ensures
        octets::le_bytes(v, 4) == word(v, false),
{
    reveal(word);
    reveal_with_fuel(octets::le_bytes, 5);
    assert(v / 0x100 / 0x100 == v / 0x1_0000);
    assert(v / 0x100 / 0x100 / 0x100 == v / 0x100_0000);
    assert(octets::le_bytes(v, 4) =~= word(v, false));
}

proof fn lemma_cut(v: nat, k: nat, n: nat)
    ensures
        octets::le_bytes(v, k + n) == octets::le_bytes(v, k) + octets::le_bytes(
            v / octets::pow256(k),
            n,
        ),
        octets::pow256(k) > 0,
    decreases k,
{
    if k == 0 {
        assert(octets::le_bytes(v, 0) + octets::le_bytes(v / 1, n) =~= octets::le_bytes(v, n));
    } else {
        let j = (k - 1) as nat;
        lemma_cut(v / 256, j, n);
        vstd::arithmetic::div_mod::lemma_div_denominator(
            v as int,
            256,
            octets::pow256(j) as int,
        );
        assert(octets::le_bytes(v, k + n) =~= octets::le_bytes(v, k) + octets::le_bytes(
            v / octets::pow256(k),
            n,
        ));
    }
}

proof fn lemma_low_word(v: u64)
    ensures
        word(v as nat % 0x1_0000_0000, false) == word(v as nat, false),
{
    reveal(word);
    let low: u64 = v % 0x1_0000_0000;
    assert(low % 0x100 == v % 0x100 && low / 0x100 % 0x100 == v / 0x100 % 0x100 && low / 0x1_0000
        % 0x100 == v / 0x1_0000 % 0x100 && low / 0x100_0000 % 0x100 == v / 0x100_0000 % 0x100)
        by (bit_vector)
        requires
            low == v % 0x1_0000_0000,
    ;
}

proof fn lemma_written_double(v: u64)
    ensures
        octets::le_bytes(v as nat, 8) == double(v, false),
{
    let n = v as nat;
    octets::lemma_pow256_values();
    lemma_written_word(n);
    lemma_written_word(n / 0x1_0000_0000);
    lemma_low_word(v);
    lemma_cut(n, 4, 4);
}

proof fn lemma_written_head(code: nat)
    ensures
        wkb::preamble(code) == head(false, code),
{
    lemma_written_word(code);
}

proof fn lemma_written_path(s: Seq<Coord>)
    ensures
        wkb::coords_bytes(s) == path_bytes(pairs(s), false),
    decreases s.len(),
{
    if s.len() > 0 {
        lemma_written_double(s[0].x);
        lemma_written_double(s[0].y);
        lemma_written_path(s.skip(1));
        assert(pairs(s).skip(1) =~= pairs(s.skip(1)));
    }
}

proof fn lemma_written_ring(s: Seq<Coord>)
    ensures
        wkb::ring_bytes(s) == counted(pairs(s), false),
{
    lemma_written_word(s.len());
    lemma_written_path(s);
}

proof fn lemma_written_rings(s: Seq<Seq<Coord>>)
    ensures
        wkb::rings_bytes(s) == rings_bytes(all_pairs(s), false),
    decreases s.len(),
{
    if s.len() > 0 {
        lemma_written_ring(s[0]);
        lemma_written_rings(s.skip(1));
        assert(all_pairs(s).skip(1) =~= all_pairs(s.skip(1)));
    }
}

proof fn lemma_written_point(c: Coord)
    ensures
        wkb::point_bytes(c) == node_bytes(point_node(c)),
{
    lemma_written_head(1);
    lemma_written_double(c.x);
    lemma_written_double(c.y);
}

proof fn lemma_written_line(s: Seq<Coord>)
    ensures
        wkb::line_bytes(s) == node_bytes(line_node(s)),
{
    lemma_written_head(2);
    lemma_written_ring(s);
}

proof fn lemma_written_polygon(p: PolygonView)
    ensures
        wkb::polygon_bytes(p) == node_bytes(polygon_node(p)),
{
    let rings = seq![p.exterior] + p.holes;
    lemma_written_head(3);
    lemma_written_word(1 + p.holes.len());
    lemma_written_rings(rings);
    assert(all_pairs(rings).len() == 1 + p.holes.len());
}

proof fn lemma_written_points(s: Seq<Coord>)
    ensures
        wkb::points_bytes(s) == nodes_bytes(Seq::new(s.len(), |i: int| point_node(s[i]))),
    decreases s.len(),
{
    let nodes = Seq::new(s.len(), |i: int| point_node(s[i]));
    if s.len() > 0 {
        let t = s.skip(1);
        lemma_written_point(s[0]);
        lemma_written_points(t);
        assert(nodes.skip(1) =~= Seq::new(t.len(), |i: int| point_node(t[i])));
    }
}

proof fn lemma_written_lines(s: Seq<Seq<Coord>>)
    ensures
        wkb::lines_bytes(s) == nodes_bytes(Seq::new(s.len(), |i: int| line_node(s[i]))),
    decreases s.len(),
{
    let nodes = Seq::new(s.len(), |i: int| line_node(s[i]));
    if s.len() > 0 {
        let t = s.skip(1);
        lemma_written_line(s[0]);
        lemma_written_lines(t);
        assert(nodes.skip(1) =~= Seq::new(t.len(), |i: int| line_node(t[i])));
    }
}

proof fn lemma_written_polygons(s: Seq<PolygonView>)
    ensures
        wkb::polygons_bytes(s) == nodes_bytes(Seq::new(s.len(), |i: int| polygon_node(s[i]))),
    decreases s.len(),
{
    let nodes = Seq::new(s.len(), |i: int| polygon_node(s[i]));
    if s.len() > 0 {
        let t = s.skip(1);
        lemma_written_polygon(s[0]);
        lemma_written_polygons(t);
        assert(nodes.skip(1) =~= Seq::new(t.len(), |i: int| polygon_node(t[i])));
    }
}

proof fn lemma_written_all(s: Seq<GeometryView>)
    ensures
        wkb::wkbs_of(s) == nodes_bytes(nodes_of(s)),
        nodes_of(s).len() == s.len(),
    decreases s, 1int,
{
    if s.len() > 0 {
        assert(decreases_to!(s => s[0]));
        law_written_as_the_format_has_it(s[0]);
        lemma_written_all(s.skip(1));
        assert(nodes_of(s).skip(1) =~= nodes_of(s.skip(1)));
    }
}

/// What is written of a geometry are the bytes of its tree.
pub proof fn law_written_as_the_format_has_it(g: GeometryView)
    ensures
        wkb::wkb_of(g) == node_bytes(node_of(g)),
    decreases g, 0int,
{
    match g {
        GeometryView::Point(c) => {
            lemma_written_point(c);
        },
        GeometryView::LineString(s) => {
            lemma_written_line(s);
        },
        GeometryView::Polygon(p) => {
            lemma_written_polygon(p);
        },
        GeometryView::MultiPoint(s) => {
            lemma_written_head(4);
            lemma_written_word(s.len());
            lemma_written_points(s);
        },
        GeometryView::MultiLineString(s) => {
            lemma_written_head(5);
            lemma_written_word(s.len());
            lemma_written_lines(s);
        },
        GeometryView::MultiPolygon(s) => {
            lemma_written_head(6);
            lemma_written_word(s.len());
            lemma_written_polygons(s);
        },
        GeometryView::GeometryCollection(s) => {
            lemma_written_head(7);
            lemma_written_word(s.len());
            assert(decreases_to!(g => s));
            lemma_written_all(s);
        },
        GeometryView::Empty(t) => {
            lemma_written_head(wkb::type_code(t));
            lemma_written_word(0);
            lemma_written_double(NAN);
            assert(node_bytes(node_of(g)) =~= wkb::wkb_of(g));
        },
    }
}

} // verus!
