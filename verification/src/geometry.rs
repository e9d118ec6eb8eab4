//! Simple-features geometry with optional Z and M ordinates.
//!
//! The shape follows OGC Simple Features and WKB, so that writers are direct
//! walks of the tree. Ordinates are doubles held by their bits.

use crate::float_bits;
use crate::float_bits::{is_finite, is_less, is_same_number, is_same_optional};
use vstd::prelude::*;
use vstd::std_specs::cmp::PartialEqSpecImpl;

verus! {

/// One coordinate. `None` for `z` or `m` means that the geometry has no such
/// dimension. Coordinates are compared by their numbers, not by their bits.
#[derive(Debug, Clone, Copy)]
pub struct Coord {
    pub x: u64,
    pub y: u64,
    pub z: Option<u64>,
    pub m: Option<u64>,
}

impl PartialEq for Coord {
    fn eq(&self, other: &Coord) -> (r: bool) {
        is_same_number(self.x, other.x) && is_same_number(self.y, other.y) && is_same_optional(
            self.z,
            other.z,
        ) && is_same_optional(self.m, other.m)
    }
}

impl PartialEqSpecImpl for Coord {
    open spec fn obeys_eq_spec() -> bool {
        true
    }

    open spec fn eq_spec(&self, other: &Coord) -> bool {
        &&& float_bits::same_number(self.x, other.x)
        &&& float_bits::same_number(self.y, other.y)
        &&& float_bits::same_optional(self.z, other.z)
        &&& float_bits::same_optional(self.m, other.m)
    }
}

impl Coord {
    pub fn xy(x: u64, y: u64) -> (r: Coord)
        ensures
            r == (Coord { x, y, z: None, m: None }),
    {
        Coord { x, y, z: None, m: None }
    }

    pub fn xyz(x: u64, y: u64, z: u64) -> (r: Coord)
        ensures
            r == (Coord { x, y, z: Some(z), m: None }),
    {
        Coord { x, y, z: Some(z), m: None }
    }

    pub fn xym(x: u64, y: u64, m: u64) -> (r: Coord)
        ensures
            r == (Coord { x, y, z: None, m: Some(m) }),
    {
        Coord { x, y, z: None, m: Some(m) }
    }

    pub fn xyzm(x: u64, y: u64, z: u64, m: u64) -> (r: Coord)
        ensures
            r == (Coord { x, y, z: Some(z), m: Some(m) }),
    {
        Coord { x, y, z: Some(z), m: Some(m) }
    }

    pub fn has_z(&self) -> (r: bool)
        ensures
            r == (self.z is Some),
    {
        self.z.is_some()
    }

    pub fn has_m(&self) -> (r: bool)
        ensures
            r == (self.m is Some),
    {
        self.m.is_some()
    }
}

/// The coordinate without its Z and M ordinates.
pub open spec fn flat(c: Coord) -> Coord {
    Coord { x: c.x, y: c.y, z: None, m: None }
}

/// An ordered run of coordinates.
#[derive(Debug, PartialEq)]
pub struct LineString {
    pub coords: Vec<Coord>,
}

impl View for LineString {
    type V = Seq<Coord>;

    open spec fn view(&self) -> Seq<Coord> {
        self.coords@
    }
}

impl LineString {
    pub fn new(coords: Vec<Coord>) -> (r: LineString)
        ensures
            r@ == coords@,
    {
        LineString { coords }
    }

    pub fn is_empty(&self) -> (r: bool)
        ensures
            r == (self@.len() == 0),
    {
        self.coords.is_empty()
    }
}

impl Clone for LineString {
    fn clone(&self) -> (r: LineString)
        ensures
            r@ == self@,
    {
        LineString { coords: clone_coords(&self.coords) }
    }
}

impl Default for LineString {
    fn default() -> (r: LineString)
        ensures
            r@ == Seq::<Coord>::empty(),
    {
        LineString { coords: Vec::new() }
    }
}

/// A copy of a run of coordinates.
pub fn clone_coords(v: &Vec<Coord>) -> (r: Vec<Coord>)
    ensures
        r@ == v@,
{
    let mut r: Vec<Coord> = Vec::new();
    let mut i: usize = 0;
    while i < v.len()
        invariant
            i <= v@.len(),
            r@ =~= v@.take(i as int),
        decreases v@.len() - i,
    {
        r.push(v[i]);
        i = i + 1;
    }
    r
}

/// The views of a run of line strings.
pub open spec fn lines_view(s: Seq<LineString>) -> Seq<Seq<Coord>> {
    Seq::new(s.len(), |i: int| s[i]@)
}

/// A polygon: one exterior ring and any number of holes. The exterior is
/// counter-clockwise and the holes are clockwise.
#[derive(Debug, PartialEq)]
pub struct Polygon {
    pub exterior: LineString,
    pub holes: Vec<LineString>,
}

/// A [`Polygon`] as sequences.
#[verifier::ext_equal]
pub struct PolygonView {
    pub exterior: Seq<Coord>,
    pub holes: Seq<Seq<Coord>>,
}

impl View for Polygon {
    type V = PolygonView;

    open spec fn view(&self) -> PolygonView {
        PolygonView { exterior: self.exterior@, holes: lines_view(self.holes@) }
    }
}

impl Polygon {
    pub fn new(exterior: LineString, holes: Vec<LineString>) -> (r: Polygon)
        ensures
            r@ == (PolygonView { exterior: exterior@, holes: lines_view(holes@) }),
    {
        Polygon { exterior, holes }
    }

    pub fn is_empty(&self) -> (r: bool)
        ensures
            r == (self@.exterior.len() == 0),
    {
        self.exterior.is_empty()
    }
}

/// A copy of a run of line strings.
pub fn clone_lines(v: &Vec<LineString>) -> (r: Vec<LineString>)
    ensures
        lines_view(r@) == lines_view(v@),
{
    let mut r: Vec<LineString> = Vec::new();
    let mut i: usize = 0;
    while i < v.len()
        invariant
            i <= v@.len(),
            r@.len() == i,
            forall|k: int| 0 <= k < i ==> (#[trigger] r@[k])@ == v@[k]@,
        decreases v@.len() - i,
    {
        r.push(v[i].clone());
        i = i + 1;
    }
    proof {
        assert(lines_view(r@) =~= lines_view(v@));
    }
    r
}

impl Clone for Polygon {
    fn clone(&self) -> (r: Polygon)
        ensures
            r@ == self@,
    {
        Polygon { exterior: self.exterior.clone(), holes: clone_lines(&self.holes) }
    }
}

impl Default for Polygon {
    fn default() -> (r: Polygon)
        ensures
            r@ == (PolygonView { exterior: Seq::empty(), holes: Seq::empty() }),
    {
        let r = Polygon { exterior: LineString { coords: Vec::new() }, holes: Vec::new() };
        proof {
            assert(lines_view(r.holes@) =~= Seq::empty());
        }
        r
    }
}

/// The views of a run of polygons.
pub open spec fn polygons_view(s: Seq<Polygon>) -> Seq<PolygonView> {
    Seq::new(s.len(), |i: int| s[i]@)
}

/// A copy of a run of polygons.
pub fn clone_polygons(v: &Vec<Polygon>) -> (r: Vec<Polygon>)
    ensures
        polygons_view(r@) == polygons_view(v@),
{
    let mut r: Vec<Polygon> = Vec::new();
    let mut i: usize = 0;
    while i < v.len()
        invariant
            i <= v@.len(),
            r@.len() == i,
            forall|k: int| 0 <= k < i ==> (#[trigger] r@[k])@ == v@[k]@,
        decreases v@.len() - i,
    {
        r.push(v[i].clone());
        i = i + 1;
    }
    proof {
        assert(polygons_view(r@) =~= polygons_view(v@));
    }
    r
}

/// The kind of a geometry.
#[derive(Debug, Clone, Copy, PartialEq, Eq, Structural, Hash)]
pub enum GeometryType {
    Point,
    LineString,
    Polygon,
    MultiPoint,
    MultiLineString,
    MultiPolygon,
    GeometryCollection,
}

/// A geometry.
#[derive(Debug, PartialEq)]
pub enum Geometry {
    Point(Coord),
    LineString(LineString),
    Polygon(Polygon),
    MultiPoint(Vec<Coord>),
    MultiLineString(Vec<LineString>),
    MultiPolygon(Vec<Polygon>),
    GeometryCollection(Vec<Geometry>),
    /// A geometry without coordinates that still has a kind.
    Empty(GeometryType),
}

/// A [`Geometry`] as sequences.
#[verifier::ext_equal]
pub enum GeometryView {
    Point(Coord),
    LineString(Seq<Coord>),
    Polygon(PolygonView),
    MultiPoint(Seq<Coord>),
    MultiLineString(Seq<Seq<Coord>>),
    MultiPolygon(Seq<PolygonView>),
    GeometryCollection(Seq<GeometryView>),
    Empty(GeometryType),
}

/// The geometry with every vector as a sequence.
pub open spec fn geometry_view(g: Geometry) -> GeometryView
    decreases g,
{
    match g {
        Geometry::Point(c) => GeometryView::Point(c),
        Geometry::LineString(l) => GeometryView::LineString(l@),
        Geometry::Polygon(p) => GeometryView::Polygon(p@),
        Geometry::MultiPoint(v) => GeometryView::MultiPoint(v@),
        Geometry::MultiLineString(v) => GeometryView::MultiLineString(lines_view(v@)),
        Geometry::MultiPolygon(v) => GeometryView::MultiPolygon(polygons_view(v@)),
        Geometry::GeometryCollection(v) => GeometryView::GeometryCollection(
            Seq::new(
                v@.len(),
                |i: int|
                    if 0 <= i < v@.len() {
                        geometry_view(v@[i])
                    } else {
                        arbitrary()
                    },
            ),
        ),
        Geometry::Empty(t) => GeometryView::Empty(t),
    }
}

impl View for Geometry {
    type V = GeometryView;

    open spec fn view(&self) -> GeometryView {
        geometry_view(*self)
    }
}

/// The views of a run of geometries.
pub open spec fn geometries_view(s: Seq<Geometry>) -> Seq<GeometryView> {
    Seq::new(s.len(), |i: int| s[i]@)
}

/// What a collection shows.
pub proof fn lemma_collection_view(v: Vec<Geometry>)
    ensures
        Geometry::GeometryCollection(v)@ == GeometryView::GeometryCollection(geometries_view(v@)),
{
    let g = Geometry::GeometryCollection(v);
    assert(g@->GeometryCollection_0 =~= geometries_view(v@));
}

/// A copy of a run of geometries.
pub fn clone_geometries(v: &Vec<Geometry>) -> (r: Vec<Geometry>)
    ensures
        geometries_view(r@) == geometries_view(v@),
    decreases v,
{
    let mut r: Vec<Geometry> = Vec::new();
    let mut i: usize = 0;
    while i < v.len()
        invariant
            i <= v@.len(),
            r@.len() == i,
            forall|k: int| 0 <= k < i ==> (#[trigger] r@[k])@ == v@[k]@,
        decreases v@.len() - i,
    {
        r.push(v[i].clone());
        i = i + 1;
    }
    proof {
        assert(geometries_view(r@) =~= geometries_view(v@));
    }
    r
}

impl Clone for Geometry {
    fn clone(&self) -> (r: Geometry)
        ensures
            r@ == self@,
        decreases self,
    {
        match self {
            Geometry::Point(c) => Geometry::Point(*c),
            Geometry::LineString(l) => Geometry::LineString(l.clone()),
            Geometry::Polygon(p) => Geometry::Polygon(p.clone()),
            Geometry::MultiPoint(v) => Geometry::MultiPoint(clone_coords(v)),
            Geometry::MultiLineString(v) => Geometry::MultiLineString(clone_lines(v)),
            Geometry::MultiPolygon(v) => Geometry::MultiPolygon(clone_polygons(v)),
            Geometry::GeometryCollection(v) => {
                let r = clone_geometries(v);
                proof {
                    lemma_collection_view(*v);
                    lemma_collection_view(r);
                }
                Geometry::GeometryCollection(r)
            },
            Geometry::Empty(t) => Geometry::Empty(*t),
        }
    }
}

/// The runs of `s`, one after the other.
pub open spec fn concat_all<A>(s: Seq<Seq<A>>) -> Seq<A>
    decreases s.len(),
{
    if s.len() == 0 {
        Seq::empty()
    } else {
        concat_all(s.drop_last()) + s.last()
    }
}

/// The coordinates of a polygon: exterior first, then each hole.
pub open spec fn polygon_coords(p: PolygonView) -> Seq<Coord> {
    p.exterior + concat_all(p.holes)
}

/// The coordinates of a run of polygons.
pub open spec fn polygons_coords(s: Seq<PolygonView>) -> Seq<Coord> {
    concat_all(Seq::new(s.len(), |i: int| polygon_coords(s[i])))
}

/// Every coordinate of a geometry, in the order in which it is walked.
pub open spec fn coords_of(g: GeometryView) -> Seq<Coord>
    decreases g,
{
    match g {
        GeometryView::Empty(_) => Seq::empty(),
        GeometryView::Point(c) => seq![c],
        GeometryView::LineString(l) => l,
        GeometryView::Polygon(p) => polygon_coords(p),
        GeometryView::MultiPoint(v) => v,
        GeometryView::MultiLineString(v) => concat_all(v),
        GeometryView::MultiPolygon(v) => polygons_coords(v),
        GeometryView::GeometryCollection(v) => geometries_coords(v),
    }
}

/// The coordinates of a run of geometries.
pub open spec fn geometries_coords(s: Seq<GeometryView>) -> Seq<Coord>
    decreases s,
{
    if s.len() == 0 {
        Seq::empty()
    } else {
        geometries_coords(s.drop_last()) + coords_of(s.last())
    }
}

/// The kind of a geometry.
pub open spec fn kind_of(g: GeometryView) -> GeometryType {
    match g {
        GeometryView::Point(_) => GeometryType::Point,
        GeometryView::LineString(_) => GeometryType::LineString,
        GeometryView::Polygon(_) => GeometryType::Polygon,
        GeometryView::MultiPoint(_) => GeometryType::MultiPoint,
        GeometryView::MultiLineString(_) => GeometryType::MultiLineString,
        GeometryView::MultiPolygon(_) => GeometryType::MultiPolygon,
        GeometryView::GeometryCollection(_) => GeometryType::GeometryCollection,
        GeometryView::Empty(t) => t,
    }
}

/// Whether every line of the run is without coordinates.
pub open spec fn empty_lines(s: Seq<Seq<Coord>>) -> bool {
    forall|i: int| 0 <= i < s.len() ==> (#[trigger] s[i]).len() == 0
}

/// Whether every polygon of the run has an exterior without coordinates.
pub open spec fn empty_polygons(s: Seq<PolygonView>) -> bool {
    forall|i: int| 0 <= i < s.len() ==> (#[trigger] s[i]).exterior.len() == 0
}

/// Whether a geometry counts as empty: a polygon does when its exterior does,
/// a collection when all its members do.
pub open spec fn empty_geometry(g: GeometryView) -> bool
    decreases g,
{
    match g {
        GeometryView::Empty(_) => true,
        GeometryView::Point(_) => false,
        GeometryView::LineString(l) => l.len() == 0,
        GeometryView::Polygon(p) => p.exterior.len() == 0,
        GeometryView::MultiPoint(v) => v.len() == 0,
        GeometryView::MultiLineString(v) => empty_lines(v),
        GeometryView::MultiPolygon(v) => empty_polygons(v),
        GeometryView::GeometryCollection(v) => empty_geometries(v),
    }
}

/// Whether every geometry of the run counts as empty.
pub open spec fn empty_geometries(s: Seq<GeometryView>) -> bool
    decreases s,
{
    s.len() > 0 ==> empty_geometries(s.drop_last()) && empty_geometry(s.last())
}

/// Which optional ordinate is asked about.
pub enum Ordinate {
    Z,
    M,
}

/// Whether a coordinate carries the ordinate.
pub open spec fn carries(c: Coord, o: Ordinate) -> bool {
    match o {
        Ordinate::Z => c.z is Some,
        Ordinate::M => c.m is Some,
    }
}

/// Whether any coordinate of the run carries the ordinate.
pub open spec fn any_carries(s: Seq<Coord>, o: Ordinate) -> bool {
    exists|i: int| 0 <= i < s.len() && carries(#[trigger] s[i], o)
}

/// A box grown so that it covers `c`; coordinates that are not finite leave it
/// as it is. The box is `[xmin, ymin, xmax, ymax]`.
pub open spec fn widen(acc: Option<[u64; 4]>, c: Coord) -> Option<[u64; 4]> {
    if !float_bits::finite(c.x) || !float_bits::finite(c.y) {
        acc
    } else {
        match acc {
            None => Some([c.x, c.y, c.x, c.y]),
            Some(b) => Some(
                [
                    if float_bits::less(c.x, b[0]) {
                        c.x
                    } else {
                        b[0]
                    },
                    if float_bits::less(c.y, b[1]) {
                        c.y
                    } else {
                        b[1]
                    },
                    if float_bits::less(b[2], c.x) {
                        c.x
                    } else {
                        b[2]
                    },
                    if float_bits::less(b[3], c.y) {
                        c.y
                    } else {
                        b[3]
                    },
                ],
            ),
        }
    }
}

/// A box grown over a run of coordinates, first to last.
pub open spec fn widen_all(acc: Option<[u64; 4]>, s: Seq<Coord>) -> Option<[u64; 4]>
    decreases s.len(),
{
    if s.len() == 0 {
        acc
    } else {
        widen(widen_all(acc, s.drop_last()), s.last())
    }
}

/// The bounding box of a geometry.
pub open spec fn bbox_of(g: GeometryView) -> Option<[u64; 4]> {
    widen_all(None, coords_of(g))
}

/// Whether the box covers the coordinate.
pub open spec fn covers(b: [u64; 4], c: Coord) -> bool {
    &&& float_bits::at_most(b[0], c.x)
    &&& float_bits::at_most(b[1], c.y)
    &&& float_bits::at_most(c.x, b[2])
    &&& float_bits::at_most(c.y, b[3])
}

/// Whether both ordinates are finite.
pub open spec fn bounded(c: Coord) -> bool {
    float_bits::finite(c.x) && float_bits::finite(c.y)
}

/// Growing over two runs is growing over the first and then over the second.
pub proof fn lemma_widen_append(acc: Option<[u64; 4]>, a: Seq<Coord>, b: Seq<Coord>)
    ensures
        widen_all(acc, a + b) == widen_all(widen_all(acc, a), b),
    decreases b.len(),
{
    if b.len() == 0 {
        assert(a + b =~= a);
    } else {
        assert((a + b).drop_last() =~= a + b.drop_last());
        lemma_widen_append(acc, a, b.drop_last());
    }
}

/// Whether each side of the box is the ordinate of some finite coordinate of
/// the run.
pub open spec fn attained(b: [u64; 4], s: Seq<Coord>) -> bool {
    &&& exists|i: int| 0 <= i < s.len() && bounded(s[i]) && (#[trigger] s[i]).x == b[0]
    &&& exists|i: int| 0 <= i < s.len() && bounded(s[i]) && (#[trigger] s[i]).y == b[1]
    &&& exists|i: int| 0 <= i < s.len() && bounded(s[i]) && (#[trigger] s[i]).x == b[2]
    &&& exists|i: int| 0 <= i < s.len() && bounded(s[i]) && (#[trigger] s[i]).y == b[3]
}

/// What growing over a run yields.
proof fn lemma_widen_all(s: Seq<Coord>)
    ensures
        match widen_all(None, s) {
            None => forall|i: int| 0 <= i < s.len() ==> !bounded(#[trigger] s[i]),
            Some(b) => {
                &&& attained(b, s)
                &&& forall|i: int| 0 <= i < s.len() && bounded(#[trigger] s[i]) ==> covers(b, s[i])
            },
        },
    decreases s.len(),
{
    if s.len() > 0 {
        let t = s.drop_last();
        lemma_widen_all(t);
        let c = s.last();
        assert(s[s.len() - 1] == c);
        assert(forall|i: int| 0 <= i < t.len() ==> t[i] == s[i]);
        match widen_all(None, t) {
            None => {
                if bounded(c) {
                    let b = widen_all(None, s).unwrap();
                    assert(s[s.len() - 1].x == b[0]);
                }
            },
            Some(p) => {
                let b = widen_all(None, s).unwrap();
                let i0 = choose|i: int| 0 <= i < t.len() && bounded(t[i]) && (#[trigger] t[i]).x == p[0];
                let i1 = choose|i: int| 0 <= i < t.len() && bounded(t[i]) && (#[trigger] t[i]).y == p[1];
                let i2 = choose|i: int| 0 <= i < t.len() && bounded(t[i]) && (#[trigger] t[i]).x == p[2];
                let i3 = choose|i: int| 0 <= i < t.len() && bounded(t[i]) && (#[trigger] t[i]).y == p[3];
                assert(s[i0] == t[i0] && s[i1] == t[i1] && s[i2] == t[i2] && s[i3] == t[i3]);
                assert forall|i: int| 0 <= i < s.len() && bounded(#[trigger] s[i]) implies covers(
                    b,
                    s[i],
                ) by {
                    if i < t.len() {
                        assert(covers(p, t[i]));
                    }
                }
            },
        }
    }
}

/// A bounding box covers every finite coordinate of the geometry, each of its
/// sides is the ordinate of one of them, and it is missing exactly when there
/// are none.
pub proof fn law_bbox_is_tight(g: GeometryView)
    ensures
        bbox_of(g) is None <==> (forall|i: int|
            0 <= i < coords_of(g).len() ==> !bounded(#[trigger] coords_of(g)[i])),
        bbox_of(g) matches Some(b) ==> attained(b, coords_of(g)) && forall|i: int|
            0 <= i < coords_of(g).len() && bounded(#[trigger] coords_of(g)[i]) ==> covers(
                b,
                coords_of(g)[i],
            ),
{
    lemma_widen_all(coords_of(g));
}

/// An ordinate is carried by two runs together when it is by either.
pub proof fn lemma_carries_append(a: Seq<Coord>, b: Seq<Coord>, o: Ordinate)
    ensures
        any_carries(a + b, o) == (any_carries(a, o) || any_carries(b, o)),
{
    if any_carries(a, o) {
        let i = choose|i: int| 0 <= i < a.len() && carries(#[trigger] a[i], o);
        assert((a + b)[i] == a[i]);
    }
    if any_carries(b, o) {
        let i = choose|i: int| 0 <= i < b.len() && carries(#[trigger] b[i], o);
        assert((a + b)[a.len() + i] == b[i]);
    }
    if any_carries(a + b, o) {
        let i = choose|i: int| 0 <= i < (a + b).len() && carries(#[trigger] (a + b)[i], o);
        if i < a.len() {
            assert(a[i] == (a + b)[i]);
        } else {
            assert(b[i - a.len()] == (a + b)[i]);
        }
    }
}

fn coord_carries(c: &Coord, o: &Ordinate) -> (r: bool)
    ensures
        r == carries(*c, *o),
{
    match o {
        Ordinate::Z => c.has_z(),
        Ordinate::M => c.has_m(),
    }
}

fn coords_carry(v: &Vec<Coord>, o: &Ordinate) -> (r: bool)
    ensures
        r == any_carries(v@, *o),
{
    let mut i: usize = 0;
    while i < v.len()
        invariant
            i <= v@.len(),
            forall|k: int| 0 <= k < i ==> !carries(#[trigger] v@[k], *o),
        decreases v@.len() - i,
    {
        if coord_carries(&v[i], o) {
            return true;
        }
        i = i + 1;
    }
    false
}

fn lines_carry(v: &Vec<LineString>, o: &Ordinate) -> (r: bool)
    ensures
        r == any_carries(concat_all(lines_view(v@)), *o),
{
    let mut r: bool = false;
    let mut i: usize = 0;
    while i < v.len()
        invariant
            i <= v@.len(),
            r == any_carries(concat_all(lines_view(v@).take(i as int)), *o),
        decreases v@.len() - i,
    {
        proof {
            let done = lines_view(v@).take(i as int);
            let next = lines_view(v@).take(i + 1);
            assert(next.drop_last() =~= done);
            lemma_carries_append(concat_all(done), v@[i as int]@, *o);
        }
        r = r || coords_carry(&v[i].coords, o);
        i = i + 1;
    }
    proof {
        assert(lines_view(v@).take(v@.len() as int) =~= lines_view(v@));
    }
    r
}

fn polygon_carries(p: &Polygon, o: &Ordinate) -> (r: bool)
    ensures
        r == any_carries(polygon_coords(p@), *o),
{
    proof {
        lemma_carries_append(p@.exterior, concat_all(p@.holes), *o);
    }
    coords_carry(&p.exterior.coords, o) || lines_carry(&p.holes, o)
}

fn polygons_carry(v: &Vec<Polygon>, o: &Ordinate) -> (r: bool)
    ensures
        r == any_carries(polygons_coords(polygons_view(v@)), *o),
{
    let ghost runs = Seq::new(v@.len(), |i: int| polygon_coords(polygons_view(v@)[i]));
    let mut r: bool = false;
    let mut i: usize = 0;
    while i < v.len()
        invariant
            i <= v@.len(),
            runs == Seq::new(v@.len(), |i: int| polygon_coords(polygons_view(v@)[i])),
            r == any_carries(concat_all(runs.take(i as int)), *o),
        decreases v@.len() - i,
    {
        proof {
            let done = runs.take(i as int);
            let next = runs.take(i + 1);
            assert(next.drop_last() =~= done);
            lemma_carries_append(concat_all(done), runs[i as int], *o);
        }
        r = r || polygon_carries(&v[i], o);
        i = i + 1;
    }
    proof {
        assert(runs.take(v@.len() as int) =~= runs);
        assert(polygons_view(v@).len() == v@.len());
    }
    r
}

fn geometries_carry(v: &Vec<Geometry>, o: &Ordinate) -> (r: bool)
    ensures
        r == any_carries(geometries_coords(geometries_view(v@)), *o),
    decreases v,
{
    let mut r: bool = false;
    let mut i: usize = 0;
    while i < v.len()
        invariant
            i <= v@.len(),
            r == any_carries(geometries_coords(geometries_view(v@).take(i as int)), *o),
        decreases v@.len() - i,
    {
        proof {
            let done = geometries_view(v@).take(i as int);
            let next = geometries_view(v@).take(i + 1);
            assert(next.drop_last() =~= done);
            lemma_carries_append(geometries_coords(done), coords_of(v@[i as int]@), *o);
        }
        let here: bool = geometry_carries(&v[i], o);
        r = r || here;
        i = i + 1;
    }
    proof {
        assert(geometries_view(v@).take(v@.len() as int) =~= geometries_view(v@));
    }
    r
}

fn geometry_carries(g: &Geometry, o: &Ordinate) -> (r: bool)
    ensures
        r == any_carries(coords_of(g@), *o),
    decreases g,
{
    match g {
        Geometry::Empty(_) => false,
        Geometry::Point(c) => {
            proof {
                assert(seq![*c][0] == *c);
            }
            coord_carries(c, o)
        },
        Geometry::LineString(l) => coords_carry(&l.coords, o),
        Geometry::Polygon(p) => polygon_carries(p, o),
        Geometry::MultiPoint(v) => coords_carry(v, o),
        Geometry::MultiLineString(v) => lines_carry(v, o),
        Geometry::MultiPolygon(v) => polygons_carry(v, o),
        Geometry::GeometryCollection(v) => {
            proof {
                lemma_collection_view(*v);
            }
            geometries_carry(v, o)
        },
    }
}

/// Grows a box over one point.
pub fn widen_by(acc: Option<[u64; 4]>, x: u64, y: u64) -> (r: Option<[u64; 4]>)
    ensures
        r == widen(acc, Coord { x, y, z: None, m: None }),
{
    if !is_finite(x) || !is_finite(y) {
        return acc;
    }
    match acc {
        None => Some([x, y, x, y]),
        Some(b) => {
            let xmin: u64 = if is_less(x, b[0]) {
                x
            } else {
                b[0]
            };
            let ymin: u64 = if is_less(y, b[1]) {
                y
            } else {
                b[1]
            };
            let xmax: u64 = if is_less(b[2], x) {
                x
            } else {
                b[2]
            };
            let ymax: u64 = if is_less(b[3], y) {
                y
            } else {
                b[3]
            };
            Some([xmin, ymin, xmax, ymax])
        },
    }
}

fn widen_coords(v: &Vec<Coord>, acc: Option<[u64; 4]>) -> (r: Option<[u64; 4]>)
    ensures
        r == widen_all(acc, v@),
{
    let mut r: Option<[u64; 4]> = acc;
    let mut i: usize = 0;
    while i < v.len()
        invariant
            i <= v@.len(),
            r == widen_all(acc, v@.take(i as int)),
        decreases v@.len() - i,
    {
        proof {
            assert(v@.take(i + 1).drop_last() =~= v@.take(i as int));
        }
        r = widen_by(r, v[i].x, v[i].y);
        i = i + 1;
    }
    proof {
        assert(v@.take(v@.len() as int) =~= v@);
    }
    r
}

fn widen_lines(v: &Vec<LineString>, acc: Option<[u64; 4]>) -> (r: Option<[u64; 4]>)
    ensures
        r == widen_all(acc, concat_all(lines_view(v@))),
{
    let mut r: Option<[u64; 4]> = acc;
    let mut i: usize = 0;
    while i < v.len()
        invariant
            i <= v@.len(),
            r == widen_all(acc, concat_all(lines_view(v@).take(i as int))),
        decreases v@.len() - i,
    {
        proof {
            let done = lines_view(v@).take(i as int);
            let next = lines_view(v@).take(i + 1);
            assert(next.drop_last() =~= done);
            lemma_widen_append(acc, concat_all(done), v@[i as int]@);
        }
        r = widen_coords(&v[i].coords, r);
        i = i + 1;
    }
    proof {
        assert(lines_view(v@).take(v@.len() as int) =~= lines_view(v@));
    }
    r
}

fn widen_polygon(p: &Polygon, acc: Option<[u64; 4]>) -> (r: Option<[u64; 4]>)
    ensures
        r == widen_all(acc, polygon_coords(p@)),
{
    proof {
        lemma_widen_append(acc, p@.exterior, concat_all(p@.holes));
    }
    let outer: Option<[u64; 4]> = widen_coords(&p.exterior.coords, acc);
    widen_lines(&p.holes, outer)
}

fn widen_polygons(v: &Vec<Polygon>, acc: Option<[u64; 4]>) -> (r: Option<[u64; 4]>)
    ensures
        r == widen_all(acc, polygons_coords(polygons_view(v@))),
{
    let ghost runs = Seq::new(v@.len(), |i: int| polygon_coords(polygons_view(v@)[i]));
    let mut r: Option<[u64; 4]> = acc;
    let mut i: usize = 0;
    while i < v.len()
        invariant
            i <= v@.len(),
            runs == Seq::new(v@.len(), |i: int| polygon_coords(polygons_view(v@)[i])),
            r == widen_all(acc, concat_all(runs.take(i as int))),
        decreases v@.len() - i,
    {
        proof {
            let done = runs.take(i as int);
            let next = runs.take(i + 1);
            assert(next.drop_last() =~= done);
            lemma_widen_append(acc, concat_all(done), runs[i as int]);
        }
        r = widen_polygon(&v[i], r);
        i = i + 1;
    }
    proof {
        assert(runs.take(v@.len() as int) =~= runs);
        assert(polygons_view(v@).len() == v@.len());
    }
    r
}

fn widen_geometries(v: &Vec<Geometry>, acc: Option<[u64; 4]>) -> (r: Option<[u64; 4]>)
    ensures
        r == widen_all(acc, geometries_coords(geometries_view(v@))),
    decreases v,
{
    let mut r: Option<[u64; 4]> = acc;
    let mut i: usize = 0;
    while i < v.len()
        invariant
            i <= v@.len(),
            r == widen_all(acc, geometries_coords(geometries_view(v@).take(i as int))),
        decreases v@.len() - i,
    {
        proof {
            let done = geometries_view(v@).take(i as int);
            let next = geometries_view(v@).take(i + 1);
            assert(next.drop_last() =~= done);
            lemma_widen_append(acc, geometries_coords(done), coords_of(v@[i as int]@));
        }
        r = widen_geometry(&v[i], r);
        i = i + 1;
    }
    proof {
        assert(geometries_view(v@).take(v@.len() as int) =~= geometries_view(v@));
    }
    r
}

fn widen_geometry(g: &Geometry, acc: Option<[u64; 4]>) -> (r: Option<[u64; 4]>)
    ensures
        r == widen_all(acc, coords_of(g@)),
    decreases g,
{
    match g {
        Geometry::Empty(_) => acc,
        Geometry::Point(c) => {
            proof {
                assert(seq![*c].drop_last() =~= Seq::<Coord>::empty());
                reveal_with_fuel(widen_all, 2);
            }
            widen_by(acc, c.x, c.y)
        },
        Geometry::LineString(l) => widen_coords(&l.coords, acc),
        Geometry::Polygon(p) => widen_polygon(p, acc),
        Geometry::MultiPoint(v) => widen_coords(v, acc),
        Geometry::MultiLineString(v) => widen_lines(v, acc),
        Geometry::MultiPolygon(v) => widen_polygons(v, acc),
        Geometry::GeometryCollection(v) => {
            proof {
                lemma_collection_view(*v);
            }
            widen_geometries(v, acc)
        },
    }
}

fn lines_all_empty(v: &Vec<LineString>) -> (r: bool)
    ensures
        r == empty_lines(lines_view(v@)),
{
    let mut i: usize = 0;
    while i < v.len()
        invariant
            i <= v@.len(),
            forall|k: int| 0 <= k < i ==> (#[trigger] lines_view(v@)[k]).len() == 0,
        decreases v@.len() - i,
    {
        if !v[i].is_empty() {
            proof {
                assert(lines_view(v@)[i as int].len() != 0);
            }
            return false;
        }
        i = i + 1;
    }
    true
}

fn polygons_all_empty(v: &Vec<Polygon>) -> (r: bool)
    ensures
        r == empty_polygons(polygons_view(v@)),
{
    let mut i: usize = 0;
    while i < v.len()
        invariant
            i <= v@.len(),
            forall|k: int| 0 <= k < i ==> (#[trigger] polygons_view(v@)[k]).exterior.len() == 0,
        decreases v@.len() - i,
    {
        if !v[i].is_empty() {
            proof {
                assert(polygons_view(v@)[i as int].exterior.len() != 0);
            }
            return false;
        }
        i = i + 1;
    }
    true
}

fn geometries_all_empty(v: &Vec<Geometry>) -> (r: bool)
    ensures
        r == empty_geometries(geometries_view(v@)),
    decreases v,
{
    let mut r: bool = true;
    let mut i: usize = 0;
    while i < v.len()
        invariant
            i <= v@.len(),
            r == empty_geometries(geometries_view(v@).take(i as int)),
        decreases v@.len() - i,
    {
        proof {
            let done = geometries_view(v@).take(i as int);
            let next = geometries_view(v@).take(i + 1);
            assert(next.drop_last() =~= done);
        }
        let here: bool = v[i].is_empty();
        r = r && here;
        i = i + 1;
    }
    proof {
        assert(geometries_view(v@).take(v@.len() as int) =~= geometries_view(v@));
    }
    r
}

impl Geometry {
    pub fn type_of(&self) -> (r: GeometryType)
        ensures
            r == kind_of(self@),
    {
        match self {
            Geometry::Point(_) => GeometryType::Point,
            Geometry::LineString(_) => GeometryType::LineString,
            Geometry::Polygon(_) => GeometryType::Polygon,
            Geometry::MultiPoint(_) => GeometryType::MultiPoint,
            Geometry::MultiLineString(_) => GeometryType::MultiLineString,
            Geometry::MultiPolygon(_) => GeometryType::MultiPolygon,
            Geometry::GeometryCollection(_) => GeometryType::GeometryCollection,
            Geometry::Empty(t) => *t,
        }
    }

    pub fn is_empty(&self) -> (r: bool)
        ensures
            r == empty_geometry(self@),
        decreases self,
    {
        match self {
            Geometry::Empty(_) => true,
            Geometry::Point(_) => false,
            Geometry::LineString(l) => l.is_empty(),
            Geometry::Polygon(p) => p.is_empty(),
            Geometry::MultiPoint(v) => v.is_empty(),
            Geometry::MultiLineString(v) => lines_all_empty(v),
            Geometry::MultiPolygon(v) => polygons_all_empty(v),
            Geometry::GeometryCollection(v) => {
                proof {
                    lemma_collection_view(*v);
                }
                geometries_all_empty(v)
            },
        }
    }

    /// Whether any coordinate carries a Z ordinate.
    pub fn has_z(&self) -> (r: bool)
        ensures
            r == (exists|i: int|
                0 <= i < coords_of(self@).len() && carries(
                    #[trigger] coords_of(self@)[i],
                    Ordinate::Z,
                )),
    {
        geometry_carries(self, &Ordinate::Z)
    }

    /// Whether any coordinate carries an M ordinate.
    pub fn has_m(&self) -> (r: bool)
        ensures
            r == (exists|i: int|
                0 <= i < coords_of(self@).len() && carries(
                    #[trigger] coords_of(self@)[i],
                    Ordinate::M,
                )),
    {
        geometry_carries(self, &Ordinate::M)
    }

    /// The box `[xmin, ymin, xmax, ymax]` around the finite coordinates, if
    /// there are any.
    pub fn bbox(&self) -> (r: Option<[u64; 4]>)
        ensures
            r == bbox_of(self@),
    {
        widen_geometry(self, None)
    }
}

} // verus!
