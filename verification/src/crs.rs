//! Coordinate reference systems, carried as the source states them.

use crate::text;
use crate::text::{
    chars_of, find, find_any, matches_at, parse_unsigned, push_dec, same, to_upper, trim_bounds,
};
use vstd::prelude::*;
use vstd::string::*;

verus! {

/// A coordinate reference system.
#[derive(Debug, PartialEq, Eq)]
#[non_exhaustive]
pub enum Crs {
    /// Not stated.
    Unknown,
    /// A code of the EPSG registry.
    Epsg(u32),
    /// Well-Known Text, as it stands.
    Wkt(String),
    /// PROJJSON, as it stands.
    Projjson(String),
}

/// A [`Crs`] with its text as a sequence.
pub enum CrsView {
    Unknown,
    Epsg(u32),
    Wkt(Seq<char>),
    Projjson(Seq<char>),
}

impl View for Crs {
    type V = CrsView;

    open spec fn view(&self) -> CrsView {
        match self {
            Crs::Unknown => CrsView::Unknown,
            Crs::Epsg(n) => CrsView::Epsg(*n),
            Crs::Wkt(s) => CrsView::Wkt(s@),
            Crs::Projjson(s) => CrsView::Projjson(s@),
        }
    }
}

impl Default for Crs {
    fn default() -> (r: Crs)
        ensures
            r@ == CrsView::Unknown,
    {
        Crs::Unknown
    }
}

impl Clone for Crs {
    fn clone(&self) -> (r: Crs)
        ensures
            r@ == self@,
    {
        match self {
            Crs::Unknown => Crs::Unknown,
            Crs::Epsg(n) => Crs::Epsg(*n),
            Crs::Wkt(s) => Crs::Wkt(s.clone()),
            Crs::Projjson(s) => Crs::Projjson(s.clone()),
        }
    }
}

/// How many nodes are open before `i`, and whether `i` stands inside a quoted
/// text.
pub open spec fn nesting(wkt: Seq<char>, i: int) -> (int, bool)
    decreases i,
{
    if i <= 0 {
        (0, false)
    } else {
        let (depth, quoted) = nesting(wkt, i - 1);
        let c = wkt[i - 1];
        if c == '"' {
            (depth, !quoted)
        } else if quoted {
            (depth, quoted)
        } else if c == '[' {
            (depth + 1, quoted)
        } else if c == ']' {
            (depth - 1, quoted)
        } else {
            (depth, quoted)
        }
    }
}

/// Whether a clause that begins at `i` belongs to the outermost node itself.
pub open spec fn on_outer_node(wkt: Seq<char>, i: int) -> bool {
    nesting(wkt, i) == (1int, false)
}

/// The last place before `n` where `opener` begins a clause of the outermost
/// node.
pub open spec fn outer_place(wkt: Seq<char>, opener: Seq<char>, n: int) -> Option<int>
    decreases n,
{
    if n <= 0 {
        None
    } else if text::occurs_at(wkt, opener, n - 1) && on_outer_node(wkt, n - 1) {
        Some(n - 1)
    } else {
        outer_place(wkt, opener, n - 1)
    }
}

/// The number behind the last `opener` on the outermost node, up to the next
/// quote, bracket, comma or space.
pub open spec fn clause_value(wkt: Seq<char>, opener: Seq<char>) -> Option<nat> {
    match outer_place(wkt, opener, wkt.len() as int) {
        None => None,
        Some(p) => {
            let start = p + opener.len();
            let end = match text::find_any_from(wkt, "\"], "@, start) {
                Some(e) => e,
                None => wkt.len() as int,
            };
            text::unsigned_of(wkt.subrange(start, end), u32::MAX as nat)
        },
    }
}

/// The code in the outermost node's last `ID["EPSG",..]` clause, else that in
/// its last `AUTHORITY["EPSG",".."]` clause.
pub open spec fn trailing_epsg(wkt: Seq<char>) -> Option<nat> {
    match clause_value(wkt, "ID[\"EPSG\","@) {
        Some(n) => Some(n),
        None => clause_value(wkt, "AUTHORITY[\"EPSG\",\""@),
    }
}

/// Where the text behind the first `opener` begins.
pub open spec fn behind(wkt: Seq<char>, opener: Seq<char>) -> Option<int> {
    match text::first_place(wkt, opener) {
        None => None,
        Some(p) => Some(p + opener.len()),
    }
}

/// The smaller of two places, where a missing one counts as the largest.
pub open spec fn earlier(a: Option<int>, b: Option<int>) -> Option<int> {
    match (a, b) {
        (Some(x), Some(y)) => Some(if y < x {
            y
        } else {
            x
        }),
        (Some(x), None) => Some(x),
        (None, _) => b,
    }
}

/// The quoted name behind the first opening of a reference system.
pub open spec fn outer_name(wkt: Seq<char>) -> Option<Seq<char>> {
    let start = earlier(
        earlier(
            earlier(behind(wkt, "PROJCS[\""@), behind(wkt, "PROJCRS[\""@)),
            behind(wkt, "GEOGCS[\""@),
        ),
        behind(wkt, "GEOGCRS[\""@),
    );
    match start {
        None => None,
        Some(a) => match text::find_any_from(wkt, "\""@, a) {
            None => None,
            Some(b) => Some(wkt.subrange(a, b)),
        },
    }
}

/// A name trimmed, with blanks for underscores and in upper case.
pub open spec fn normalized(name: Seq<char>) -> Seq<char> {
    let t = text::trimmed(name);
    Seq::new(
        t.len(),
        |i: int|
            text::upper(
                if t[i] == '_' {
                    ' '
                } else {
                    t[i]
                },
            ),
    )
}

/// The codes of the names that are seen most often.
pub open spec fn common_epsg(n: Seq<char>) -> Option<nat> {
    if n == "GDA2020"@ || n == "GCS GDA 2020"@ || n == "GDA 2020"@ {
        Some(7844)
    } else if n == "GDA94"@ || n == "GCS GDA 1994"@ || n == "GDA 1994"@ {
        Some(4283)
    } else if n == "WGS 84"@ || n == "WGS84"@ || n == "WGS 1984"@ || n == "GCS WGS 1984"@ {
        Some(4326)
    } else if n == "NAD83"@ || n == "NAD 83"@ || n == "GCS NORTH AMERICAN 1983"@ {
        Some(4269)
    } else if n == "NAD27"@ || n == "NAD 27"@ || n == "GCS NORTH AMERICAN 1927"@ {
        Some(4267)
    } else if n == "WGS 84 / PSEUDO-MERCATOR"@ || n == "WGS 1984 WEB MERCATOR AUXILIARY SPHERE"@
        || n == "WEB MERCATOR"@ {
        Some(3857)
    } else if n == "OSGB 1936 / BRITISH NATIONAL GRID"@ || n == "BRITISH NATIONAL GRID"@ || n
        == "OSGB36 / BRITISH NATIONAL GRID"@ {
        Some(27700)
    } else {
        None
    }
}

/// The code that a text's outer name is known by.
pub open spec fn epsg_of_name(wkt: Seq<char>) -> Option<nat> {
    match outer_name(wkt) {
        None => None,
        Some(n) => common_epsg(normalized(n)),
    }
}

/// The code of a reference system: its own, or that of a clause on the
/// outermost node of its text, or that of its name.
pub open spec fn epsg_of(c: CrsView) -> Option<nat> {
    match c {
        CrsView::Epsg(n) => Some(n as nat),
        CrsView::Wkt(s) => match trailing_epsg(s) {
            Some(n) => Some(n),
            None => epsg_of_name(s),
        },
        _ => None,
    }
}

/// PROJJSON that refers to a code. Every code is written with the one type.
pub open spec fn projjson_of(code: nat) -> Seq<char> {
    "{\"$schema\":\"https://proj.org/schemas/v0.7/projjson.schema.json\",\"type\":\"GeographicCRS\",\"id\":{\"authority\":\"EPSG\",\"code\":"@
        + text::dec(code) + "}}"@
}

/// Whether two optional numbers are the same.
pub open spec fn same_code(r: Option<u32>, s: Option<nat>) -> bool {
    match r {
        Some(n) => s == Some(n as nat),
        None => s is None,
    }
}

fn find_outer(wkt: &Vec<char>, opener: &str) -> (r: Option<usize>)
    ensures
        match r {
            Some(k) => outer_place(wkt@, opener@, wkt@.len() as int) == Some(k as int) && k
                + opener@.len() <= wkt@.len(),
            None => outer_place(wkt@, opener@, wkt@.len() as int) is None,
        },
{
    let p = chars_of(opener);
    let mut found: Option<usize> = None;
    let mut depth: i128 = 0;
    let mut quoted: bool = false;
    let mut i: usize = 0;
    while i < wkt.len()
        invariant
            i <= wkt@.len(),
            p@ == opener@,
            -(i as int) <= depth <= i,
            nesting(wkt@, i as int) == (depth as int, quoted),
            match found {
                Some(k) => outer_place(wkt@, opener@, i as int) == Some(k as int) && k
                    + opener@.len() <= wkt@.len(),
                None => outer_place(wkt@, opener@, i as int) is None,
            },
        decreases wkt@.len() - i,
    {
        if !quoted && depth == 1 && matches_at(wkt, &p, i) {
            found = Some(i);
        }
        let c: char = wkt[i];
        if c == '"' {
            quoted = !quoted;
        } else if !quoted && c == '[' {
            depth = depth + 1;
        } else if !quoted && c == ']' {
            depth = depth - 1;
        }
        i = i + 1;
    }
    found
}

fn find_clause_value(wkt: &Vec<char>, opener: &str) -> (r: Option<u32>)
    ensures
        same_code(r, clause_value(wkt@, opener@)),
{
    let width: usize = chars_of(opener).len();
    match find_outer(wkt, opener) {
        None => None,
        Some(p) => {
            let total: usize = wkt.len();
            let start: usize = p + width;
            let end: usize = match find_any(wkt, "\"], ", start) {
                Some(e) => e,
                None => total,
            };
            match parse_unsigned(wkt, start, end, 0xffff_ffff) {
                None => None,
                Some(n) => Some(n as u32),
            }
        },
    }
}

fn extract_trailing_epsg(wkt: &Vec<char>) -> (r: Option<u32>)
    ensures
        same_code(r, trailing_epsg(wkt@)),
{
    match find_clause_value(wkt, "ID[\"EPSG\",") {
        Some(n) => Some(n),
        None => find_clause_value(wkt, "AUTHORITY[\"EPSG\",\""),
    }
}

fn find_behind(wkt: &Vec<char>, opener: &str) -> (r: Option<usize>)
    ensures
        match r {
            Some(k) => behind(wkt@, opener@) == Some(k as int) && k <= wkt@.len(),
            None => behind(wkt@, opener@) is None,
        },
{
    let width: usize = chars_of(opener).len();
    match find(wkt, opener) {
        None => None,
        Some(p) => {
            let _total: usize = wkt.len();
            Some(p + width)
        },
    }
}

fn pick_earlier(a: Option<usize>, b: Option<usize>) -> (r: Option<usize>)
    ensures
        r == match (a, b) {
            (Some(x), Some(y)) => Some(
                if y < x {
                    y
                } else {
                    x
                },
            ),
            (Some(x), None) => Some(x),
            (None, _) => b,
        },
{
    match a {
        None => b,
        Some(x) => match b {
            None => a,
            Some(y) => if y < x {
                b
            } else {
                a
            },
        },
    }
}

fn extract_outer_crs_name(wkt: &Vec<char>) -> (r: Option<(usize, usize)>)
    ensures
        match r {
            Some((a, b)) => a <= b <= wkt@.len() && outer_name(wkt@) == Some(
                wkt@.subrange(a as int, b as int),
            ),
            None => outer_name(wkt@) is None,
        },
{
    let p1: Option<usize> = find_behind(wkt, "PROJCS[\"");
    let p2: Option<usize> = find_behind(wkt, "PROJCRS[\"");
    let p3: Option<usize> = find_behind(wkt, "GEOGCS[\"");
    let p4: Option<usize> = find_behind(wkt, "GEOGCRS[\"");
    match pick_earlier(pick_earlier(pick_earlier(p1, p2), p3), p4) {
        None => None,
        Some(a) => match find_any(wkt, "\"", a) {
            None => None,
            Some(b) => Some((a, b)),
        },
    }
}

fn epsg_for_common_name(wkt: &Vec<char>, from: usize, to: usize) -> (r: Option<u32>)
    requires
        from <= to <= wkt@.len(),
    ensures
        same_code(r, common_epsg(normalized(wkt@.subrange(from as int, to as int)))),
{
    let (a, b) = trim_bounds(wkt, from, to);
    let ghost t = wkt@.subrange(a as int, b as int);
    let mut s: String = String::new();
    let mut i: usize = a;
    while i < b
        invariant
            a <= i <= b <= wkt@.len(),
            t == wkt@.subrange(a as int, b as int),
            s@.len() == i - a,
            forall|k: int|
                0 <= k < i - a ==> #[trigger] s@[k] == text::upper(
                    if t[k] == '_' {
                        ' '
                    } else {
                        t[k]
                    },
                ),
        decreases b - i,
    {
        assert(t[i - a] == wkt@[i as int]);
        let c: char = if wkt[i] == '_' {
            ' '
        } else {
            wkt[i]
        };
        s.push(to_upper(c));
        i = i + 1;
    }
    assert(s@ =~= normalized(wkt@.subrange(from as int, to as int)));
    let n: &str = s.as_str();
    if same(n, "GDA2020") || same(n, "GCS GDA 2020") || same(n, "GDA 2020") {
        Some(7844)
    } else if same(n, "GDA94") || same(n, "GCS GDA 1994") || same(n, "GDA 1994") {
        Some(4283)
    } else if same(n, "WGS 84") || same(n, "WGS84") || same(n, "WGS 1984") || same(
        n,
        "GCS WGS 1984",
    ) {
        Some(4326)
    } else if same(n, "NAD83") || same(n, "NAD 83") || same(n, "GCS NORTH AMERICAN 1983") {
        Some(4269)
    } else if same(n, "NAD27") || same(n, "NAD 27") || same(n, "GCS NORTH AMERICAN 1927") {
        Some(4267)
    } else if same(n, "WGS 84 / PSEUDO-MERCATOR") || same(
        n,
        "WGS 1984 WEB MERCATOR AUXILIARY SPHERE",
    ) || same(n, "WEB MERCATOR") {
        Some(3857)
    } else if same(n, "OSGB 1936 / BRITISH NATIONAL GRID") || same(n, "BRITISH NATIONAL GRID")
        || same(n, "OSGB36 / BRITISH NATIONAL GRID") {
        Some(27700)
    } else {
        None
    }
}

fn epsg_from_wkt_name(wkt: &Vec<char>) -> (r: Option<u32>)
    ensures
        same_code(r, epsg_of_name(wkt@)),
{
    match extract_outer_crs_name(wkt) {
        None => None,
        Some((a, b)) => epsg_for_common_name(wkt, a, b),
    }
}

impl Crs {
    pub fn is_unknown(&self) -> (r: bool)
        ensures
            r == (self@ is Unknown),
    {
        matches!(self, Crs::Unknown)
    }

    /// The EPSG code, where it can be told without a database.
    pub fn epsg_code(&self) -> (r: Option<u32>)
        ensures
            same_code(r, epsg_of(self@)),
    {
        match self {
            Crs::Epsg(n) => Some(*n),
            Crs::Wkt(s) => {
                let wkt = chars_of(s.as_str());
                match extract_trailing_epsg(&wkt) {
                    Some(n) => Some(n),
                    None => epsg_from_wkt_name(&wkt),
                }
            },
            _ => None,
        }
    }

    /// Minimal PROJJSON that refers to the EPSG code, where there is one.
    pub fn to_projjson(&self) -> (r: Option<String>)
        ensures
            match r {
                Some(s) => epsg_of(self@) is Some && s@ == projjson_of(epsg_of(self@)->0),
                None => epsg_of(self@) is None,
            },
    {
        match self.epsg_code() {
            None => None,
            Some(n) => {
                let mut s: String =
                    "{\"$schema\":\"https://proj.org/schemas/v0.7/projjson.schema.json\",\"type\":\"GeographicCRS\",\"id\":{\"authority\":\"EPSG\",\"code\":".to_owned();
                push_dec(&mut s, n as u64);
                s.append("}}");
                Some(s)
            },
        }
    }
}

/// A text in which neither clause stands on the outermost node is known by its
/// name alone: the clauses of inner nodes, such as a datum's, do not count.
pub proof fn law_inner_clauses_do_not_count(wkt: Seq<char>)
    requires
        forall|i: int|
            #[trigger] on_outer_node(wkt, i) ==> !text::occurs_at(wkt, "ID[\"EPSG\","@, i)
                && !text::occurs_at(wkt, "AUTHORITY[\"EPSG\",\""@, i),
    ensures
        epsg_of(CrsView::Wkt(wkt)) == epsg_of_name(wkt),
{
    lemma_no_outer_place(wkt, "ID[\"EPSG\","@, wkt.len() as int);
    lemma_no_outer_place(wkt, "AUTHORITY[\"EPSG\",\""@, wkt.len() as int);
}

proof fn lemma_no_outer_place(wkt: Seq<char>, opener: Seq<char>, n: int)
    requires
        forall|i: int| #[trigger] on_outer_node(wkt, i) ==> !text::occurs_at(wkt, opener, i),
    ensures
        outer_place(wkt, opener, n) is None,
    decreases n,
{
    if n > 0 {
        lemma_no_outer_place(wkt, opener, n - 1);
    }
}

/// A code that the outermost node states in a clause wins over the code of its
/// name.
pub proof fn law_clause_wins_over_name(wkt: Seq<char>)
    requires
        trailing_epsg(wkt) is Some,
    ensures
        epsg_of(CrsView::Wkt(wkt)) == trailing_epsg(wkt),
{
}

} // verus!
