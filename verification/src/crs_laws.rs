//! What the text of a reference system looks like, and that its code is found.

use crate::crs;
use crate::crs::CrsView;
use crate::text;
use crate::text_laws;
use vstd::prelude::*;
use vstd::string::*;

verus! {

/// A piece of Well-Known Text: plain characters, a quoted text, or what stands
/// between the brackets of a node.
pub enum Piece {
    Plain(Seq<char>),
    Quoted(Seq<char>),
    Node(Seq<Piece>),
}

/// Whether plain characters are plain, and a quoted text ends where it should.
pub open spec fn tidy(p: Piece) -> bool
    decreases p,
{
    match p {
        Piece::Plain(s) => plain(s),
        Piece::Quoted(s) => !s.contains('"'),
        Piece::Node(ps) => all_tidy(ps),
    }
}

pub open spec fn plain(s: Seq<char>) -> bool {
    !s.contains('"') && !s.contains('[') && !s.contains(']')
}

pub open spec fn all_tidy(ps: Seq<Piece>) -> bool
    decreases ps,
{
    ps.len() > 0 ==> tidy(ps[0]) && all_tidy(ps.skip(1))
}

/// The text of a piece.
pub open spec fn render(p: Piece) -> Seq<char>
    decreases p,
{
    match p {
        Piece::Plain(s) => s,
        Piece::Quoted(s) => seq!['"'] + (s + seq!['"']),
        Piece::Node(ps) => seq!['['] + (render_all(ps) + seq![']']),
    }
}

pub open spec fn render_all(ps: Seq<Piece>) -> Seq<char>
    decreases ps,
{
    if ps.len() == 0 {
        Seq::empty()
    } else {
        render(ps[0]) + render_all(ps.skip(1))
    }
}

proof fn lemma_split(t: Seq<char>, pos: int, a: Seq<char>, b: Seq<char>)
    requires
        text::occurs_at(t, a + b, pos),
    ensures
        text::occurs_at(t, a, pos),
        text::occurs_at(t, b, pos + a.len()),
{
    let whole = t.subrange(pos, pos + (a + b).len());
    assert(t.subrange(pos, pos + a.len()) =~= whole.take(a.len() as int));
    assert((a + b).take(a.len() as int) =~= a);
    assert(t.subrange(pos + a.len(), pos + a.len() + b.len()) =~= whole.skip(a.len() as int));
    assert((a + b).skip(a.len() as int) =~= b);
}

proof fn lemma_char(t: Seq<char>, s: Seq<char>, pos: int, i: int)
    requires
        text::occurs_at(t, s, pos),
        0 <= i < s.len(),
    ensures
        t[pos + i] == s[i],
{
    assert(t.subrange(pos, pos + s.len())[i] == s[i]);
}

/// Plain characters change nothing, nor does what stands in quotes.
proof fn lemma_flat(t: Seq<char>, pos: int, s: Seq<char>, k: int, depth: int, quoted: bool)
    requires
        text::occurs_at(t, s, pos),
        0 <= k <= s.len(),
        !s.contains('"'),
        quoted || plain(s),
        crs::nesting(t, pos) == (depth, quoted),
    ensures
        crs::nesting(t, pos + k) == (depth, quoted),
    decreases k,
{
    if k > 0 {
        lemma_flat(t, pos, s, k - 1, depth, quoted);
        lemma_char(t, s, pos, k - 1);
        assert(s.contains(s[k - 1]));
    }
}

proof fn lemma_piece(t: Seq<char>, pos: int, p: Piece, depth: int)
    requires
        text::occurs_at(t, render(p), pos),
        tidy(p),
        crs::nesting(t, pos) == (depth, false),
    ensures
        crs::nesting(t, pos + render(p).len()) == (depth, false),
    decreases p, 0int,
{
    match p {
        Piece::Plain(s) => {
            lemma_flat(t, pos, s, s.len() as int, depth, false);
        },
        Piece::Quoted(s) => {
            lemma_split(t, pos, seq!['"'], s + seq!['"']);
            lemma_split(t, pos + 1, s, seq!['"']);
            lemma_char(t, seq!['"'], pos, 0);
            lemma_char(t, seq!['"'], pos + 1 + s.len(), 0);
            assert(crs::nesting(t, pos + 1) == (depth, true));
            lemma_flat(t, pos + 1, s, s.len() as int, depth, true);
            assert(crs::nesting(t, pos + 1 + s.len() + 1) == (depth, false));
        },
        Piece::Node(ps) => {
            let inner = render_all(ps);
            lemma_split(t, pos, seq!['['], inner + seq![']']);
            lemma_split(t, pos + 1, inner, seq![']']);
            lemma_char(t, seq!['['], pos, 0);
            lemma_char(t, seq![']'], pos + 1 + inner.len(), 0);
            assert(crs::nesting(t, pos + 1) == (depth + 1, false));
            assert(decreases_to!(p => ps));
            lemma_pieces(t, pos + 1, ps, depth + 1);
            assert(crs::nesting(t, pos + 1 + inner.len() + 1) == (depth, false));
        },
    }
}

proof fn lemma_pieces(t: Seq<char>, pos: int, ps: Seq<Piece>, depth: int)
    requires
        text::occurs_at(t, render_all(ps), pos),
        all_tidy(ps),
        crs::nesting(t, pos) == (depth, false),
    ensures
        crs::nesting(t, pos + render_all(ps).len()) == (depth, false),
    decreases ps, 1int,
{
    if ps.len() > 0 {
        lemma_split(t, pos, render(ps[0]), render_all(ps.skip(1)));
        assert(decreases_to!(ps => ps[0]));
        lemma_piece(t, pos, ps[0], depth);
        lemma_pieces(t, pos + render(ps[0]).len(), ps.skip(1), depth);
    }
}

proof fn lemma_last_place(t: Seq<char>, opener: Seq<char>, p: int, n: int)
    requires
        0 <= p < n,
        text::occurs_at(t, opener, p),
        crs::on_outer_node(t, p),
        forall|q: int| p < q < n ==> !#[trigger] text::occurs_at(t, opener, q),
    ensures
        crs::outer_place(t, opener, n) == Some(p),
    decreases n,
{
    if n - 1 != p {
        assert(!text::occurs_at(t, opener, n - 1));
        lemma_last_place(t, opener, p, n - 1);
    }
}

proof fn lemma_no_place(t: Seq<char>, opener: Seq<char>, n: int)
    requires
        forall|q: int| 0 <= q ==> !#[trigger] text::occurs_at(t, opener, q),
    ensures
        crs::outer_place(t, opener, n) is None,
    decreases n,
{
    if n > 0 {
        assert(!text::occurs_at(t, opener, n - 1));
        lemma_no_place(t, opener, n - 1);
    }
}

/// The number behind the last clause of the outermost node, whatever its opener
/// is, as long as the opener's first character comes in it only once.
#[verifier::rlimit(30)]
proof fn lemma_clause(
    kw: Seq<char>,
    ps: Seq<Piece>,
    opener: Seq<char>,
    n: nat,
    end: Seq<char>,
    wkt: Seq<char>,
)
    requires
        plain(kw),
        all_tidy(ps),
        n <= u32::MAX,
        opener.len() > 0,
        forall|i: int| 0 < i < opener.len() ==> #[trigger] opener[i] != opener[0],
        !('0' <= opener[0] && opener[0] <= '9'),
        end.len() > 0,
        "\"], "@.contains(end[0]),
        !end.contains(opener[0]),
        wkt == kw + (seq!['['] + (render_all(ps) + (seq![','] + (opener + (text::dec(n) + end))))),
    ensures
        crs::clause_value(wkt, opener) == Some(n),
{
    let body = render_all(ps);
    let t5 = text::dec(n) + end;
    let t4 = opener + t5;
    let t3 = seq![','] + t4;
    let t2 = body + t3;
    let t1 = seq!['['] + t2;
    assert(wkt.subrange(0, (kw + t1).len() as int) =~= wkt);
    lemma_split(wkt, 0, kw, t1);
    let p1 = kw.len() as int;
    lemma_split(wkt, p1, seq!['['], t2);
    let p2 = p1 + 1;
    lemma_split(wkt, p2, body, t3);
    let p3 = p2 + body.len();
    lemma_split(wkt, p3, seq![','], t4);
    let p = p3 + 1;
    lemma_split(wkt, p, opener, t5);
    let q = p + opener.len();
    lemma_split(wkt, q, text::dec(n), end);
    let e = q + text::dec(n).len();
    assert(crs::nesting(wkt, 0) == (0int, false));
    lemma_flat(wkt, 0, kw, kw.len() as int, 0, false);
    lemma_char(wkt, seq!['['], p1, 0);
    assert(crs::nesting(wkt, p2) == (1int, false));
    lemma_pieces(wkt, p2, ps, 1);
    lemma_char(wkt, seq![','], p3, 0);
    assert(crs::nesting(wkt, p) == (1int, false));
    text_laws::law_decimal_reads_back(n);
    let digits = text::dec(n);
    assert forall|r: int| p < r < wkt.len() implies !#[trigger] text::occurs_at(
        wkt,
        opener,
        r,
    ) by {
        if text::occurs_at(wkt, opener, r) {
            lemma_char(wkt, opener, r, 0);
            if r < q {
                lemma_char(wkt, opener, p, r - p);
                assert(opener[r - p] != opener[0]);
            } else if r < e {
                lemma_char(wkt, digits, q, r - q);
                assert('0' <= digits[r - q] && digits[r - q] <= '9');
            } else {
                lemma_char(wkt, end, e, r - e);
                assert(end.contains(end[r - e]));
            }
        }
    }
    lemma_last_place(wkt, opener, p, wkt.len() as int);
    let set = "\"], "@;
    reveal_strlit("\"], ");
    text_laws::law_first_of_the_set(wkt, set, q);
    lemma_char(wkt, end, e, 0);
    assert forall|j: int| q <= j < e implies !set.contains(#[trigger] wkt[j]) by {
        lemma_char(wkt, digits, q, j - q);
        assert('0' <= digits[j - q] && digits[j - q] <= '9');
        if set.contains(wkt[j]) {
            let k = choose|k: int| 0 <= k < set.len() && set[k] == wkt[j];
            assert(k == 0 || k == 1 || k == 2 || k == 3);
        }
    }
    assert(set.contains(wkt[e]));
    match text::find_any_from(wkt, set, q) {
        Some(k) => {
            if k < e {
                assert(!set.contains(wkt[k]));
            }
            if k > e {
                assert(!set.contains(wkt[e]));
            }
        },
        None => {
            assert(!set.contains(wkt[e]));
        },
    }
    assert(wkt.subrange(q, e) =~= digits);
    text_laws::law_unsigned_numbers(digits, u32::MAX as nat);
}

/// The code in the last clause `ID` of the outermost node is that of the
/// reference system, whatever clauses stand in the nodes inside it.
pub proof fn law_code_of_the_outermost_node(kw: Seq<char>, ps: Seq<Piece>, n: u32)
    requires
        plain(kw),
        all_tidy(ps),
    ensures
        crs::epsg_of(
            CrsView::Wkt(
                kw + (seq!['['] + (render_all(ps) + (seq![','] + ("ID[\"EPSG\","@ + (text::dec(
                    n as nat,
                ) + "]]"@))))),
            ),
        ) == Some(n as nat),
{
    reveal_strlit("ID[\"EPSG\",");
    reveal_strlit("]]");
    reveal_strlit("\"], ");
    assert("\"], "@[1] == ']');
    let wkt = kw + (seq!['['] + (render_all(ps) + (seq![','] + ("ID[\"EPSG\","@ + (text::dec(
        n as nat,
    ) + "]]"@)))));
    lemma_clause(kw, ps, "ID[\"EPSG\","@, n as nat, "]]"@, wkt);
}

/// Where there is no clause `ID`, the code is that in the last clause
/// `AUTHORITY` of the outermost node.
pub proof fn law_authority_of_the_outermost_node(
    kw: Seq<char>,
    ps: Seq<Piece>,
    n: u32,
    wkt: Seq<char>,
)
    requires
        plain(kw),
        all_tidy(ps),
        wkt == kw + (seq!['['] + (render_all(ps) + (seq![','] + ("AUTHORITY[\"EPSG\",\""@ + (
        text::dec(n as nat) + "\"]]"@))))),
        forall|q: int| !#[trigger] text::occurs_at(wkt, "ID[\"EPSG\","@, q),
    ensures
        crs::epsg_of(CrsView::Wkt(wkt)) == Some(n as nat),
{
    reveal_strlit("AUTHORITY[\"EPSG\",\"");
    reveal_strlit("\"]]");
    reveal_strlit("\"], ");
    assert("\"], "@[0] == '"');
    lemma_no_place(wkt, "ID[\"EPSG\","@, wkt.len() as int);
    lemma_clause(kw, ps, "AUTHORITY[\"EPSG\",\""@, n as nat, "\"]]"@, wkt);
}

// ---------------------------------------------------------------------------
// Names
// ---------------------------------------------------------------------------
/// The names that a code is known by.
pub open spec fn known_by(code: nat) -> Set<Seq<char>> {
    if code == 7844 {
        set!["GDA2020"@, "GDA 2020"@, "GCS GDA 2020"@]
    } else if code == 4283 {
        set!["GDA94"@, "GDA 1994"@, "GCS GDA 1994"@]
    } else if code == 4326 {
        set!["WGS 84"@, "WGS84"@, "WGS 1984"@, "GCS WGS 1984"@]
    } else if code == 4269 {
        set!["NAD83"@, "NAD 83"@, "GCS NORTH AMERICAN 1983"@]
    } else if code == 4267 {
        set!["NAD27"@, "NAD 27"@, "GCS NORTH AMERICAN 1927"@]
    } else if code == 3857 {
        set!["WGS 84 / PSEUDO-MERCATOR"@, "WGS 1984 WEB MERCATOR AUXILIARY SPHERE"@, "WEB MERCATOR"@]
    } else if code == 27700 {
        set![
            "OSGB 1936 / BRITISH NATIONAL GRID"@,
            "OSGB36 / BRITISH NATIONAL GRID"@,
            "BRITISH NATIONAL GRID"@,
        ]
    } else {
        set![]
    }
}

/// A code that is found by a name is known by it, and a name that no code is
/// known by leads to none.
pub proof fn law_names_of_codes(name: Seq<char>)
    ensures
        match crs::common_epsg(name) {
            Some(code) => known_by(code).contains(name),
            None => forall|code: nat| !(#[trigger] known_by(code)).contains(name),
        },
{
}

/// The keyword that begins the text of a reference system.
pub open spec fn keyword(kw: Seq<char>) -> bool {
    kw == "PROJCS[\""@ || kw == "PROJCRS[\""@ || kw == "GEOGCS[\""@ || kw == "GEOGCRS[\""@
}

proof fn lemma_begins(t: Seq<char>, a: Seq<char>, b: Seq<char>)
    requires
        keyword(a),
        keyword(b),
        text::occurs_at(t, a, 0),
    ensures
        a == b ==> crs::behind(t, b) == Some(a.len() as int),
        a != b ==> (crs::behind(t, b) matches Some(k) ==> k >= a.len()),
        8 <= a.len() <= 9,
{
    reveal_strlit("PROJCS[\"");
    reveal_strlit("PROJCRS[\"");
    reveal_strlit("GEOGCS[\"");
    reveal_strlit("GEOGCRS[\"");
    text::law_first_place_is_first(t, b, 0);
    if a != b && text::occurs_at(t, b, 0) {
        lemma_char(t, a, 0, 0);
        lemma_char(t, b, 0, 0);
        lemma_char(t, a, 0, 5);
        lemma_char(t, b, 0, 5);
    }
    assert(text::find_from(t, b, 0) == text::first_place(t, b));
}

/// Where no clause gives a code, it is looked up by the name: the first quoted
/// text, without blanks at its ends, with blanks for underscores and in large
/// letters.
pub proof fn law_code_of_the_name(kw: Seq<char>, name: Seq<char>, rest: Seq<char>)
    requires
        keyword(kw),
        !name.contains('"'),
        forall|q: int|
            !#[trigger] text::occurs_at(kw + (name + (seq!['"'] + rest)), "ID[\"EPSG\","@, q),
        forall|q: int|
            !#[trigger] text::occurs_at(
                kw + (name + (seq!['"'] + rest)),
                "AUTHORITY[\"EPSG\",\""@,
                q,
            ),
    ensures
        crs::epsg_of(CrsView::Wkt(kw + (name + (seq!['"'] + rest)))) == crs::common_epsg(
            crs::normalized(name),
        ),
{
    let t = kw + (name + (seq!['"'] + rest));
    lemma_no_place(t, "ID[\"EPSG\","@, t.len() as int);
    lemma_no_place(t, "AUTHORITY[\"EPSG\",\""@, t.len() as int);
    assert(t.subrange(0, t.len() as int) =~= t);
    lemma_split(t, 0, kw, name + (seq!['"'] + rest));
    lemma_begins(t, kw, "PROJCS[\""@);
    lemma_begins(t, kw, "PROJCRS[\""@);
    lemma_begins(t, kw, "GEOGCS[\""@);
    lemma_begins(t, kw, "GEOGCRS[\""@);
    let a = kw.len() as int;
    let b = a + name.len();
    reveal_strlit("\"");
    let set = "\""@;
    text_laws::law_first_of_the_set(t, set, a);
    assert(t[b] == '"');
    assert(set[0] == '"');
    assert(set.contains(t[b]));
    assert forall|j: int| a <= j < b implies !set.contains(#[trigger] t[j]) by {
        assert(t[j] == name[j - a]);
        assert(name.contains(name[j - a]));
    }
    match text::find_any_from(t, set, a) {
        Some(k) => {
            if k < b {
                assert(!set.contains(t[k]));
            }
            if k > b {
                assert(!set.contains(t[b]));
            }
        },
        None => {
            assert(!set.contains(t[b]));
        },
    }
    assert(t.subrange(a, b) =~= name);
}

/// A name in its normal form has no blanks at its ends and neither underscores
/// nor small letters.
pub proof fn law_normal_names(name: Seq<char>, i: int)
    requires
        0 <= i < crs::normalized(name).len(),
    ensures
        crs::normalized(name)[i] != '_',
        !('a' <= crs::normalized(name)[i] && crs::normalized(name)[i] <= 'z'),
        crs::normalized(name).len() == text::trimmed(name).len(),
        text::trimmed(name)[i] == '_' ==> crs::normalized(name)[i] == ' ',
{
}

/// A code stands for itself.
pub proof fn law_codes_stand_for_themselves(n: u32)
    ensures
        crs::epsg_of(CrsView::Epsg(n)) == Some(n as nat),
        crs::epsg_of(CrsView::Unknown) is None,
{
}

} // verus!
