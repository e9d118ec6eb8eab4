//! How the format writes numbers and texts, and that the reader reads them back.
//!
//! What is written is given here in its own right: the reader is not spoken of
//! until the laws.

use crate::filegdb::bytes;
use crate::filegdb::error::GdbErrorView;
use crate::octets;
use vstd::prelude::*;
use vstd::utf8::*;

verus! {

/// Whether those bytes stand at `pos`.
pub open spec fn stands(b: Seq<u8>, pos: int, s: Seq<u8>) -> bool {
    0 <= pos && pos + s.len() <= b.len() && b.subrange(pos, pos + s.len()) == s
}

/// Of two runs of bytes that stand one behind the other, each stands where it
/// should.
pub proof fn lemma_stands_split(b: Seq<u8>, pos: int, s: Seq<u8>, t: Seq<u8>)
    requires
        stands(b, pos, s + t),
    ensures
        stands(b, pos, s),
        stands(b, pos + s.len(), t),
{
    let all = b.subrange(pos, pos + (s + t).len());
    assert(b.subrange(pos, pos + s.len()) =~= s) by {
        assert forall|i: int| 0 <= i < s.len() implies b.subrange(pos, pos + s.len())[i]
            == s[i] by {
            assert(all[i] == (s + t)[i]);
        }
    }
    let p = pos + s.len();
    assert(b.subrange(p, p + t.len()) =~= t) by {
        assert forall|i: int| 0 <= i < t.len() implies b.subrange(p, p + t.len())[i] == t[i] by {
            assert(all[s.len() + i] == (s + t)[s.len() + i]);
        }
    }
}

// ---------------------------------------------------------------------------
// Numbers of a fixed width
// ---------------------------------------------------------------------------
/// Two bytes, the low one first.
pub open spec fn two(v: nat) -> Seq<u8> {
    seq![(v % 0x100) as u8, (v / 0x100 % 0x100) as u8]
}

/// Four bytes, the lowest first.
pub open spec fn four(v: nat) -> Seq<u8> {
    seq![
        (v % 0x100) as u8,
        (v / 0x100 % 0x100) as u8,
        (v / 0x1_0000 % 0x100) as u8,
        (v / 0x100_0000 % 0x100) as u8,
    ]
}

/// Eight bytes, the lowest first.
pub open spec fn eight(v: nat) -> Seq<u8> {
    four(v % 0x1_0000_0000) + four(v / 0x1_0000_0000)
}

/// A signed number as the unsigned one with the same low `bits` bits, where
/// `full` is two to the power `bits`.
pub open spec fn complement(v: int, full: int) -> nat {
    (if v < 0 {
        v + full
    } else {
        v
    }) as nat
}

/// Numbers of two, four and eight bytes are read back, unsigned and signed.
pub proof fn law_numbers_come_back(b: Seq<u8>, pos: int)
    ensures
        forall|v: u16|
            #![trigger two(v as nat)]
            stands(b, pos, two(v as nat)) ==> bytes::u16_at(b, pos) == (Ok::<
                u16,
                GdbErrorView,
            >(v), pos + 2),
        forall|v: u32|
            #![trigger four(v as nat)]
            stands(b, pos, four(v as nat)) ==> bytes::u32_at(b, pos) == (Ok::<
                u32,
                GdbErrorView,
            >(v), pos + 4),
        forall|v: u64|
            #![trigger eight(v as nat)]
            stands(b, pos, eight(v as nat)) ==> bytes::u64_at(b, pos) == (Ok::<
                u64,
                GdbErrorView,
            >(v), pos + 8),
        forall|v: i16|
            #![trigger complement(v as int, 0x1_0000)]
            stands(b, pos, two(complement(v as int, 0x1_0000))) ==> bytes::i16_at(b, pos) == (Ok::<
                i16,
                GdbErrorView,
            >(v), pos + 2),
        forall|v: i32|
            #![trigger complement(v as int, 0x1_0000_0000)]
            stands(b, pos, four(complement(v as int, 0x1_0000_0000))) ==> bytes::i32_at(b, pos)
                == (Ok::<i32, GdbErrorView>(v), pos + 4),
        forall|v: i64|
            #![trigger complement(v as int, 0x1_0000_0000_0000_0000)]
            stands(b, pos, eight(complement(v as int, 0x1_0000_0000_0000_0000))) ==> bytes::i64_at(
                b,
                pos,
            ) == (Ok::<i64, GdbErrorView>(v), pos + 8),
{
    assert forall|v: nat|
        v < 0x1_0000 && stands(b, pos, #[trigger] two(v)) implies octets::le_nat(
        b.subrange(pos, pos + 2),
    ) == v && bytes::uint_at(b, pos, 2) == (Ok::<nat, GdbErrorView>(v), pos
        + 2) by {
        octets::law_places(two(v));
    }
    assert forall|v: nat|
        v < 0x1_0000_0000 && stands(b, pos, #[trigger] four(v)) implies octets::le_nat(
        b.subrange(pos, pos + 4),
    ) == v && bytes::uint_at(b, pos, 4) == (Ok::<nat, GdbErrorView>(v), pos
        + 4) by {
        octets::law_places(four(v));
    }
    assert forall|v: nat|
        v < 0x1_0000_0000_0000_0000 && stands(b, pos, #[trigger] eight(v)) implies octets::le_nat(
        b.subrange(pos, pos + 8),
    ) == v && bytes::uint_at(b, pos, 8) == (Ok::<nat, GdbErrorView>(v), pos
        + 8) by {
        octets::law_places(eight(v));
        lemma_four(v % 0x1_0000_0000);
        lemma_four(v / 0x1_0000_0000);
    }
}

proof fn lemma_four(v: nat)
    requires
        v < 0x1_0000_0000,
    ensures
        four(v)[0] + 0x100 * four(v)[1] + 0x1_0000 * four(v)[2] + 0x100_0000 * four(v)[3] == v,
{
}

// ---------------------------------------------------------------------------
// Numbers of a variable width
// ---------------------------------------------------------------------------
/// A varuint: seven bits in each byte, the lowest first; the high bit says that
/// more follow.
pub open spec fn varuint(v: nat) -> Seq<u8>
    decreases v,
{
    if v < 128 {
        seq![v as u8]
    } else {
        seq![(128 + v % 128) as u8] + varuint(v / 128)
    }
}

/// A varint: the first byte holds the sign and six bits, the others seven bits
/// each.
pub open spec fn varint(v: int) -> Seq<u8> {
    let m = (if v < 0 {
        -v
    } else {
        v
    }) as nat;
    let sign: nat = if v < 0 {
        64
    } else {
        0
    };
    if m < 64 {
        seq![(sign + m) as u8]
    } else {
        seq![(128 + sign + m % 64) as u8] + varuint(m / 64)
    }
}

/// Some varuints, one behind the other.
pub open spec fn varuints(s: Seq<u64>) -> Seq<u8>
    decreases s.len(),
{
    if s.len() == 0 {
        Seq::empty()
    } else {
        varuint(s[0] as nat) + varuints(s.skip(1))
    }
}

proof fn lemma_varuint_from(b: Seq<u8>, pos: int, n: nat, acc: nat, v: nat)
    requires
        stands(b, pos, varuint(v)),
        n <= 9,
        acc + v * bytes::pow128(n) < 0x1_0000_0000_0000_0000,
    ensures
        bytes::varuint_from(b, pos, n, acc) == (Ok::<u64, GdbErrorView>(
            (acc + v * bytes::pow128(n)) as u64,
        ), pos + varuint(v).len()),
    decreases v,
{
    let s = varuint(v);
    assert(b[pos] == b.subrange(pos, pos + s.len())[0]);
    assert(b[pos] == s[0]);
    let p = bytes::pow128(n);
    if v >= 128 {
        bytes::lemma_pow128_values();
        assert(128 * p <= v * p) by (nonlinear_arith)
            requires
                v >= 128,
                p >= 0,
        ;
        if n == 9 {
            assert(false);
        }
        let q = v / 128;
        let r = v % 128;
        assert(bytes::pow128(n + 1) == 128 * p);
        assert(v * p == r * p + q * (128 * p)) by (nonlinear_arith)
            requires
                v == 128 * q + r,
        ;
        lemma_stands_split(b, pos, seq![(128 + v % 128) as u8], varuint(q));
        lemma_varuint_from(b, pos + 1, n + 1, acc + r * p, q);
    }
}

/// A varuint is read back, and the reader stands behind it.
pub proof fn law_varuint_comes_back(b: Seq<u8>, pos: int, v: u64)
    requires
        stands(b, pos, varuint(v as nat)),
    ensures
        bytes::varuint_at(b, pos) == (Ok::<u64, GdbErrorView>(v), pos
            + varuint(v as nat).len()),
{
    bytes::lemma_pow128_values();
    lemma_varuint_from(b, pos, 0, 0, v as nat);
}

proof fn lemma_varint_from(b: Seq<u8>, pos: int, start: int, neg: bool, n: nat, acc: nat, v: nat)
    requires
        stands(b, pos, varuint(v)),
        n <= 8,
        acc + v * (64 * bytes::pow128(n)) < 0x8000_0000_0000_0000,
    ensures
        bytes::varint_from(b, pos, start, neg, n, acc) == (Ok::<
            i64,
            GdbErrorView,
        >(bytes::with_sign(acc + v * (64 * bytes::pow128(n)), neg)), pos + varuint(v).len()),
    decreases v,
{
    let s = varuint(v);
    assert(b[pos] == b.subrange(pos, pos + s.len())[0]);
    assert(b[pos] == s[0]);
    let p = 64 * bytes::pow128(n);
    if v >= 128 {
        bytes::lemma_pow128_values();
        assert(128 * p <= v * p) by (nonlinear_arith)
            requires
                v >= 128,
                p >= 0,
        ;
        if n == 8 {
            assert(false);
        }
        let q = v / 128;
        let r = v % 128;
        assert(64 * bytes::pow128(n + 1) == 128 * p);
        assert(v * p == r * p + q * (128 * p)) by (nonlinear_arith)
            requires
                v == 128 * q + r,
        ;
        lemma_stands_split(b, pos, seq![(128 + v % 128) as u8], varuint(q));
        lemma_varint_from(b, pos + 1, start, neg, n + 1, acc + r * p, q);
    }
}

/// A varint is read back, and the reader stands behind it. The least number of
/// 64 bits has no varint.
pub proof fn law_varint_comes_back(b: Seq<u8>, pos: int, v: i64)
    requires
        v > i64::MIN,
        stands(b, pos, varint(v as int)),
    ensures
        bytes::varint_at(b, pos) == (Ok::<i64, GdbErrorView>(v), pos
            + varint(v as int).len()),
{
    let m = (if v < 0 {
        -(v as int)
    } else {
        v as int
    }) as nat;
    let s = varint(v as int);
    assert(b[pos] == b.subrange(pos, pos + s.len())[0]);
    assert(b[pos] == s[0]);
    if m >= 64 {
        bytes::lemma_pow128_values();
        lemma_stands_split(b, pos, seq![s[0]], varuint(m / 64));
        assert(m == m % 64 + (m / 64) * 64);
        lemma_varint_from(b, pos + 1, pos, v < 0, 0, m % 64, m / 64);
    }
}

// ---------------------------------------------------------------------------
// Texts
// ---------------------------------------------------------------------------
/// The UTF-16 of a character: itself, or a pair of surrogates.
pub open spec fn utf16_char(c: char) -> Seq<u8> {
    let n = c as u32 as nat;
    if n < 0x1_0000 {
        two(n)
    } else {
        two(0xd800 + (n - 0x1_0000) as nat / 0x400) + two(0xdc00 + (n - 0x1_0000) as nat % 0x400)
    }
}

/// The UTF-16 of a text, the low byte of each unit first.
pub open spec fn utf16(s: Seq<char>) -> Seq<u8>
    decreases s.len(),
{
    if s.len() == 0 {
        Seq::empty()
    } else {
        utf16_char(s[0]) + utf16(s.skip(1))
    }
}

proof fn lemma_utf16_even(s: Seq<char>)
    ensures
        utf16(s).len() % 2 == 0,
    decreases s.len(),
{
    if s.len() > 0 {
        lemma_utf16_even(s.skip(1));
    }
}

proof fn lemma_char(c: char, n: nat)
    requires
        n == c as u32,
    ensures
        n as char == c,
        (n as int) as char == c,
        !bytes::high_surrogate(n),
        !bytes::low_surrogate(n),
{
    char_is_scalar(c);
}

proof fn lemma_utf16_text(s: Seq<char>)
    ensures
        bytes::utf16_text(bytes::units_of(utf16(s))) == Some(s),
    decreases s.len(),
{
    let u = bytes::units_of(utf16(s));
    if s.len() == 0 {
        assert(s =~= Seq::<char>::empty());
        assert(u =~= Seq::<nat>::empty());
    } else {
        let c = s[0];
        let n = c as u32 as nat;
        lemma_char(c, n);
        let rest = s.skip(1);
        lemma_utf16_text(rest);
        lemma_utf16_even(rest);
        lemma_utf16_even(s);
        let t = utf16(rest);
        assert(s =~= seq![c] + rest);
        if n < 0x1_0000 {
            assert(u[0] == n);
            assert(u[0] as char == c);
            assert(u.skip(1) =~= bytes::units_of(t)) by {
                assert forall|i: int| 0 <= i < u.len() - 1 implies u.skip(1)[i]
                    == bytes::units_of(t)[i] by {
                    assert(utf16(s)[2 * (i + 1)] == t[2 * i]);
                    assert(utf16(s)[2 * (i + 1) + 1] == t[2 * i + 1]);
                }
            }
        } else {
            let hi = 0xd800 + (n - 0x1_0000) as nat / 0x400;
            let lo = 0xdc00 + (n - 0x1_0000) as nat % 0x400;
            assert(utf16(s)[0] == two(hi)[0] && utf16(s)[1] == two(hi)[1]);
            assert(utf16(s)[2] == two(lo)[0] && utf16(s)[3] == two(lo)[1]);
            assert(u[0] == hi);
            assert(u[1] == lo);
            assert(u.skip(2) =~= bytes::units_of(t)) by {
                assert forall|i: int| 0 <= i < u.len() - 2 implies u.skip(2)[i]
                    == bytes::units_of(t)[i] by {
                    assert(utf16(s)[2 * (i + 2)] == t[2 * i]);
                    assert(utf16(s)[2 * (i + 2) + 1] == t[2 * i + 1]);
                }
            }
            assert(0x1_0000 + (u[0] - 0xd800) * 0x400 + (u[1] - 0xdc00) == n);
            assert((0x1_0000 + (u[0] - 0xd800) * 0x400 + (u[1] - 0xdc00)) as char == c);
            assert(bytes::high_surrogate(u[0]) && bytes::low_surrogate(u[1]));
        }
    }
}

/// A text in UTF-16 is read back.
pub proof fn law_utf16_comes_back(b: Seq<u8>, pos: int, s: Seq<char>)
    requires
        stands(b, pos, utf16(s)),
    ensures
        utf16(s).len() % 2 == 0,
        bytes::utf16_at(b, pos, utf16(s).len() as int / 2) == (Ok::<
            Seq<char>,
            GdbErrorView,
        >(s), pos + utf16(s).len()),
{
    lemma_utf16_even(s);
    lemma_utf16_text(s);
}

/// A text in UTF-8 is read back.
pub proof fn law_utf8_comes_back(b: Seq<u8>, pos: int, s: Seq<char>)
    requires
        stands(b, pos, encode_utf8(s)),
    ensures
        bytes::utf8_at(b, pos, encode_utf8(s).len() as int) == (Ok::<
            Seq<char>,
            GdbErrorView,
        >(s), pos + encode_utf8(s).len()),
{
    encode_utf8_valid_utf8(s);
    encode_utf8_decode_utf8(s);
}

} // verus!
