//! A little-endian cursor over bytes, with the format's variable-length
//! integers.
//!
//! - varuint: seven bits in each byte, the high bit says that more follow.
//! - varint: the same, but bit `0x40` of the first byte is the sign, so that
//!   the first byte holds six bits of the magnitude.

use crate::filegdb::error::{GdbError, GdbErrorView};
use crate::octets;
use crate::octets::read_le;
use crate::text;
use crate::text::push_dec;
use vstd::prelude::*;
use vstd::slice::slice_subrange;
use vstd::string::*;
use vstd::utf8::*;

verus! {

/// What reading gives: a value or an error, and where the cursor then stands.
pub type Step<T> = (Result<T, GdbErrorView>, int);

/// The error where `need` bytes are wanted at `pos`.
pub open spec fn eof(pos: int, need: int) -> GdbErrorView {
    GdbErrorView::Eof { pos, need }
}

/// `n` bytes at `pos`.
pub open spec fn bytes_at(b: Seq<u8>, pos: int, n: int) -> Step<Seq<u8>> {
    if b.len() - pos < n {
        (Err(eof(pos, n)), pos)
    } else {
        (Ok(b.subrange(pos, pos + n)), pos + n)
    }
}

/// An unsigned number of `n` bytes at `pos`.
pub open spec fn uint_at(b: Seq<u8>, pos: int, n: int) -> Step<nat> {
    match bytes_at(b, pos, n).0 {
        Err(e) => (Err(e), pos),
        Ok(s) => (Ok(octets::le_nat(s)), pos + n),
    }
}

/// One byte at `pos`.
pub open spec fn u8_at(b: Seq<u8>, pos: int) -> Step<u8> {
    if pos >= b.len() {
        (Err(eof(pos, 1)), pos)
    } else {
        (Ok(b[pos]), pos + 1)
    }
}

/// The signed number that an unsigned one of `bits` bits denotes, where
/// `half` is two to the power `bits - 1`.
pub open spec fn signed(v: nat, half: int) -> int {
    if v >= half {
        v - 2 * half
    } else {
        v as int
    }
}

/// A number of type `u16` at `pos`.
pub open spec fn u16_at(b: Seq<u8>, pos: int) -> Step<u16> {
    match uint_at(b, pos, 2) {
        (Err(e), p) => (Err(e), p),
        (Ok(v), p) => (Ok(v as u16), p),
    }
}

/// A number of type `u32` at `pos`.
pub open spec fn u32_at(b: Seq<u8>, pos: int) -> Step<u32> {
    match uint_at(b, pos, 4) {
        (Err(e), p) => (Err(e), p),
        (Ok(v), p) => (Ok(v as u32), p),
    }
}

/// A number of type `u64` at `pos`.
pub open spec fn u64_at(b: Seq<u8>, pos: int) -> Step<u64> {
    match uint_at(b, pos, 8) {
        (Err(e), p) => (Err(e), p),
        (Ok(v), p) => (Ok(v as u64), p),
    }
}

/// A number of type `i16` at `pos`.
pub open spec fn i16_at(b: Seq<u8>, pos: int) -> Step<i16> {
    match uint_at(b, pos, 2) {
        (Err(e), p) => (Err(e), p),
        (Ok(v), p) => (Ok(signed(v, 0x8000) as i16), p),
    }
}

/// A number of type `i32` at `pos`.
pub open spec fn i32_at(b: Seq<u8>, pos: int) -> Step<i32> {
    match uint_at(b, pos, 4) {
        (Err(e), p) => (Err(e), p),
        (Ok(v), p) => (Ok(signed(v, 0x8000_0000) as i32), p),
    }
}

/// A number of type `i64` at `pos`.
pub open spec fn i64_at(b: Seq<u8>, pos: int) -> Step<i64> {
    match uint_at(b, pos, 8) {
        (Err(e), p) => (Err(e), p),
        (Ok(v), p) => (Ok(signed(v, 0x8000_0000_0000_0000) as i64), p),
    }
}

/// `n` more doubles at `pos`, behind those in `acc`.
pub open spec fn doubles_from(b: Seq<u8>, pos: int, n: nat, acc: Seq<u64>) -> Step<Seq<u64>>
    decreases n,
{
    if n == 0 {
        (Ok(acc), pos)
    } else {
        match u64_at(b, pos) {
            (Err(e), p) => (Err(e), p),
            (Ok(v), p) => doubles_from(b, p, (n - 1) as nat, acc.push(v)),
        }
    }
}

/// `n` doubles at `pos`.
pub open spec fn doubles_at(b: Seq<u8>, pos: int, n: nat) -> Step<Seq<u64>> {
    doubles_from(b, pos, n, Seq::empty())
}

/// 128 to the power `n`.
pub open spec fn pow128(n: nat) -> nat
    decreases n,
{
    if n == 0 {
        1
    } else {
        128 * pow128((n - 1) as nat)
    }
}

/// The rest of a varuint at `pos`, of which `n` bytes that amount to `acc` have
/// been read. Ten bytes are the most; bits above the 64th are dropped.
pub open spec fn varuint_from(b: Seq<u8>, pos: int, n: nat, acc: nat) -> Step<u64>
    decreases 10 - n,
{
    if pos >= b.len() {
        (Err(eof(pos, 1)), pos)
    } else {
        let v = acc + (b[pos] % 128) as nat * pow128(n);
        if b[pos] < 128 {
            (Ok((v % 0x1_0000_0000_0000_0000) as u64), pos + 1)
        } else if n >= 9 {
            (Err(GdbErrorView::VarintOverflow { pos }), pos + 1)
        } else {
            varuint_from(b, pos + 1, n + 1, v)
        }
    }
}

/// A varuint at `pos`.
pub open spec fn varuint_at(b: Seq<u8>, pos: int) -> Step<u64> {
    varuint_from(b, pos, 0, 0)
}

/// The signed number with magnitude `m` (of which 64 bits are kept) and sign.
pub open spec fn with_sign(m: nat, negative: bool) -> i64 {
    let v = signed(m % 0x1_0000_0000_0000_0000, 0x8000_0000_0000_0000);
    if negative && v != i64::MIN {
        (-v) as i64
    } else {
        v as i64
    }
}

/// The rest of a varint at `pos` that began at `start`, of which the first byte
/// and `n` more that amount to `acc` have been read.
pub open spec fn varint_from(
    b: Seq<u8>,
    pos: int,
    start: int,
    negative: bool,
    n: nat,
    acc: nat,
) -> Step<i64>
    decreases 9 - n,
{
    if pos >= b.len() {
        (Err(eof(pos, 1)), pos)
    } else {
        let v = acc + (b[pos] % 128) as nat * (64 * pow128(n));
        if b[pos] < 128 {
            (Ok(with_sign(v, negative)), pos + 1)
        } else if n >= 8 {
            (Err(GdbErrorView::VarintOverflow { pos: start }), pos + 1)
        } else {
            varint_from(b, pos + 1, start, negative, n + 1, v)
        }
    }
}

/// A varint at `pos`.
pub open spec fn varint_at(b: Seq<u8>, pos: int) -> Step<i64> {
    if pos >= b.len() {
        (Err(eof(pos, 1)), pos)
    } else {
        let negative = (b[pos] / 64) % 2 == 1;
        let low = (b[pos] % 64) as nat;
        if b[pos] < 128 {
            (Ok(with_sign(low, negative)), pos + 1)
        } else {
            varint_from(b, pos + 1, pos, negative, 0, low)
        }
    }
}

/// The code units that pairs of little-endian bytes denote.
pub open spec fn units_of(s: Seq<u8>) -> Seq<nat> {
    Seq::new((s.len() / 2) as nat, |i: int| s[2 * i] as nat + 256 * s[2 * i + 1] as nat)
}

/// Whether the unit is the first of a surrogate pair.
pub open spec fn high_surrogate(u: nat) -> bool {
    0xd800 <= u < 0xdc00
}

/// Whether the unit is the second of a surrogate pair.
pub open spec fn low_surrogate(u: nat) -> bool {
    0xdc00 <= u < 0xe000
}

/// The text that UTF-16 code units denote; none if a surrogate stands alone.
pub open spec fn utf16_text(u: Seq<nat>) -> Option<Seq<char>>
    decreases u.len(),
{
    if u.len() == 0 {
        Some(Seq::empty())
    } else if high_surrogate(u[0]) {
        if u.len() > 1 && low_surrogate(u[1]) {
            match utf16_text(u.skip(2)) {
                None => None,
                Some(t) => Some(
                    seq![(0x1_0000 + (u[0] - 0xd800) * 0x400 + (u[1] - 0xdc00)) as char] + t,
                ),
            }
        } else {
            None
        }
    } else if low_surrogate(u[0]) {
        None
    } else {
        match utf16_text(u.skip(1)) {
            None => None,
            Some(t) => Some(seq![u[0] as char] + t),
        }
    }
}

/// `n` UTF-16 code units at `pos`.
pub open spec fn utf16_at(b: Seq<u8>, pos: int, n: int) -> Step<Seq<char>> {
    match bytes_at(b, pos, 2 * n).0 {
        Err(e) => (Err(e), pos),
        Ok(s) => match utf16_text(units_of(s)) {
            None => (Err(GdbErrorView::InvalidUtf16 { pos }), pos + 2 * n),
            Some(t) => (Ok(t), pos + 2 * n),
        },
    }
}

/// `n` bytes of UTF-8 at `pos`.
pub open spec fn utf8_at(b: Seq<u8>, pos: int, n: int) -> Step<Seq<char>> {
    match bytes_at(b, pos, n).0 {
        Err(e) => (Err(e), pos),
        Ok(s) => if valid_utf8(s) {
            (Ok(decode_utf8(s)), pos + n)
        } else {
            (
                Err(GdbErrorView::Malformed("invalid UTF-8 at pos "@ + text::dec(pos as nat))),
                pos + n,
            )
        },
    }
}

/// `std::char::from_u32` gives the character of that number, and none exactly
/// where the number is a surrogate or too large.
pub assume_specification[ std::char::from_u32 ](i: u32) -> (r: Option<char>)
    ensures
        r == (if i < 0xd800 || 0xe000 <= i < 0x11_0000 {
            Some(i as char)
        } else {
            None
        }),
;

/// `std::str::from_utf8` accepts exactly the valid UTF-8 strings, and gives the
/// text that they encode.
#[verifier::external_body]
fn utf8_text(bytes: &[u8]) -> (r: Option<String>)
    ensures
        match r {
            Some(s) => valid_utf8(bytes@) && s@ == decode_utf8(bytes@),
            None => !valid_utf8(bytes@),
        },
{
    match std::str::from_utf8(bytes) {
        Ok(s) => Some(s.to_owned()),
        Err(_) => None,
    }
}

/// The result of a read as the specifications see it.
pub open spec fn plain<T>(r: Result<T, GdbError>) -> Result<T, GdbErrorView> {
    match r {
        Ok(v) => Ok(v),
        Err(e) => Err(e@),
    }
}

/// The result of a read of a text as the specifications see it.
pub open spec fn plain_text(r: Result<String, GdbError>) -> Result<Seq<char>, GdbErrorView> {
    match r {
        Ok(v) => Ok(v@),
        Err(e) => Err(e@),
    }
}

/// A cursor over bytes.
#[derive(Debug)]
pub struct LeReader<'a> {
    buf: &'a [u8],
    pos: usize,
}

fn apply_sign(magnitude: u64, negative: bool) -> (r: i64)
    ensures
        r == with_sign(magnitude as nat, negative),
{
    let v: i64 = if magnitude < 0x8000_0000_0000_0000 {
        magnitude as i64
    } else {
        i64::MIN + (magnitude - 0x8000_0000_0000_0000) as i64
    };
    if negative && v != i64::MIN {
        -v
    } else {
        v
    }
}

pub proof fn lemma_pow128_values()
    ensures
        pow128(0) == 1,
        pow128(1) == 0x80,
        pow128(2) == 0x4000,
        pow128(3) == 0x20_0000,
        pow128(4) == 0x1000_0000,
        pow128(5) == 0x8_0000_0000,
        pow128(6) == 0x400_0000_0000,
        pow128(7) == 0x2_0000_0000_0000,
        pow128(8) == 0x100_0000_0000_0000,
        pow128(9) == 0x8000_0000_0000_0000,
{
    reveal_with_fuel(pow128, 10);
}

impl<'a> LeReader<'a> {
    /// All the bytes.
    pub closed spec fn data(self) -> Seq<u8> {
        self.buf@
    }

    /// Where the cursor stands.
    pub closed spec fn at(self) -> int {
        self.pos as int
    }

    pub open spec fn wf(self) -> bool {
        0 <= self.at() <= self.data().len()
    }

    pub fn new(buf: &'a [u8]) -> (r: LeReader<'a>)
        ensures
            r.wf(),
            r.data() == buf@,
            r.at() == 0,
    {
        LeReader { buf, pos: 0 }
    }

    pub fn position(&self) -> (r: usize)
        ensures
            r == self.at(),
    {
        self.pos
    }

    pub fn remaining(&self) -> (r: usize)
        requires
            self.wf(),
        ensures
            r == self.data().len() - self.at(),
    {
        self.buf.len() - self.pos
    }

    /// Moves to `pos`, unless that is behind the end.
    pub fn seek(&mut self, pos: usize) -> (r: Result<(), GdbError>)
        requires
            old(self).wf(),
        ensures
            final(self).wf(),
            final(self).data() == old(self).data(),
            match r {
                Ok(_) => pos <= old(self).data().len() && final(self).at() == pos,
                Err(e) => pos > old(self).data().len() && final(self).at() == old(self).at() && e@
                    == eof(old(self).data().len() as int, pos - old(self).data().len()),
            },
    {
        let len: usize = self.buf.len();
        if pos > len {
            return Err(GdbError::Eof { pos: len, need: pos - len });
        }
        self.pos = pos;
        Ok(())
    }

    /// Moves `n` bytes forward, unless that is behind the end.
    pub fn skip(&mut self, n: usize) -> (r: Result<(), GdbError>)
        requires
            old(self).wf(),
        ensures
            final(self).wf(),
            final(self).data() == old(self).data(),
            ({
                let to = if old(self).at() + n > usize::MAX {
                    usize::MAX as int
                } else {
                    old(self).at() + n
                };
                match r {
                    Ok(_) => to <= old(self).data().len() && final(self).at() == to,
                    Err(e) => to > old(self).data().len() && final(self).at() == old(self).at()
                        && e@ == eof(old(self).data().len() as int, to - old(self).data().len()),
                }
            }),
    {
        let to: usize = self.pos.saturating_add(n);
        self.seek(to)
    }

    fn need(&self, n: usize) -> (r: Result<(), GdbError>)
        requires
            self.wf(),
        ensures
            match r {
                Ok(_) => self.data().len() - self.at() >= n,
                Err(e) => self.data().len() - self.at() < n && e@ == eof(self.at(), n as int),
            },
    {
        if self.remaining() < n {
            Err(GdbError::Eof { pos: self.pos, need: n })
        } else {
            Ok(())
        }
    }

    /// The next byte, without moving.
    pub fn peek_u8(&self) -> (r: Result<u8, GdbError>)
        requires
            self.wf(),
        ensures
            plain(r) == u8_at(self.data(), self.at()).0,
    {
        match self.need(1) {
            Err(e) => Err(e),
            Ok(_) => Ok(self.buf[self.pos]),
        }
    }

    /// The next `n` bytes.
    pub fn read_bytes(&mut self, n: usize) -> (r: Result<&'a [u8], GdbError>)
        requires
            old(self).wf(),
        ensures
            final(self).wf(),
            final(self).data() == old(self).data(),
            bytes_at(old(self).data(), old(self).at(), n as int) == (
                match r {
                    Ok(s) => Ok::<Seq<u8>, GdbErrorView>(s@),
                    Err(e) => Err(e@),
                },
                final(self).at(),
            ),
    {
        match self.need(n) {
            Err(e) => Err(e),
            Ok(_) => {
                let _len: usize = self.buf.len();
                let s: &'a [u8] = slice_subrange(self.buf, self.pos, self.pos + n);
                self.pos = self.pos + n;
                Ok(s)
            },
        }
    }

    pub fn read_u8(&mut self) -> (r: Result<u8, GdbError>)
        requires
            old(self).wf(),
        ensures
            final(self).wf(),
            final(self).data() == old(self).data(),
            u8_at(old(self).data(), old(self).at()) == (plain(r), final(self).at()),
    {
        match self.need(1) {
            Err(e) => Err(e),
            Ok(_) => {
                let v: u8 = self.buf[self.pos];
                self.pos = self.pos + 1;
                Ok(v)
            },
        }
    }

    fn read_width(&mut self, n: usize) -> (r: Result<u64, GdbError>)
        requires
            old(self).wf(),
            n <= 8,
        ensures
            final(self).wf(),
            final(self).data() == old(self).data(),
            uint_at(old(self).data(), old(self).at(), n as int) == (
                match r {
                    Ok(v) => Ok::<nat, GdbErrorView>(v as nat),
                    Err(e) => Err(e@),
                },
                final(self).at(),
            ),
            r matches Ok(v) ==> v < octets::pow256(n as nat),
    {
        match self.need(n) {
            Err(e) => Err(e),
            Ok(_) => {
                let _len: usize = self.buf.len();
                let v: u64 = read_le(self.buf, self.pos, n);
                self.pos = self.pos + n;
                Ok(v)
            },
        }
    }

    pub fn read_u16(&mut self) -> (r: Result<u16, GdbError>)
        requires
            old(self).wf(),
        ensures
            final(self).wf(),
            final(self).data() == old(self).data(),
            u16_at(old(self).data(), old(self).at()) == (plain(r), final(self).at()),
    {
        proof {
            octets::lemma_pow256_values();
        }
        match self.read_width(2) {
            Err(e) => Err(e),
            Ok(v) => Ok(v as u16),
        }
    }

    pub fn read_u32(&mut self) -> (r: Result<u32, GdbError>)
        requires
            old(self).wf(),
        ensures
            final(self).wf(),
            final(self).data() == old(self).data(),
            u32_at(old(self).data(), old(self).at()) == (plain(r), final(self).at()),
    {
        proof {
            octets::lemma_pow256_values();
        }
        match self.read_width(4) {
            Err(e) => Err(e),
            Ok(v) => Ok(v as u32),
        }
    }

    pub fn read_u64(&mut self) -> (r: Result<u64, GdbError>)
        requires
            old(self).wf(),
        ensures
            final(self).wf(),
            final(self).data() == old(self).data(),
            u64_at(old(self).data(), old(self).at()) == (plain(r), final(self).at()),
    {
        self.read_width(8)
    }

    pub fn read_i16(&mut self) -> (r: Result<i16, GdbError>)
        requires
            old(self).wf(),
        ensures
            final(self).wf(),
            final(self).data() == old(self).data(),
            i16_at(old(self).data(), old(self).at()) == (plain(r), final(self).at()),
    {
        proof {
            octets::lemma_pow256_values();
        }
        match self.read_width(2) {
            Err(e) => Err(e),
            Ok(v) => if v < 0x8000 {
                Ok(v as i16)
            } else {
                Ok(i16::MIN + (v - 0x8000) as i16)
            },
        }
    }

    pub fn read_i32(&mut self) -> (r: Result<i32, GdbError>)
        requires
            old(self).wf(),
        ensures
            final(self).wf(),
            final(self).data() == old(self).data(),
            i32_at(old(self).data(), old(self).at()) == (plain(r), final(self).at()),
    {
        proof {
            octets::lemma_pow256_values();
        }
        match self.read_width(4) {
            Err(e) => Err(e),
            Ok(v) => if v < 0x8000_0000 {
                Ok(v as i32)
            } else {
                Ok(i32::MIN + (v - 0x8000_0000) as i32)
            },
        }
    }

    pub fn read_i64(&mut self) -> (r: Result<i64, GdbError>)
        requires
            old(self).wf(),
        ensures
            final(self).wf(),
            final(self).data() == old(self).data(),
            i64_at(old(self).data(), old(self).at()) == (plain(r), final(self).at()),
    {
        proof {
            octets::lemma_pow256_values();
        }
        match self.read_width(8) {
            Err(e) => Err(e),
            Ok(v) => if v < 0x8000_0000_0000_0000 {
                Ok(v as i64)
            } else {
                Ok(i64::MIN + (v - 0x8000_0000_0000_0000) as i64)
            },
        }
    }

    /// The bits of a single-precision number.
    pub fn read_f32(&mut self) -> (r: Result<u32, GdbError>)
        requires
            old(self).wf(),
        ensures
            final(self).wf(),
            final(self).data() == old(self).data(),
            u32_at(old(self).data(), old(self).at()) == (plain(r), final(self).at()),
    {
        self.read_u32()
    }

    /// The bits of a double.
    pub fn read_f64(&mut self) -> (r: Result<u64, GdbError>)
        requires
            old(self).wf(),
        ensures
            final(self).wf(),
            final(self).data() == old(self).data(),
            u64_at(old(self).data(), old(self).at()) == (plain(r), final(self).at()),
    {
        self.read_u64()
    }

    /// The bits of `n` doubles.
    pub fn read_doubles(&mut self, n: usize) -> (r: Result<Vec<u64>, GdbError>)
        requires
            old(self).wf(),
        ensures
            final(self).wf(),
            final(self).data() == old(self).data(),
            doubles_at(old(self).data(), old(self).at(), n as nat) == (
                match r {
                    Ok(v) => Ok::<Seq<u64>, GdbErrorView>(v@),
                    Err(e) => Err(e@),
                },
                final(self).at(),
            ),
            r matches Ok(v) ==> v@.len() == n,
    {
        let ghost b = self.data();
        let ghost start = self.at();
        let mut v: Vec<u64> = Vec::new();
        let mut i: usize = 0;
        while i < n
            invariant
                i <= n,
                self.wf(),
                self.data() == b,
                b == old(self).data(),
                start == old(self).at(),
                v@.len() == i,
                doubles_at(b, start, n as nat) == doubles_from(b, self.at(), (n - i) as nat, v@),
            decreases n - i,
        {
            match self.read_f64() {
                Err(e) => return Err(e),
                Ok(d) => {
                    v.push(d);
                },
            }
            i = i + 1;
        }
        Ok(v)
    }

    /// An unsigned number of one to eight bytes.
    pub fn read_uint_le(&mut self, width_bytes: usize) -> (r: Result<u64, GdbError>)
        requires
            old(self).wf(),
        ensures
            final(self).wf(),
            final(self).data() == old(self).data(),
            if 1 <= width_bytes <= 8 {
                uint_at(old(self).data(), old(self).at(), width_bytes as int) == (
                    match r {
                        Ok(v) => Ok::<nat, GdbErrorView>(v as nat),
                        Err(e) => Err(e@),
                    },
                    final(self).at(),
                )
            } else {
                &&& final(self).at() == old(self).at()
                &&& r matches Err(e) && e@ == GdbErrorView::Malformed(
                    "read_uint_le: invalid width "@ + text::dec(width_bytes as nat),
                )
            },
    {
        if width_bytes == 0 || width_bytes > 8 {
            let mut m: String = "read_uint_le: invalid width ".to_owned();
            push_dec(&mut m, width_bytes as u64);
            return Err(GdbError::malformed(m));
        }
        self.read_width(width_bytes)
    }

    pub fn read_uint40_le(&mut self) -> (r: Result<u64, GdbError>)
        requires
            old(self).wf(),
        ensures
            final(self).wf(),
            final(self).data() == old(self).data(),
            uint_at(old(self).data(), old(self).at(), 5) == (
                match r {
                    Ok(v) => Ok::<nat, GdbErrorView>(v as nat),
                    Err(e) => Err(e@),
                },
                final(self).at(),
            ),
    {
        self.read_uint_le(5)
    }

    pub fn read_uint48_le(&mut self) -> (r: Result<u64, GdbError>)
        requires
            old(self).wf(),
        ensures
            final(self).wf(),
            final(self).data() == old(self).data(),
            uint_at(old(self).data(), old(self).at(), 6) == (
                match r {
                    Ok(v) => Ok::<nat, GdbErrorView>(v as nat),
                    Err(e) => Err(e@),
                },
                final(self).at(),
            ),
    {
        self.read_uint_le(6)
    }

    /// An unsigned variable-length integer.
    pub fn read_varuint(&mut self) -> (r: Result<u64, GdbError>)
        requires
            old(self).wf(),
        ensures
            final(self).wf(),
            final(self).data() == old(self).data(),
            varuint_at(old(self).data(), old(self).at()) == (plain(r), final(self).at()),
    {
        let ghost b = self.data();
        let ghost start = self.at();
        let mut acc: u128 = 0;
        let mut scale: u128 = 1;
        let mut n: usize = 0;
        loop
            invariant
                self.wf(),
                self.data() == b,
                b == old(self).data(),
                start == old(self).at(),
                n <= 9,
                scale == pow128(n as nat),
                acc < scale,
                varuint_at(b, start) == varuint_from(b, self.at(), n as nat, acc as nat),
            decreases 10 - n,
        {
            let pos: usize = self.pos;
            let byte: u8 = match self.read_u8() {
                Err(e) => return Err(e),
                Ok(v) => v,
            };
            let low: u128 = (byte % 128) as u128;
            proof {
                lemma_pow128_values();
                assert(low * scale <= 127 * scale) by (nonlinear_arith)
                    requires
                        low <= 127,
                        0 <= scale,
                ;
            }
            acc = acc + low * scale;
            if byte < 128 {
                return Ok((acc % 0x1_0000_0000_0000_0000) as u64);
            }
            if n >= 9 {
                return Err(GdbError::VarintOverflow { pos });
            }
            scale = scale * 128;
            n = n + 1;
        }
    }

    /// A signed variable-length integer.
    pub fn read_varint(&mut self) -> (r: Result<i64, GdbError>)
        requires
            old(self).wf(),
        ensures
            final(self).wf(),
            final(self).data() == old(self).data(),
            varint_at(old(self).data(), old(self).at()) == (plain(r), final(self).at()),
    {
        let ghost b = self.data();
        let start: usize = self.pos;
        let first: u8 = match self.read_u8() {
            Err(e) => return Err(e),
            Ok(v) => v,
        };
        let negative: bool = (first / 64) % 2 == 1;
        let mut acc: u128 = (first % 64) as u128;
        if first < 128 {
            return Ok(apply_sign(acc as u64, negative));
        }
        let mut scale: u128 = 64;
        let mut n: usize = 0;
        loop
            invariant
                self.wf(),
                self.data() == b,
                b == old(self).data(),
                start == old(self).at(),
                n <= 8,
                scale == 64 * pow128(n as nat),
                acc < scale,
                varint_at(b, start as int) == varint_from(
                    b,
                    self.at(),
                    start as int,
                    negative,
                    n as nat,
                    acc as nat,
                ),
            decreases 9 - n,
        {
            let byte: u8 = match self.read_u8() {
                Err(e) => return Err(e),
                Ok(v) => v,
            };
            let low: u128 = (byte % 128) as u128;
            proof {
                lemma_pow128_values();
                assert(low * scale <= 127 * scale) by (nonlinear_arith)
                    requires
                        low <= 127,
                        0 <= scale,
                ;
            }
            acc = acc + low * scale;
            if byte < 128 {
                let m: u64 = (acc % 0x1_0000_0000_0000_0000) as u64;
                proof {
                    assert((acc as nat % 0x1_0000_0000_0000_0000) % 0x1_0000_0000_0000_0000
                        == acc as nat % 0x1_0000_0000_0000_0000);
                }
                return Ok(apply_sign(m, negative));
            }
            if n >= 8 {
                return Err(GdbError::VarintOverflow { pos: start });
            }
            scale = scale * 128;
            n = n + 1;
        }
    }

    /// A text of `n_chars` UTF-16 code units.
    pub fn read_utf16_le(&mut self, n_chars: usize) -> (r: Result<String, GdbError>)
        requires
            old(self).wf(),
            2 * n_chars <= usize::MAX,
        ensures
            final(self).wf(),
            final(self).data() == old(self).data(),
            utf16_at(old(self).data(), old(self).at(), n_chars as int) == (
                plain_text(r),
                final(self).at(),
            ),
    {
        let pos: usize = self.pos;
        match self.read_bytes(n_chars * 2) {
            Err(e) => Err(e),
            Ok(s) => match decode_utf16(s) {
                Some(t) => Ok(t),
                None => Err(GdbError::InvalidUtf16 { pos }),
            },
        }
    }

    /// A text of `n` bytes of UTF-8.
    pub fn read_utf8(&mut self, n: usize) -> (r: Result<String, GdbError>)
        requires
            old(self).wf(),
        ensures
            final(self).wf(),
            final(self).data() == old(self).data(),
            utf8_at(old(self).data(), old(self).at(), n as int) == (
                plain_text(r),
                final(self).at(),
            ),
    {
        let pos: usize = self.pos;
        match self.read_bytes(n) {
            Err(e) => Err(e),
            Ok(s) => match utf8_text(s) {
                Some(t) => Ok(t),
                None => {
                    let mut m: String = "invalid UTF-8 at pos ".to_owned();
                    push_dec(&mut m, pos as u64);
                    Err(GdbError::malformed(m))
                },
            },
        }
    }
}

/// The text that little-endian UTF-16 bytes denote.
fn decode_utf16(s: &[u8]) -> (r: Option<String>)
    ensures
        match r {
            Some(t) => utf16_text(units_of(s@)) == Some(t@),
            None => utf16_text(units_of(s@)) is None,
        },
{
    let ghost u = units_of(s@);
    let len: usize = s.len();
    let n: usize = len / 2;
    let mut t: String = String::new();
    let mut i: usize = 0;
    proof {
        assert(u.skip(0) =~= u);
    }
    while i < n
        invariant
            i <= n,
            n == len / 2,
            len == s@.len(),
            u == units_of(s@),
            match utf16_text(u.skip(i as int)) {
                Some(rest) => utf16_text(u) == Some(t@ + rest),
                None => utf16_text(u) is None,
            },
        decreases n - i,
    {
        let a: u32 = s[2 * i] as u32 + 256 * (s[2 * i + 1] as u32);
        let ghost here = u.skip(i as int);
        proof {
            assert(here[0] == u[i as int] == a);
            assert(here.skip(1) =~= u.skip(i + 1));
        }
        let ghost before = t@;
        if 0xd800 <= a && a < 0xdc00 {
            if i + 1 >= n {
                return None;
            }
            let b: u32 = s[2 * (i + 1)] as u32 + 256 * (s[2 * (i + 1) + 1] as u32);
            proof {
                assert(here[1] == u[i + 1] == b);
                assert(here.skip(2) =~= u.skip(i + 2));
            }
            if b < 0xdc00 || b >= 0xe000 {
                return None;
            }
            match std::char::from_u32(0x1_0000 + (a - 0xd800) * 0x400 + (b - 0xdc00)) {
                None => {
                    return None;
                },
                Some(c) => {
                    t.push(c);
                    proof {
                        if let Some(rest) = utf16_text(u.skip(i + 2)) {
                            assert(before + (seq![c] + rest) =~= t@ + rest);
                        }
                    }
                },
            }
            i = i + 2;
        } else {
            match std::char::from_u32(a) {
                None => {
                    return None;
                },
                Some(c) => {
                    t.push(c);
                    proof {
                        if let Some(rest) = utf16_text(u.skip(i + 1)) {
                            assert(before + (seq![c] + rest) =~= t@ + rest);
                        }
                    }
                },
            }
            i = i + 1;
        }
    }
    proof {
        assert(u.skip(i as int).len() == 0);
        assert(t@ + Seq::<char>::empty() =~= t@);
    }
    Some(t)
}

} // verus!
