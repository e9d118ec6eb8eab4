//! Fixed-width unsigned integers as byte strings, little- and big-endian.

use vstd::prelude::*;

verus! {

/// `256` to the power `n`: how many values `n` bytes can hold.
pub open spec fn pow256(n: nat) -> nat
    decreases n,
{
    if n == 0 {
        1
    } else {
        256 * pow256((n - 1) as nat)
    }
}

/// The number whose little-endian bytes are `s`.
pub open spec fn le_nat(s: Seq<u8>) -> nat
    decreases s.len(),
{
    if s.len() == 0 {
        0
    } else {
        s[0] as nat + 256 * le_nat(s.skip(1))
    }
}

/// The number whose big-endian bytes are `s`.
pub open spec fn be_nat(s: Seq<u8>) -> nat {
    le_nat(s.reverse())
}

/// The low `n` bytes of `v`, least significant first.
pub open spec fn le_bytes(v: nat, n: nat) -> Seq<u8>
    decreases n,
{
    if n == 0 {
        Seq::empty()
    } else {
        seq![(v % 256) as u8] + le_bytes(v / 256, (n - 1) as nat)
    }
}

/// Eight bytes hold exactly the values below 2^64, and so on down.
pub proof fn lemma_pow256_values()
    ensures
        pow256(0) == 1,
        pow256(1) == 0x100,
        pow256(2) == 0x1_0000,
        pow256(3) == 0x100_0000,
        pow256(4) == 0x1_0000_0000,
        pow256(5) == 0x100_0000_0000,
        pow256(6) == 0x1_0000_0000_0000,
        pow256(7) == 0x100_0000_0000_0000,
        pow256(8) == 0x1_0000_0000_0000_0000,
{
    reveal_with_fuel(pow256, 9);
}

/// A byte string denotes a number below `256^len`.
pub proof fn lemma_le_nat_bound(s: Seq<u8>)
    ensures
        le_nat(s) < pow256(s.len()),
    decreases s.len(),
{
    if s.len() > 0 {
        lemma_le_nat_bound(s.skip(1));
    }
}

/// Writing `n` bytes yields `n` bytes.
pub proof fn lemma_le_bytes_len(v: nat, n: nat)
    ensures
        le_bytes(v, n).len() == n,
    decreases n,
{
    if n > 0 {
        lemma_le_bytes_len(v / 256, (n - 1) as nat);
    }
}

/// Reading the bytes that were written for `v` gives `v` back whenever `v`
/// fits in the width.
pub proof fn law_le_read_back(v: nat, n: nat)
    requires
        v < pow256(n),
    ensures
        le_nat(le_bytes(v, n)) == v,
    decreases n,
{
    if n > 0 {
        let rest = le_bytes(v / 256, (n - 1) as nat);
        law_le_read_back(v / 256, (n - 1) as nat);
        assert(le_bytes(v, n).skip(1) =~= rest);
    }
}

/// What each byte counts for: the first for ones, the next for 256s, and so on;
/// read from the other end, the last for ones.
pub proof fn law_places(s: Seq<u8>)
    ensures
        s.len() == 1 ==> le_nat(s) == s[0] && be_nat(s) == s[0],
        s.len() == 2 ==> le_nat(s) == s[0] + 0x100 * s[1] && be_nat(s) == s[1] + 0x100 * s[0],
        s.len() == 4 ==> {
            &&& le_nat(s) == s[0] + 0x100 * s[1] + 0x1_0000 * s[2] + 0x100_0000 * s[3]
            &&& be_nat(s) == s[3] + 0x100 * s[2] + 0x1_0000 * s[1] + 0x100_0000 * s[0]
        },
        s.len() == 8 ==> {
            &&& le_nat(s) == s[0] + 0x100 * s[1] + 0x1_0000 * s[2] + 0x100_0000 * s[3]
                + 0x1_0000_0000 * s[4] + 0x100_0000_0000 * s[5] + 0x1_0000_0000_0000 * s[6]
                + 0x100_0000_0000_0000 * s[7]
            &&& be_nat(s) == s[7] + 0x100 * s[6] + 0x1_0000 * s[5] + 0x100_0000 * s[4]
                + 0x1_0000_0000 * s[3] + 0x100_0000_0000 * s[2] + 0x1_0000_0000_0000 * s[1]
                + 0x100_0000_0000_0000 * s[0]
        },
{
    lemma_le_places(s);
    lemma_le_places(s.reverse());
}

proof fn lemma_le_places(s: Seq<u8>)
    ensures
        s.len() == 1 ==> le_nat(s) == s[0],
        s.len() == 2 ==> le_nat(s) == s[0] + 0x100 * s[1],
        s.len() == 4 ==> le_nat(s) == s[0] + 0x100 * s[1] + 0x1_0000 * s[2] + 0x100_0000 * s[3],
        s.len() == 8 ==> le_nat(s) == s[0] + 0x100 * s[1] + 0x1_0000 * s[2] + 0x100_0000 * s[3]
            + 0x1_0000_0000 * s[4] + 0x100_0000_0000 * s[5] + 0x1_0000_0000_0000 * s[6]
            + 0x100_0000_0000_0000 * s[7],
    decreases s.len(),
{
    if s.len() == 8 {
        let t = s.skip(4);
        lemma_le_places(t);
        reveal_with_fuel(le_nat, 5);
        assert(s.skip(1).skip(1).skip(1).skip(1) =~= t);
    } else if s.len() == 4 {
        let t = s.skip(2);
        lemma_le_places(t);
        reveal_with_fuel(le_nat, 3);
        assert(s.skip(1).skip(1) =~= t);
    } else {
        reveal_with_fuel(le_nat, 3);
    }
}

/// Reads `n` little-endian bytes at `pos`.
pub fn read_le(bytes: &[u8], pos: usize, n: usize) -> (r: u64)
    requires
        n <= 8,
        pos + n <= bytes@.len(),
    ensures
        r == le_nat(bytes@.subrange(pos as int, pos + n)),
        r < pow256(n as nat),
{
    let total: usize = bytes.len();
    let mut v: u64 = 0;
    let mut i: usize = n;
    proof {
        lemma_pow256_values();
        assert(bytes@.subrange(pos + n, pos + n) =~= Seq::<u8>::empty());
    }
    while i > 0
        invariant
            i <= n <= 8,
            pos + n <= total == bytes@.len(),
            v == le_nat(bytes@.subrange(pos + i, pos + n)),
        decreases i,
    {
        let ghost old_i = i as int;
        i = i - 1;
        let b: u8 = bytes[pos + i];
        proof {
            let tail = bytes@.subrange(pos + old_i, pos + n);
            let here = bytes@.subrange(pos + i, pos + n);
            assert(here.skip(1) =~= tail);
            lemma_le_nat_bound(here);
            lemma_pow256_values();
        }
        v = (b as u64) + 256 * v;
    }
    proof {
        lemma_le_nat_bound(bytes@.subrange(pos as int, pos + n));
    }
    v
}

/// Reads `n` big-endian bytes at `pos`.
pub fn read_be(bytes: &[u8], pos: usize, n: usize) -> (r: u64)
    requires
        n <= 8,
        pos + n <= bytes@.len(),
    ensures
        r == be_nat(bytes@.subrange(pos as int, pos + n)),
        r < pow256(n as nat),
{
    let total: usize = bytes.len();
    let mut v: u64 = 0;
    let mut i: usize = 0;
    proof {
        assert(bytes@.subrange(pos as int, pos as int).reverse() =~= Seq::<u8>::empty());
    }
    while i < n
        invariant
            i <= n <= 8,
            pos + n <= total == bytes@.len(),
            v == be_nat(bytes@.subrange(pos as int, pos + i)),
        decreases n - i,
    {
        let b: u8 = bytes[pos + i];
        proof {
            let before = bytes@.subrange(pos as int, pos + i).reverse();
            let after = bytes@.subrange(pos as int, pos + i + 1).reverse();
            assert(after.skip(1) =~= before);
            lemma_le_nat_bound(after);
            lemma_pow256_values();
        }
        v = (b as u64) + 256 * v;
        i = i + 1;
    }
    proof {
        lemma_le_nat_bound(bytes@.subrange(pos as int, pos + n).reverse());
    }
    v
}

/// Appends the low `n` bytes of `v`, least significant first.
pub fn write_le(out: &mut Vec<u8>, v: u64, n: usize)
    ensures
        final(out)@ == old(out)@ + le_bytes(v as nat, n as nat),
{
    let mut rest: u64 = v;
    let mut i: usize = 0;
    proof {
        assert(old(out)@ + le_bytes(v as nat, n as nat) =~= out@ + le_bytes(v as nat, n as nat));
    }
    while i < n
        invariant
            i <= n,
            old(out)@ + le_bytes(v as nat, n as nat) == out@ + le_bytes(
                rest as nat,
                (n - i) as nat,
            ),
        decreases n - i,
    {
        let ghost before = out@;
        let b: u8 = (rest % 256) as u8;
        out.push(b);
        proof {
            assert(before + le_bytes(rest as nat, (n - i) as nat) =~= out@ + le_bytes(
                (rest / 256) as nat,
                (n - i - 1) as nat,
            ));
        }
        rest = rest / 256;
        i = i + 1;
    }
    proof {
        assert(out@ + le_bytes(rest as nat, 0) =~= out@);
    }
}

} // verus!
