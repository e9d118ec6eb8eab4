//! How the format writes the row-offset index, and that [`Tablx::parse`] and
//! [`Tablx::offset_for`] find every row that is in it.
//!
//! [`Tablx::parse`]: crate::filegdb::tablx::Tablx::parse
//! [`Tablx::offset_for`]: crate::filegdb::tablx::Tablx::offset_for

use crate::filegdb::bytes;
use crate::filegdb::error::GdbErrorView;
use crate::filegdb::row_laws;
use crate::filegdb::tablx;
use crate::filegdb::tablx::{TablxHeader, TablxVersion, TablxView};
use crate::filegdb::wire;
use crate::octets;
use vstd::prelude::*;

verus! {

/// A number in four, five or six bytes, the lowest first.
pub open spec fn few(v: nat, width: nat) -> Seq<u8> {
    let low = wire::four(v % 0x1_0000_0000);
    let high = v / 0x1_0000_0000;
    if width == 4 {
        low
    } else if width == 5 {
        low + seq![(high % 256) as u8]
    } else {
        low + wire::two(high)
    }
}

/// Offsets, one behind the other.
pub open spec fn offsets_bytes(s: Seq<u64>, width: nat) -> Seq<u8>
    decreases s.len(),
{
    if s.len() == 0 {
        Seq::empty()
    } else {
        few(s[0] as nat, width) + offsets_bytes(s.skip(1), width)
    }
}

/// Whether every offset fits in that many bytes.
pub open spec fn offsets_fit(s: Seq<u64>, width: nat) -> bool {
    forall|i: int|
        0 <= i < s.len() ==> ((#[trigger] s[i]) < 0x1_0000_0000 || (width == 5 && s[i]
            < 0x100_0000_0000) || (width == 6 && s[i] < 0x1_0000_0000_0000))
}

/// The header: the version, the number of stored blocks, in version 3 the number
/// of rows, and the width of an offset.
pub open spec fn header_bytes(h: TablxHeader) -> Seq<u8> {
    if h.version == TablxVersion::V3 {
        wire::four(3) + (wire::four(h.n_1024_blocks_present as nat) + (wire::four(
            h.total_record_count as nat,
        ) + wire::four(h.offset_size as nat)))
    } else {
        wire::four(4) + (wire::eight(h.n_1024_blocks_present as nat) + wire::four(
            h.offset_size as nat,
        ))
    }
}

/// Whether a header can be: offsets of four to six bytes, and a number of rows
/// only in version 3.
pub open spec fn sound_header(h: TablxHeader) -> bool {
    &&& 4 <= h.offset_size <= 6
    &&& 0 < h.n_1024_blocks_present <= u32::MAX
    &&& if h.version == TablxVersion::V3 {
        0 <= h.total_record_count <= i32::MAX
    } else {
        h.total_record_count == -1
    }
}

/// How many of the first `n` flags are set.
pub open spec fn trues(flags: Seq<bool>, n: int) -> nat
    decreases n,
{
    if n <= 0 {
        0
    } else {
        trues(flags, n - 1) + (if flags[n - 1] {
            1nat
        } else {
            0
        })
    }
}

/// An index that stores every block: the offsets, and a trailer that says that
/// there is no bitmap.
pub open spec fn dense_bytes(h: TablxHeader, offsets: Seq<u64>, last: u32) -> Seq<u8> {
    header_bytes(h) + (offsets_bytes(offsets, h.offset_size as nat) + (wire::four(0) + (wire::four(
        h.n_1024_blocks_present as nat,
    ) + (wire::four(h.n_1024_blocks_present as nat) + wire::four(last as nat)))))
}

/// An index in which a flag for each block says whether it is stored.
pub open spec fn sparse_bytes(
    h: TablxHeader,
    offsets: Seq<u64>,
    words: u32,
    flags: Seq<bool>,
    last: u32,
) -> Seq<u8> {
    header_bytes(h) + (offsets_bytes(offsets, h.offset_size as nat) + (wire::four(words as nat) + (
    wire::four(flags.len()) + (wire::four(h.n_1024_blocks_present as nat) + (wire::four(
        last as nat,
    ) + row_laws::bitmap(flags))))))
}

proof fn lemma_append(s: Seq<u8>, t: Seq<u8>)
    ensures
        octets::le_nat(s + t) == octets::le_nat(s) + octets::pow256(s.len()) * octets::le_nat(t),
    decreases s.len(),
{
    if s.len() == 0 {
        assert(s + t =~= t);
        assert(octets::pow256(0) == 1);
    } else {
        lemma_append(s.skip(1), t);
        assert((s + t).skip(1) =~= s.skip(1) + t);
        let p = octets::pow256((s.len() - 1) as nat);
        let n = octets::le_nat(t);
        assert(256 * (p * n) == (256 * p) * n) by (nonlinear_arith);
    }
}

proof fn lemma_few(v: nat, width: nat)
    requires
        4 <= width <= 6,
        v < 0x1_0000_0000 || (width == 5 && v < 0x100_0000_0000) || (width == 6 && v
            < 0x1_0000_0000_0000),
    ensures
        few(v, width).len() == width,
        octets::le_nat(few(v, width)) == v,
{
    let low = wire::four(v % 0x1_0000_0000);
    let high = v / 0x1_0000_0000;
    octets::law_places(low);
    octets::lemma_pow256_values();
    if width == 5 {
        lemma_append(low, seq![(high % 256) as u8]);
        octets::law_places(seq![(high % 256) as u8]);
    } else if width == 6 {
        lemma_append(low, wire::two(high));
        octets::law_places(wire::two(high));
    }
}

proof fn lemma_offsets(b: Seq<u8>, pos: int, s: Seq<u64>, width: nat, acc: Seq<u64>)
    requires
        4 <= width <= 6,
        offsets_fit(s, width),
        wire::stands(b, pos, offsets_bytes(s, width)),
    ensures
        tablx::offsets_at(b, pos, width as int, s.len(), acc) == (Ok::<Seq<u64>, GdbErrorView>(
            acc + s,
        ), pos + offsets_bytes(s, width).len()),
    decreases s.len(),
{
    if s.len() == 0 {
        assert(acc + s =~= acc);
    } else {
        let f = few(s[0] as nat, width);
        assert(s[0] == s[0]);
        lemma_few(s[0] as nat, width);
        wire::lemma_stands_split(b, pos, f, offsets_bytes(s.skip(1), width));
        assert(bytes::uint_at(b, pos, width as int) == (Ok::<nat, GdbErrorView>(s[0] as nat), pos
            + width));
        assert(offsets_fit(s.skip(1), width)) by {
            assert forall|i: int| 0 <= i < s.skip(1).len() implies ((#[trigger] s.skip(1)[i])
                < 0x1_0000_0000 || (width == 5 && s.skip(1)[i] < 0x100_0000_0000) || (width == 6
                && s.skip(1)[i] < 0x1_0000_0000_0000)) by {
                assert(s.skip(1)[i] == s[i + 1]);
            }
        }
        lemma_offsets(b, pos + width, s.skip(1), width, acc.push(s[0]));
        assert(acc.push(s[0]) + s.skip(1) =~= acc + s);
    }
}

proof fn lemma_four(b: Seq<u8>, pos: int, v: u32, t: Seq<u8>)
    requires
        wire::stands(b, pos, wire::four(v as nat) + t),
    ensures
        bytes::u32_at(b, pos) == (Ok::<u32, GdbErrorView>(v), pos + 4),
        v <= i32::MAX ==> bytes::i32_at(b, pos) == (Ok::<i32, GdbErrorView>(v as i32), pos + 4),
        wire::stands(b, pos + 4, t),
        b.len() >= pos + 4 + t.len(),
{
    wire::lemma_stands_split(b, pos, wire::four(v as nat), t);
    wire::law_numbers_come_back(b, pos);
    if v <= i32::MAX {
        assert(wire::complement(v as i32 as int, 0x1_0000_0000) == v);
    }
}

proof fn lemma_header(b: Seq<u8>, h: TablxHeader, t: Seq<u8>)
    requires
        sound_header(h),
        wire::stands(b, 0, header_bytes(h) + t),
    ensures
        tablx::header_at(b, 0) == (Ok::<TablxHeader, GdbErrorView>(h), header_bytes(h).len() as int),
        wire::stands(b, header_bytes(h).len() as int, t),
{
    wire::lemma_stands_split(b, 0, header_bytes(h), t);
    let o = wire::four(h.offset_size as nat);
    assert(o + Seq::<u8>::empty() =~= o);
    if h.version == TablxVersion::V3 {
        let t1 = wire::four(h.total_record_count as nat) + o;
        let t0 = wire::four(h.n_1024_blocks_present as nat) + t1;
        lemma_four(b, 0, 3, t0);
        lemma_four(b, 4, h.n_1024_blocks_present as u32, t1);
        lemma_four(b, 8, h.total_record_count as u32, o);
        lemma_four(b, 12, h.offset_size, Seq::empty());
    } else {
        let n = wire::eight(h.n_1024_blocks_present as nat);
        lemma_four(b, 0, 4, n + o);
        wire::lemma_stands_split(b, 4, n, o);
        wire::law_numbers_come_back(b, 4);
        lemma_four(b, 12, h.offset_size, Seq::empty());
    }
}

/// An index that stores every block is read back.
pub proof fn law_dense_index_comes_back(
    b: Seq<u8>,
    h: TablxHeader,
    offsets: Seq<u64>,
    last: u32,
)
    requires
        sound_header(h),
        offsets.len() == h.n_1024_blocks_present * 1024,
        offsets_fit(offsets, h.offset_size as nat),
        wire::stands(b, 0, dense_bytes(h, offsets, last)),
    ensures
        tablx::tablx_of(b) == Ok::<TablxView, GdbErrorView>(
            TablxView { header: h, offsets, map: None, bits: 0 },
        ),
{
    let n = h.n_1024_blocks_present;
    let o = offsets_bytes(offsets, h.offset_size as nat);
    let t3 = wire::four(last as nat);
    let t2 = wire::four(n as nat) + t3;
    let t1 = wire::four(n as nat) + t2;
    let t0 = wire::four(0) + t1;
    lemma_header(b, h, o + t0);
    let p = header_bytes(h).len() as int;
    wire::lemma_stands_split(b, p, o, t0);
    lemma_offsets(b, p, offsets, h.offset_size as nat, Seq::empty());
    assert(Seq::empty() + offsets =~= offsets);
    let q = p + o.len();
    lemma_four(b, q, 0, t1);
    lemma_four(b, q + 4, n as u32, t2);
    lemma_four(b, q + 8, n as u32, t3);
}

proof fn lemma_ones(flags: Seq<bool>, k: int)
    requires
        0 <= k <= 8 * row_laws::bitmap(flags).len(),
    ensures
        tablx::ones_before(row_laws::bitmap(flags), k) == trues(
            flags,
            if k <= flags.len() {
                k
            } else {
                flags.len() as int
            },
        ),
    decreases k,
{
    if k > 0 {
        lemma_ones(flags, k - 1);
        if k <= flags.len() {
            row_laws::lemma_packed_bit(flags, k - 1);
        } else {
            lemma_padding(flags, k - 1);
        }
    }
}

/// Bits behind the flags are not set.
proof fn lemma_padding(flags: Seq<bool>, k: int)
    requires
        flags.len() <= k < 8 * row_laws::bitmap(flags).len(),
    ensures
        !tablx::bit_set(row_laws::bitmap(flags), k),
{
    let more = flags + Seq::new((k + 1 - flags.len()) as nat, |i: int| false);
    assert(row_laws::bitmap(more) =~= row_laws::bitmap(flags)) by {
        assert forall|j: int| 0 <= j < row_laws::bitmap(flags).len() implies row_laws::bitmap(
            more,
        )[j] == row_laws::bitmap(flags)[j] by {
            assert forall|i: int| 0 <= i implies #[trigger] row_laws::flag(more, i)
                == row_laws::flag(flags, i) by {}
        }
    }
    row_laws::lemma_packed_bit(more, k);
}

/// An index with missing blocks is read back: its bitmap is the flags, packed
/// eight to a byte.
pub proof fn law_sparse_index_comes_back(
    b: Seq<u8>,
    h: TablxHeader,
    offsets: Seq<u64>,
    words: u32,
    flags: Seq<bool>,
    last: u32,
)
    requires
        sound_header(h),
        offsets.len() == h.n_1024_blocks_present * 1024,
        offsets_fit(offsets, h.offset_size as nat),
        words > 0,
        flags.len() <= u32::MAX,
        trues(flags, flags.len() as int) == h.n_1024_blocks_present,
        wire::stands(b, 0, sparse_bytes(h, offsets, words, flags, last)),
    ensures
        tablx::tablx_of(b) == Ok::<TablxView, GdbErrorView>(
            TablxView {
                header: h,
                offsets,
                map: Some(row_laws::bitmap(flags)),
                bits: flags.len() as u32,
            },
        ),
{
    let n = h.n_1024_blocks_present;
    let o = offsets_bytes(offsets, h.offset_size as nat);
    let m = row_laws::bitmap(flags);
    let t3 = wire::four(last as nat) + m;
    let t2 = wire::four(n as nat) + t3;
    let t1 = wire::four(flags.len()) + t2;
    let t0 = wire::four(words as nat) + t1;
    lemma_header(b, h, o + t0);
    let p = header_bytes(h).len() as int;
    wire::lemma_stands_split(b, p, o, t0);
    lemma_offsets(b, p, offsets, h.offset_size as nat, Seq::empty());
    assert(Seq::empty() + offsets =~= offsets);
    let q = p + o.len();
    lemma_four(b, q, words, t1);
    lemma_four(b, q + 4, flags.len() as u32, t2);
    lemma_four(b, q + 8, n as u32, t3);
    lemma_four(b, q + 12, last, m);
    lemma_ones(flags, 8 * m.len() as int);
}

/// In an index that stores every block, row `row` has the offset at that place;
/// an offset of zero, or none, means that there is no such row.
pub proof fn law_dense_rows(h: TablxHeader, offsets: Seq<u64>, row: int)
    requires
        0 <= row,
        offsets.len() == h.n_1024_blocks_present * 1024,
    ensures
        tablx::row_offset(TablxView { header: h, offsets, map: None, bits: 0 }, row) == (if row
            < offsets.len() && offsets[row] != 0 {
            Some(offsets[row])
        } else {
            None
        }),
{
}

/// In an index with missing blocks, row `row` is there where its block of 1024
/// is stored; its offset then stands in the block that follows as many stored
/// blocks as come before.
pub proof fn law_sparse_rows(h: TablxHeader, offsets: Seq<u64>, flags: Seq<bool>, row: int)
    requires
        0 <= row,
        flags.len() <= u32::MAX,
        trues(flags, flags.len() as int) == h.n_1024_blocks_present,
        offsets.len() == h.n_1024_blocks_present * 1024,
    ensures
        ({
            let t = TablxView {
                header: h,
                offsets,
                map: Some(row_laws::bitmap(flags)),
                bits: flags.len() as u32,
            };
            let block = row / 1024;
            let place = trues(flags, block) * 1024 + row % 1024;
            if block >= flags.len() || !flags[block] {
                tablx::row_offset(t, row) is None
            } else {
                &&& place < offsets.len()
                &&& tablx::row_offset(t, row) == (if offsets[place] != 0 {
                    Some(offsets[place])
                } else {
                    None
                })
            }
        }),
{
    let block = row / 1024;
    if block < flags.len() {
        row_laws::lemma_packed_bit(flags, block);
        lemma_ones(flags, block);
        if flags[block] {
            lemma_trues_grow(flags, block + 1, flags.len() as int);
            assert(trues(flags, block + 1) == trues(flags, block) + 1);
        }
    }
}

proof fn lemma_trues_grow(flags: Seq<bool>, j: int, k: int)
    requires
        0 <= j <= k <= flags.len(),
    ensures
        trues(flags, j) <= trues(flags, k),
    decreases k,
{
    if j < k {
        lemma_trues_grow(flags, j, k - 1);
    }
}

} // verus!
