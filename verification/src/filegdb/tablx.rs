//! The row-offset index of a table.
//!
//! It maps a row (counted from 0) to a byte offset in the table. Offsets are
//! stored in blocks of 1024. Where whole blocks are missing, a bitmap says which
//! logical blocks are stored; the stored blocks follow each other in order. An
//! offset of zero means that the row is deleted.

use crate::filegdb::bytes;
use crate::filegdb::bytes::{LeReader, Step};
use crate::filegdb::error::{GdbError, GdbErrorView};
use crate::text;
use crate::text::{push_dec, push_signed};
use vstd::prelude::*;
use vstd::slice::slice_to_vec;
use vstd::string::*;

verus! {

#[derive(Debug, Clone, Copy, PartialEq, Eq, Structural)]
pub enum TablxVersion {
    /// 32-bit object identifiers.
    V3,
    /// 64-bit object identifiers.
    V4,
}

/// The first sixteen bytes.
#[derive(Debug, Clone, Copy, PartialEq, Eq, Structural)]
pub struct TablxHeader {
    pub version: TablxVersion,
    /// How many blocks of 1024 offsets are stored.
    pub n_1024_blocks_present: u64,
    /// How many rows there are; -1 in version 4, which states it elsewhere.
    pub total_record_count: i64,
    /// Bytes in each offset: 4, 5 or 6.
    pub offset_size: u32,
}

/// The index.
#[derive(Debug)]
pub struct Tablx {
    pub header: TablxHeader,
    /// The stored offsets.
    pub offsets_raw: Vec<u64>,
    /// Which logical blocks are stored, where some are missing.
    pub block_map: Option<Vec<u8>>,
    /// How many bits of the bitmap count.
    pub bits_for_block_map: u32,
}

/// A [`Tablx`] as sequences.
#[verifier::ext_equal]
pub struct TablxView {
    pub header: TablxHeader,
    pub offsets: Seq<u64>,
    pub map: Option<Seq<u8>>,
    pub bits: u32,
}

/// The view of an optional bitmap.
pub open spec fn map_view(m: Option<Vec<u8>>) -> Option<Seq<u8>> {
    match m {
        None => None,
        Some(m) => Some(m@),
    }
}

impl View for Tablx {
    type V = TablxView;

    open spec fn view(&self) -> TablxView {
        TablxView {
            header: self.header,
            offsets: self.offsets_raw@,
            map: map_view(self.block_map),
            bits: self.bits_for_block_map,
        }
    }
}

// ---------------------------------------------------------------------------
// What the bytes say
// ---------------------------------------------------------------------------
/// A header with those numbers, or the first thing that is wrong with them.
pub open spec fn checked_header(h: TablxHeader) -> Result<TablxHeader, GdbErrorView> {
    if h.offset_size < 4 || h.offset_size > 6 {
        Err(
            GdbErrorView::Malformed(
                ".gdbtablx offset_size "@ + text::dec(h.offset_size as nat)
                    + " out of range (4..=6)"@,
            ),
        )
    } else if h.version == TablxVersion::V3 && h.n_1024_blocks_present == 0 && h.total_record_count
        != 0 {
        Err(GdbErrorView::Malformed(".gdbtablx v3 declares no blocks but nonzero records"@))
    } else if h.version == TablxVersion::V3 && h.total_record_count < 0 {
        Err(
            GdbErrorView::Malformed(
                ".gdbtablx v3 negative total_record_count "@ + text::signed_dec(
                    h.total_record_count as int,
                ),
            ),
        )
    } else {
        Ok(h)
    }
}

/// The rest of a version 3 header.
pub open spec fn header_v3_at(b: Seq<u8>, pos: int) -> Step<TablxHeader> {
    match bytes::u32_at(b, pos) {
        (Err(e), p) => (Err(e), p),
        (Ok(n), p) => match bytes::i32_at(b, p) {
            (Err(e), p) => (Err(e), p),
            (Ok(total), p) => match bytes::u32_at(b, p) {
                (Err(e), p) => (Err(e), p),
                (Ok(osz), p) => (
                    checked_header(
                        TablxHeader {
                            version: TablxVersion::V3,
                            n_1024_blocks_present: n as u64,
                            total_record_count: total as i64,
                            offset_size: osz,
                        },
                    ),
                    p,
                ),
            },
        },
    }
}

/// The rest of a version 4 header.
pub open spec fn header_v4_at(b: Seq<u8>, pos: int) -> Step<TablxHeader> {
    match bytes::u64_at(b, pos) {
        (Err(e), p) => (Err(e), p),
        (Ok(n), p) => match bytes::u32_at(b, p) {
            (Err(e), p) => (Err(e), p),
            (Ok(osz), p) => (
                checked_header(
                    TablxHeader {
                        version: TablxVersion::V4,
                        n_1024_blocks_present: n,
                        total_record_count: -1i64,
                        offset_size: osz,
                    },
                ),
                p,
            ),
        },
    }
}

/// The header at `pos`.
pub open spec fn header_at(b: Seq<u8>, pos: int) -> Step<TablxHeader> {
    match bytes::u32_at(b, pos) {
        (Err(e), p) => (Err(e), p),
        (Ok(v), p) => if v == 3 {
            header_v3_at(b, p)
        } else if v == 4 {
            header_v4_at(b, p)
        } else {
            (
                Err(
                    GdbErrorView::Malformed(
                        "unknown .gdbtablx version "@ + text::dec(v as nat),
                    ),
                ),
                p,
            )
        },
    }
}

/// `n` more offsets of `width` bytes at `pos`, behind those in `acc`.
pub open spec fn offsets_at(b: Seq<u8>, pos: int, width: int, n: nat, acc: Seq<u64>) -> Step<
    Seq<u64>,
>
    decreases n,
{
    if n == 0 {
        (Ok(acc), pos)
    } else {
        match bytes::uint_at(b, pos, width) {
            (Err(e), p) => (Err(e), p),
            (Ok(v), p) => offsets_at(b, p, width, (n - 1) as nat, acc.push(v as u64)),
        }
    }
}

/// Bit `k` of a byte, counted from the low end.
pub open spec fn bit(b: u8, k: int) -> bool {
    (b as int / (if k == 0 {
        1int
    } else if k == 1 {
        2
    } else if k == 2 {
        4
    } else if k == 3 {
        8
    } else if k == 4 {
        16
    } else if k == 5 {
        32
    } else if k == 6 {
        64
    } else {
        128
    })) % 2 == 1
}

/// Bit `i` of a bitmap, counted from the low end of the first byte; bits
/// behind the end are unset.
pub open spec fn bit_set(m: Seq<u8>, i: int) -> bool {
    0 <= i && i / 8 < m.len() && bit(m[i / 8], i % 8)
}

/// How many of the first `k` bits are set.
pub open spec fn ones_before(m: Seq<u8>, k: int) -> nat
    decreases k,
{
    if k <= 0 {
        0
    } else {
        ones_before(m, k - 1) + (if bit_set(m, k - 1) {
            1nat
        } else {
            0
        })
    }
}

/// How many bytes hold that many bits.
pub open spec fn bytes_for(bits: int) -> int {
    (bits + 7) / 8
}

/// The four numbers behind the offsets.
pub struct Trailer {
    pub words: u32,
    pub bits: u32,
    pub blocks: u32,
}

/// The trailer at `pos`. Its fourth number is not used.
pub open spec fn trailer_at(b: Seq<u8>, pos: int) -> Step<Trailer> {
    if b.len() - pos < 16 {
        (Err(GdbErrorView::Malformed(".gdbtablx truncated: missing trailer"@)), pos)
    } else {
        let words = bytes::u32_at(b, pos).0->Ok_0;
        let bits = bytes::u32_at(b, pos + 4).0->Ok_0;
        let blocks = bytes::u32_at(b, pos + 8).0->Ok_0;
        (Ok(Trailer { words, bits, blocks }), pos + 16)
    }
}

/// The bitmap that the trailer announces at `pos`, if it announces one.
pub open spec fn block_map_at(b: Seq<u8>, pos: int, t: Trailer, n: u64) -> Result<
    Option<Seq<u8>>,
    GdbErrorView,
> {
    let len = bytes_for(t.bits as int);
    if t.blocks != n {
        Err(
            GdbErrorView::Malformed(
                ".gdbtablx trailer block count "@ + text::dec(t.blocks as nat) + " != header "@
                    + text::dec(n as nat),
            ),
        )
    } else if t.words == 0 {
        if t.bits != n {
            Err(
                GdbErrorView::Malformed(
                    ".gdbtablx trailer says no bitmap but block counts disagree"@,
                ),
            )
        } else {
            Ok(None)
        }
    } else if b.len() - pos < len {
        Err(
            GdbErrorView::Malformed(
                ".gdbtablx block-map bitmap declares "@ + text::dec(len as nat)
                    + " bytes but only "@ + text::dec((b.len() - pos) as nat) + " remain"@,
            ),
        )
    } else {
        let m = b.subrange(pos, pos + len);
        let ones = ones_before(m, 8 * len);
        if ones != n {
            Err(
                GdbErrorView::Malformed(
                    ".gdbtablx block-map popcount "@ + text::dec(ones)
                        + " != n_1024_blocks_present "@ + text::dec(n as nat),
                ),
            )
        } else {
            Ok(Some(m))
        }
    }
}

/// How many offsets the header announces, as far as that fits in 64 bits.
pub open spec fn offset_count(n: u64) -> nat {
    if n * 1024 > u64::MAX {
        u64::MAX as nat
    } else {
        (n * 1024) as nat
    }
}

/// The index that the bytes hold.
pub open spec fn tablx_of(b: Seq<u8>) -> Result<TablxView, GdbErrorView> {
    match header_at(b, 0) {
        (Err(e), _) => Err(e),
        (Ok(h), p) => match offsets_at(
            b,
            p,
            h.offset_size as int,
            offset_count(h.n_1024_blocks_present),
            Seq::empty(),
        ) {
            (Err(e), _) => Err(e),
            (Ok(s), q) => if h.n_1024_blocks_present == 0 {
                Ok(TablxView { header: h, offsets: s, map: None, bits: 0 })
            } else {
                match trailer_at(b, q) {
                    (Err(e), _) => Err(e),
                    (Ok(t), r) => match block_map_at(b, r, t, h.n_1024_blocks_present) {
                        Err(e) => Err(e),
                        Ok(m) => Ok(
                            TablxView {
                                header: h,
                                offsets: s,
                                map: m,
                                bits: if t.words != 0 {
                                    t.bits
                                } else {
                                    0
                                },
                            },
                        ),
                    },
                }
            },
        },
    }
}

// ---------------------------------------------------------------------------
// What the index says
// ---------------------------------------------------------------------------
/// Whether the parts of an index fit together: 1024 offsets for each stored
/// block, as many bits set as blocks are stored, and no more blocks than the
/// trailer can count.
pub open spec fn wf_tablx(t: TablxView) -> bool {
    &&& t.header.n_1024_blocks_present <= u32::MAX
    &&& t.offsets.len() == t.header.n_1024_blocks_present * 1024
    &&& t.map matches Some(m) ==> {
        &&& m.len() == bytes_for(t.bits as int)
        &&& ones_before(m, 8 * m.len() as int) == t.header.n_1024_blocks_present
    }
}

/// How many logical blocks there are.
pub open spec fn block_count(t: TablxView) -> int {
    match t.map {
        Some(_) => t.bits as int,
        None => t.header.n_1024_blocks_present as int,
    }
}

/// Which stored block a logical block is, if it is stored.
pub open spec fn stored_block(t: TablxView, block: int) -> Option<int> {
    if block >= block_count(t) {
        None
    } else {
        match t.map {
            None => Some(block),
            Some(m) => if bit_set(m, block) {
                Some(ones_before(m, block) as int)
            } else {
                None
            },
        }
    }
}

/// The offset of a row, if the row is there.
pub open spec fn row_offset(t: TablxView, row: int) -> Option<u64> {
    match stored_block(t, row / 1024) {
        None => None,
        Some(k) => {
            let i = k * 1024 + row % 1024;
            if i >= t.offsets.len() || t.offsets[i] == 0 {
                None
            } else {
                Some(t.offsets[i])
            }
        },
    }
}

/// The rows below `n` that are there, with their offsets, in order.
pub open spec fn rows_below(t: TablxView, n: int) -> Seq<(u64, u64)>
    decreases n,
{
    if n <= 0 {
        Seq::empty()
    } else {
        match row_offset(t, n - 1) {
            None => rows_below(t, n - 1),
            Some(o) => rows_below(t, n - 1).push(((n - 1) as u64, o)),
        }
    }
}

/// All the rows that are there, with their offsets, in order.
pub open spec fn present_rows(t: TablxView) -> Seq<(u64, u64)> {
    rows_below(t, block_count(t) * 1024)
}

proof fn lemma_rows_below(t: TablxView, n: int)
    requires
        n <= u64::MAX,
    ensures
        forall|k: int|
            0 <= k < rows_below(t, n).len() ==> {
                let (row, o) = #[trigger] rows_below(t, n)[k];
                row < n && row_offset(t, row as int) == Some(o)
            },
        forall|j: int, k: int|
            0 <= j < k < rows_below(t, n).len() ==> (#[trigger] rows_below(t, n)[j]).0 < (
            #[trigger] rows_below(t, n)[k]).0,
        forall|row: int|
            #![trigger row_offset(t, row)]
            0 <= row < n && row_offset(t, row) is Some ==> rows_below(t, n).contains(
                (row as u64, row_offset(t, row)->0),
            ),
    decreases n,
{
    if n > 0 {
        lemma_rows_below(t, n - 1);
        let s = rows_below(t, n - 1);
        let u = rows_below(t, n);
        assert forall|row: int|
            #![trigger row_offset(t, row)]
            0 <= row < n && row_offset(t, row) is Some implies u.contains(
            (row as u64, row_offset(t, row)->0),
        ) by {
            let x = (row as u64, row_offset(t, row)->0);
            if row == n - 1 {
                assert(u[u.len() - 1] == x);
            } else {
                assert(s.contains(x));
                let k = choose|k: int| 0 <= k < s.len() && s[k] == x;
                assert(u[k] == x);
            }
        }
    }
}

/// The rows listed are exactly those that a lookup finds, each once and in
/// ascending order.
pub proof fn law_listed_rows_are_the_present_rows(t: TablxView)
    requires
        block_count(t) * 1024 <= u64::MAX,
    ensures
        forall|k: int|
            0 <= k < present_rows(t).len() ==> {
                let (row, o) = #[trigger] present_rows(t)[k];
                row_offset(t, row as int) == Some(o)
            },
        forall|j: int, k: int|
            0 <= j < k < present_rows(t).len() ==> (#[trigger] present_rows(t)[j]).0 < (
            #[trigger] present_rows(t)[k]).0,
        forall|row: int|
            #![trigger row_offset(t, row)]
            0 <= row && row_offset(t, row) is Some ==> present_rows(t).contains(
                (row as u64, row_offset(t, row)->0),
            ),
{
    lemma_rows_below(t, block_count(t) * 1024);
    assert forall|row: int|
        #![trigger row_offset(t, row)]
        0 <= row && row_offset(t, row) is Some implies row < block_count(t) * 1024 by {
        assert(row / 1024 < block_count(t));
    }
}

/// Every listed row is below 2^42.
pub proof fn lemma_present_rows_bound(t: TablxView)
    requires
        wf_tablx(t),
    ensures
        forall|k: int|
            0 <= k < present_rows(t).len() ==> (#[trigger] present_rows(t)[k]).0 < 0x400_0000_0000,
{
    lemma_rows_below(t, block_count(t) * 1024);
}

/// More bits hold at least as many ones.
proof fn lemma_ones_grow(m: Seq<u8>, j: int, k: int)
    requires
        j <= k,
    ensures
        ones_before(m, j) <= ones_before(m, k),
    decreases k,
{
    if k > 0 && j < k {
        lemma_ones_grow(m, j, k - 1);
    }
}

/// Where the parts of an index fit together, every row of a logical block that
/// is stored has an offset: none lies behind the end.
pub proof fn law_stored_blocks_have_offsets(t: TablxView, row: int)
    requires
        wf_tablx(t),
        0 <= row,
        stored_block(t, row / 1024) is Some,
    ensures
        0 <= stored_block(t, row / 1024)->0 * 1024 + row % 1024 < t.offsets.len(),
{
    let block = row / 1024;
    if let Some(m) = t.map {
        assert(ones_before(m, block + 1) == ones_before(m, block) + 1);
        assert(block + 1 <= 8 * m.len());
        lemma_ones_grow(m, block + 1, 8 * m.len() as int);
    }
}

// ---------------------------------------------------------------------------
// Code
// ---------------------------------------------------------------------------
fn unknown_version(v: u32) -> (r: GdbError)
    ensures
        r@ == GdbErrorView::Malformed("unknown .gdbtablx version "@ + text::dec(v as nat)),
{
    let mut m: String = "unknown .gdbtablx version ".to_owned();
    push_dec(&mut m, v as u64);
    GdbError::malformed(m)
}

fn check_header(h: TablxHeader) -> (r: Result<TablxHeader, GdbError>)
    ensures
        bytes::plain(r) == checked_header(h),
{
    if h.offset_size < 4 || h.offset_size > 6 {
        let mut m: String = ".gdbtablx offset_size ".to_owned();
        push_dec(&mut m, h.offset_size as u64);
        m.append(" out of range (4..=6)");
        return Err(GdbError::malformed(m));
    }
    if h.version == TablxVersion::V3 {
        if h.n_1024_blocks_present == 0 && h.total_record_count != 0 {
            return Err(
                GdbError::malformed(
                    ".gdbtablx v3 declares no blocks but nonzero records".to_owned(),
                ),
            );
        }
        if h.total_record_count < 0 {
            let mut m: String = ".gdbtablx v3 negative total_record_count ".to_owned();
            push_signed(&mut m, h.total_record_count);
            return Err(GdbError::malformed(m));
        }
    }
    Ok(h)
}

/// Parses the header.
pub fn parse_tablx_header(r: &mut LeReader) -> (res: Result<TablxHeader, GdbError>)
    requires
        old(r).wf(),
    ensures
        final(r).wf(),
        final(r).data() == old(r).data(),
        header_at(old(r).data(), old(r).at()) == (bytes::plain(res), final(r).at()),
{
    let version: u32 = match r.read_u32() {
        Err(e) => return Err(e),
        Ok(v) => v,
    };
    if version == 3 {
        let n: u32 = match r.read_u32() {
            Err(e) => return Err(e),
            Ok(v) => v,
        };
        let total: i32 = match r.read_i32() {
            Err(e) => return Err(e),
            Ok(v) => v,
        };
        let osz: u32 = match r.read_u32() {
            Err(e) => return Err(e),
            Ok(v) => v,
        };
        check_header(
            TablxHeader {
                version: TablxVersion::V3,
                n_1024_blocks_present: n as u64,
                total_record_count: total as i64,
                offset_size: osz,
            },
        )
    } else if version == 4 {
        let n: u64 = match r.read_u64() {
            Err(e) => return Err(e),
            Ok(v) => v,
        };
        let osz: u32 = match r.read_u32() {
            Err(e) => return Err(e),
            Ok(v) => v,
        };
        check_header(
            TablxHeader {
                version: TablxVersion::V4,
                n_1024_blocks_present: n,
                total_record_count: -1,
                offset_size: osz,
            },
        )
    } else {
        Err(unknown_version(version))
    }
}

/// Bit `k` of a byte, counted from the low end.
pub fn bit_of(b: u8, k: usize) -> (r: bool)
    requires
        k < 8,
    ensures
        r == bit(b, k as int),
{
    let d: u8 = if k == 0 {
        1
    } else if k == 1 {
        2
    } else if k == 2 {
        4
    } else if k == 3 {
        8
    } else if k == 4 {
        16
    } else if k == 5 {
        32
    } else if k == 6 {
        64
    } else {
        128
    };
    (b / d) % 2 == 1
}

/// Bit `i` of a bitmap.
pub fn test_bit(m: &[u8], i: usize) -> (r: bool)
    ensures
        r == bit_set(m@, i as int),
{
    let byte: usize = i / 8;
    if byte < m.len() {
        bit_of(m[byte], i % 8)
    } else {
        false
    }
}

/// How many of the first `k` bits are set.
fn count_ones(m: &Vec<u8>, k: usize) -> (r: usize)
    ensures
        r == ones_before(m@, k as int),
        r <= k,
{
    let mut n: usize = 0;
    let mut i: usize = 0;
    while i < k
        invariant
            i <= k,
            n == ones_before(m@, i as int),
            n <= i,
        decreases k - i,
    {
        if test_bit(m.as_slice(), i) {
            n = n + 1;
        }
        i = i + 1;
    }
    n
}

fn read_offsets(r: &mut LeReader, width: u32, n: u64) -> (res: Result<Vec<u64>, GdbError>)
    requires
        old(r).wf(),
        4 <= width <= 6,
    ensures
        final(r).wf(),
        final(r).data() == old(r).data(),
        offsets_at(old(r).data(), old(r).at(), width as int, n as nat, Seq::empty()) == (
            match res {
                Ok(v) => Ok::<Seq<u64>, GdbErrorView>(v@),
                Err(e) => Err(e@),
            },
            final(r).at(),
        ),
        res matches Ok(v) ==> v@.len() == n,
{
    let ghost b = r.data();
    let ghost start = r.at();
    let mut v: Vec<u64> = Vec::new();
    let mut i: u64 = 0;
    while i < n
        invariant
            i <= n,
            4 <= width <= 6,
            r.wf(),
            r.data() == b,
            b == old(r).data(),
            start == old(r).at(),
            v@.len() == i,
            offsets_at(b, start, width as int, n as nat, Seq::empty()) == offsets_at(
                b,
                r.at(),
                width as int,
                (n - i) as nat,
                v@,
            ),
        decreases n - i,
    {
        match r.read_uint_le(width as usize) {
            Err(e) => return Err(e),
            Ok(o) => {
                v.push(o);
            },
        }
        i = i + 1;
    }
    Ok(v)
}

fn read_trailer(r: &mut LeReader) -> (res: Result<Trailer, GdbError>)
    requires
        old(r).wf(),
    ensures
        final(r).wf(),
        final(r).data() == old(r).data(),
        trailer_at(old(r).data(), old(r).at()) == (bytes::plain(res), final(r).at()),
{
    if r.remaining() < 16 {
        return Err(GdbError::malformed(".gdbtablx truncated: missing trailer".to_owned()));
    }
    let words: u32 = match r.read_u32() {
        Err(e) => return Err(e),
        Ok(v) => v,
    };
    let bits: u32 = match r.read_u32() {
        Err(e) => return Err(e),
        Ok(v) => v,
    };
    let blocks: u32 = match r.read_u32() {
        Err(e) => return Err(e),
        Ok(v) => v,
    };
    match r.read_u32() {
        Err(e) => return Err(e),
        Ok(_) => {},
    }
    Ok(Trailer { words, bits, blocks })
}

fn read_block_map(r: &mut LeReader, t: &Trailer, n: u64) -> (res: Result<Option<Vec<u8>>, GdbError>)
    requires
        old(r).wf(),
    ensures
        final(r).wf(),
        final(r).data() == old(r).data(),
        block_map_at(old(r).data(), old(r).at(), *t, n) == match res {
            Ok(m) => Ok::<Option<Seq<u8>>, GdbErrorView>(map_view(m)),
            Err(e) => Err(e@),
        },
{
    if t.blocks as u64 != n {
        let mut m: String = ".gdbtablx trailer block count ".to_owned();
        push_dec(&mut m, t.blocks as u64);
        m.append(" != header ");
        push_dec(&mut m, n);
        return Err(GdbError::malformed(m));
    }
    if t.words == 0 {
        if t.bits as u64 != n {
            return Err(
                GdbError::malformed(
                    ".gdbtablx trailer says no bitmap but block counts disagree".to_owned(),
                ),
            );
        }
        return Ok(None);
    }
    let extra: u32 = if t.bits % 8 == 0 {
        0
    } else {
        1
    };
    let len: usize = (t.bits / 8 + extra) as usize;
    let left: usize = r.remaining();
    if left < len {
        let mut m: String = ".gdbtablx block-map bitmap declares ".to_owned();
        push_dec(&mut m, len as u64);
        m.append(" bytes but only ");
        push_dec(&mut m, left as u64);
        m.append(" remain");
        return Err(GdbError::malformed(m));
    }
    match r.read_bytes(len) {
        Err(e) => Err(e),
        Ok(s) => {
            let map: Vec<u8> = slice_to_vec(s);
            let mut ones: u64 = 0;
            let mut i: usize = 0;
            while i < len
                invariant
                    i <= len == map@.len(),
                    len <= 0x2000_0000,
                    ones == ones_before(map@, 8 * i),
                    ones <= 8 * i,
                decreases len - i,
            {
                let mut k: usize = 0;
                while k < 8
                    invariant
                        k <= 8,
                        i < len == map@.len(),
                        len <= 0x2000_0000,
                        ones == ones_before(map@, 8 * i + k),
                        ones <= 8 * i + k,
                    decreases 8 - k,
                {
                    if bit_of(map[i], k) {
                        ones = ones + 1;
                    }
                    k = k + 1;
                }
                i = i + 1;
            }
            if ones != n {
                let mut m: String = ".gdbtablx block-map popcount ".to_owned();
                push_dec(&mut m, ones);
                m.append(" != n_1024_blocks_present ");
                push_dec(&mut m, n);
                return Err(GdbError::malformed(m));
            }
            Ok(Some(map))
        },
    }
}

impl Tablx {
    /// Whether the parts of the index fit together.
    pub open spec fn wf(&self) -> bool {
        wf_tablx(self@)
    }

    /// Parses an index.
    pub fn parse(bytes: &[u8]) -> (res: Result<Tablx, GdbError>)
        ensures
            match res {
                Ok(t) => tablx_of(bytes@) == Ok::<TablxView, GdbErrorView>(t@) && t.wf(),
                Err(e) => tablx_of(bytes@) == Err::<TablxView, GdbErrorView>(e@),
            },
    {
        let mut r = LeReader::new(bytes);
        let header: TablxHeader = match parse_tablx_header(&mut r) {
            Err(e) => return Err(e),
            Ok(h) => h,
        };
        let n: u64 = header.n_1024_blocks_present;
        let count: u64 = if n > 0x3f_ffff_ffff_ffff {
            u64::MAX
        } else {
            n * 1024
        };
        let offsets_raw: Vec<u64> = match read_offsets(&mut r, header.offset_size, count) {
            Err(e) => return Err(e),
            Ok(v) => v,
        };
        if n == 0 {
            return Ok(Tablx { header, offsets_raw, block_map: None, bits_for_block_map: 0 });
        }
        let t: Trailer = match read_trailer(&mut r) {
            Err(e) => return Err(e),
            Ok(t) => t,
        };
        let block_map: Option<Vec<u8>> = match read_block_map(&mut r, &t, n) {
            Err(e) => return Err(e),
            Ok(m) => m,
        };
        let bits_for_block_map: u32 = if t.words != 0 {
            t.bits
        } else {
            0
        };
        Ok(Tablx { header, offsets_raw, block_map, bits_for_block_map })
    }

    /// The offset of a row (counted from 0), if the row is there.
    pub fn offset_for(&self, row_idx: u64) -> (r: Option<u64>)
        ensures
            r == row_offset(self@, row_idx as int),
    {
        let block: u64 = row_idx / 1024;
        let i: u64 = match &self.block_map {
            None => {
                if block >= self.header.n_1024_blocks_present {
                    return None;
                }
                row_idx
            },
            Some(m) => {
                if block >= self.bits_for_block_map as u64 {
                    return None;
                }
                if !test_bit(m.as_slice(), block as usize) {
                    return None;
                }
                count_ones(m, block as usize) as u64 * 1024 + row_idx % 1024
            },
        };
        if i >= self.offsets_raw.len() as u64 {
            return None;
        }
        let raw: u64 = self.offsets_raw[i as usize];
        if raw == 0 {
            None
        } else {
            Some(raw)
        }
    }

    /// The rows that are there, with their offsets, in order.
    pub fn iter_present(&self) -> (r: Vec<(u64, u64)>)
        requires
            block_count(self@) * 1024 <= u64::MAX,
        ensures
            r@ == present_rows(self@),
    {
        let blocks: u64 = match &self.block_map {
            Some(_) => self.bits_for_block_map as u64,
            None => self.header.n_1024_blocks_present,
        };
        let rows: u64 = blocks * 1024;
        let mut v: Vec<(u64, u64)> = Vec::new();
        let mut i: u64 = 0;
        while i < rows
            invariant
                i <= rows,
                v@ == rows_below(self@, i as int),
            decreases rows - i,
        {
            match self.offset_for(i) {
                None => {},
                Some(o) => {
                    v.push((i, o));
                },
            }
            i = i + 1;
        }
        v
    }
}

} // verus!
