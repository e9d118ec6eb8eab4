//! Which layers a catalog lists, and where their files are.

use crate::filegdb::catalog;
use crate::filegdb::catalog::LayerInfoView;
use crate::filegdb::error::GdbErrorView;
use crate::filegdb::row;
use crate::filegdb::table;
use crate::filegdb::table::{FieldSectionView, FieldView};
use crate::filegdb::tablx;
use crate::paths;
use crate::paths_laws;
use crate::text;
use crate::text_laws;
use crate::value::ValueView;
use vstd::prelude::*;
use vstd::string::*;

verus! {

/// The name of a system table begins with `GDB_`, and no other name does.
pub proof fn law_system_names(name: Seq<char>)
    ensures
        catalog::system_name(name) <==> name.len() >= 4 && name[0] == 'G' && name[1] == 'D'
            && name[2] == 'B' && name[3] == '_',
{
    reveal_strlit("GDB_");
    if name.len() >= 4 {
        let s = name.subrange(0, 4);
        assert(s[0] == name[0] && s[1] == name[1] && s[2] == name[2] && s[3] == name[3]);
        if name[0] == 'G' && name[1] == 'D' && name[2] == 'B' && name[3] == '_' {
            assert(s =~= "GDB_"@);
        }
    }
}

/// The file of a table is named by the table's number: an `a`, the number in
/// hexadecimal with eight small digits or more, and the extension.
pub proof fn law_file_names(fid: i64)
    requires
        0 <= fid,
    ensures
        ({
            let name = catalog::filename_of(fid);
            let digits = name.subrange(1, name.len() - 9);
            &&& name.len() >= 18
            &&& name[0] == 'a'
            &&& name.skip(name.len() - 9) == ".gdbtable"@
            &&& text_laws::numeral(digits, 16)
            &&& text_laws::reads(digits, 16) == fid
            &&& digits.len() > 8 ==> digits[0] != '0'
        }),
{
    let name = catalog::filename_of(fid);
    let h = text::hex8(fid as nat, false);
    reveal_strlit("a");
    reveal_strlit(".gdbtable");
    text_laws::law_eight_digits_read_back(fid as nat, false);
    assert(name.subrange(1, name.len() - 9) =~= h);
    assert(name.skip(name.len() - 9) =~= ".gdbtable"@);
}

proof fn lemma_hex_plain(n: nat)
    ensures
        !text::hex8(n, false).contains('/'),
        !text::hex8(n, false).contains('.'),
        text::hex8(n, false).len() > 0,
{
    text_laws::law_eight_digits_read_back(n, false);
    let h = text::hex8(n, false);
    if h.contains('/') {
        let i = choose|i: int| 0 <= i < h.len() && h[i] == '/';
        assert(text_laws::worth(h[i]) is Some);
    }
    if h.contains('.') {
        let i = choose|i: int| 0 <= i < h.len() && h[i] == '.';
        assert(text_laws::worth(h[i]) is Some);
    }
}

/// The index of a table stands beside it: the same directory and name, with
/// another extension.
pub proof fn law_index_beside_the_table(dir: Seq<char>, fid: i64)
    ensures
        ({
            let stem = "a"@ + text::hex8(catalog::unsigned_bits(fid), false);
            let front = if paths_laws::directory(dir) {
                dir
            } else {
                dir.push('/')
            };
            let table = paths::joined(dir, catalog::filename_of(fid));
            &&& table == front + (stem + ".gdbtable"@)
            &&& paths::with_extension(table, "gdbtablx"@) == front + (stem + ".gdbtablx"@)
        }),
{
    let h = text::hex8(catalog::unsigned_bits(fid), false);
    let stem = "a"@ + h;
    let front = if paths_laws::directory(dir) {
        dir
    } else {
        dir.push('/')
    };
    reveal_strlit("a");
    reveal_strlit(".gdbtable");
    reveal_strlit("gdbtable");
    reveal_strlit(".gdbtablx");
    reveal_strlit("gdbtablx");
    lemma_hex_plain(catalog::unsigned_bits(fid));
    let ext = "gdbtable"@;
    let file = stem + seq!['.'] + ext;
    assert(catalog::filename_of(fid) =~= file);
    assert(stem + ".gdbtable"@ =~= file);
    assert(stem + ".gdbtablx"@ =~= stem + seq!['.'] + "gdbtablx"@);
    assert(!file.contains('/')) by {
        if file.contains('/') {
            let i = choose|i: int| 0 <= i < file.len() && file[i] == '/';
            if 1 <= i < stem.len() {
                assert(h[i - 1] == '/');
                assert(h.contains('/'));
            }
            if i > stem.len() {
                assert(ext[i - stem.len() - 1] == '/');
            }
        }
    }
    assert(file.len() > 2);
    assert(!ext.contains('.')) by {
        if ext.contains('.') {
            let i = choose|i: int| 0 <= i < ext.len() && ext[i] == '.';
        }
    }
    paths_laws::law_files_keep_their_names(dir, stem, ext);
    paths_laws::law_another_extension(front, stem, ext, "gdbtablx"@);
}

// ---------------------------------------------------------------------------
// Layers
// ---------------------------------------------------------------------------
/// Whether the row at that place has that text in field `k`.
pub open spec fn names(
    b: Seq<u8>,
    fs: FieldSectionView,
    k: int,
    at: (u64, u64),
    name: Seq<char>,
) -> bool {
    match row::row_blob_of(b, at.1 as usize as int) {
        Err(_) => false,
        Ok(blob) => match row::row_of(blob, (at.0 + 1) as i64, fs) {
            Err(_) => false,
            Ok(r) => k < r.values.len() && r.values[k] == ValueView::Text(name),
        },
    }
}

/// Whether a name is that of a layer: it is not empty and does not begin as those
/// of system tables do.
pub open spec fn layer_name(name: Seq<char>) -> bool {
    name.len() > 0 && !(name.len() >= 4 && name[0] == 'G' && name[1] == 'D' && name[2] == 'B'
        && name[3] == '_')
}

/// Whether the layers are those that the first `n` rows name, in the order of the
/// rows, each with the number behind that of its row.
pub open spec fn listed(
    b: Seq<u8>,
    fs: FieldSectionView,
    k: int,
    rows: Seq<(u64, u64)>,
    n: int,
    s: Seq<LayerInfoView>,
) -> bool {
    &&& forall|i: int|
        0 <= i < s.len() ==> layer_name((#[trigger] s[i]).name) && exists|j: int|
            0 <= j < n && s[i].fid == rows[j].0 + 1 && names(b, fs, k, #[trigger] rows[j], s[i].name)
    &&& forall|j: int, name: Seq<char>|
        0 <= j < n && #[trigger] names(b, fs, k, rows[j], name) && layer_name(name) ==> exists|
            i: int,
        |
            0 <= i < s.len() && (#[trigger] s[i]).name == name && s[i].fid == rows[j].0 + 1
    &&& forall|i: int, j: int|
        0 <= i < j < s.len() ==> (#[trigger] s[i]).fid < (#[trigger] s[j]).fid
    &&& forall|i: int| 0 <= i < s.len() ==> (#[trigger] s[i]).fid <= rows[n - 1].0 + 1
}

#[verifier::rlimit(30)]
proof fn lemma_one_row(
    b: Seq<u8>,
    fs: FieldSectionView,
    k: int,
    rows: Seq<(u64, u64)>,
    n: int,
    s: Seq<LayerInfoView>,
    next: Seq<LayerInfoView>,
    r: row::RowView,
)
    requires
        0 <= n < rows.len(),
        listed(b, fs, k, rows, n, s),
        n == 0 ==> s.len() == 0,
        forall|i: int| 0 <= i < rows.len() ==> (#[trigger] rows[i]).0 < 0x400_0000_0000,
        forall|i: int, j: int|
            0 <= i < j < rows.len() ==> (#[trigger] rows[i]).0 < (#[trigger] rows[j]).0,
        row::row_blob_of(b, rows[n].1 as usize as int) is Ok,
        row::row_of(
            row::row_blob_of(b, rows[n].1 as usize as int)->Ok_0,
            (rows[n].0 + 1) as i64,
            fs,
        ) == Ok::<row::RowView, GdbErrorView>(r),
        next == match catalog::layer_of_row(r.values, k, (rows[n].0 + 1) as i64) {
            None => s,
            Some(l) => s.push(l),
        },
    ensures
        listed(b, fs, k, rows, n + 1, next),
{
    let fid = (rows[n].0 + 1) as i64;
    assert(rows[n].0 < 0x400_0000_0000);
    if n > 0 {
        assert(rows[n - 1].0 < rows[n].0);
    }
    if k < r.values.len() && r.values[k] is Text {
        law_system_names(r.values[k]->Text_0);
    }
    assert forall|i: int| 0 <= i < next.len() implies layer_name((#[trigger] next[i]).name)
        && exists|j: int|
        0 <= j < n + 1 && next[i].fid == rows[j].0 + 1 && names(
            b,
            fs,
            k,
            #[trigger] rows[j],
            next[i].name,
        ) by {
        if i < s.len() {
            assert(next[i] == s[i]);
            let j = choose|j: int|
                0 <= j < n && s[i].fid == rows[j].0 + 1 && names(
                    b,
                    fs,
                    k,
                    #[trigger] rows[j],
                    s[i].name,
                );
            assert(names(b, fs, k, rows[j], next[i].name));
        } else {
            assert(names(b, fs, k, rows[n], next[i].name));
        }
    }
    assert forall|j: int, name: Seq<char>|
        0 <= j < n + 1 && #[trigger] names(b, fs, k, rows[j], name) && layer_name(name) implies exists|
        i: int,
    |
        0 <= i < next.len() && (#[trigger] next[i]).name == name && next[i].fid == rows[j].0
            + 1 by {
        if j < n {
            let i = choose|i: int|
                0 <= i < s.len() && (#[trigger] s[i]).name == name && s[i].fid == rows[j].0 + 1;
            assert(next[i] == s[i]);
        } else {
            assert(next[next.len() - 1].name == name);
        }
    }
    assert forall|i: int, j: int| 0 <= i < j < next.len() implies (#[trigger] next[i]).fid < (
    #[trigger] next[j]).fid by {
        assert(next[i] == s[i]);
        if j < s.len() {
            assert(next[j] == s[j]);
        } else {
            assert(s[i].fid <= rows[n - 1].0 + 1);
        }
    }
    assert forall|i: int| 0 <= i < next.len() implies (#[trigger] next[i]).fid <= rows[n].0
        + 1 by {
        if i < s.len() {
            assert(next[i] == s[i]);
            assert(s[i].fid <= rows[n - 1].0 + 1);
        }
    }
}

proof fn lemma_layers(
    b: Seq<u8>,
    fs: FieldSectionView,
    k: int,
    rows: Seq<(u64, u64)>,
    n: int,
    acc: Seq<LayerInfoView>,
)
    requires
        0 <= n <= rows.len(),
        listed(b, fs, k, rows, n, acc),
        n == 0 ==> acc.len() == 0,
        forall|i: int| 0 <= i < rows.len() ==> (#[trigger] rows[i]).0 < 0x400_0000_0000,
        forall|i: int, j: int|
            0 <= i < j < rows.len() ==> (#[trigger] rows[i]).0 < (#[trigger] rows[j]).0,
    ensures
        catalog::layers_from(b, fs, k, rows, n, acc) matches Ok(s) ==> listed(
            b,
            fs,
            k,
            rows,
            rows.len() as int,
            s,
        ),
    decreases rows.len() - n,
{
    if n < rows.len() {
        let fid = (rows[n].0 + 1) as i64;
        if let Ok(blob) = row::row_blob_of(b, rows[n].1 as usize as int) {
            if let Ok(r) = row::row_of(blob, fid, fs) {
                let next = match catalog::layer_of_row(r.values, k, fid) {
                    None => acc,
                    Some(l) => acc.push(l),
                };
                lemma_one_row(b, fs, k, rows, n, acc, next, r);
                lemma_layers(b, fs, k, rows, n + 1, next);
            }
        }
    }
}

proof fn lemma_first_named(s: Seq<FieldView>, name: Seq<char>, i: int)
    requires
        0 <= i,
    ensures
        match catalog::field_named(s, name, i) {
            Some(k) => i <= k < s.len() && s[k].name == name && forall|j: int|
                i <= j < k ==> (#[trigger] s[j]).name != name,
            None => forall|j: int| i <= j < s.len() ==> (#[trigger] s[j]).name != name,
        },
    decreases s.len() - i,
{
    if i < s.len() && s[i].name != name {
        lemma_first_named(s, name, i + 1);
    }
}

/// A catalog lists the layers that its rows name in the first field called
/// `Name`: those that are there, in the order of the rows, and no others.
pub proof fn law_catalog_lists_the_named_rows(tb: Seq<u8>, xb: Seq<u8>, t: table::TableView, tx: tablx::TablxView, k: int)
    requires
        table::table_of(tb) == Ok::<table::TableView, GdbErrorView>(t),
        tablx::tablx_of(xb) == Ok::<tablx::TablxView, GdbErrorView>(tx),
        tablx::wf_tablx(tx),
        tablx::block_count(tx) * 1024 <= u64::MAX,
        0 <= k < t.field_section.fields.len(),
        t.field_section.fields[k].name == "Name"@,
        forall|j: int| 0 <= j < k ==> (#[trigger] t.field_section.fields[j]).name != "Name"@,
    ensures
        catalog::catalog_of(tb, xb) matches Ok(s) ==> listed(
            tb,
            t.field_section,
            k,
            tablx::present_rows(tx),
            tablx::present_rows(tx).len() as int,
            s,
        ),
{
    let fields = t.field_section.fields;
    let rows = tablx::present_rows(tx);
    lemma_first_named(fields, "Name"@, 0);
    match catalog::field_named(fields, "Name"@, 0) {
        Some(j) => {
            if j < k {
                assert(fields[j].name != "Name"@);
            }
            if k < j {
                assert(fields[k].name != "Name"@);
            }
        },
        None => {
            assert(fields[k].name != "Name"@);
        },
    }
    tablx::lemma_present_rows_bound(tx);
    tablx::law_listed_rows_are_the_present_rows(tx);
    lemma_layers(tb, t.field_section, k, rows, 0, Seq::empty());
}

} // verus!
