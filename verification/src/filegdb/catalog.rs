//! Which layers a geodatabase holds.
//!
//! Every table is a row of the system catalog, and the row's number gives the
//! name of the table's file. Tables whose name begins with `GDB_` belong to the
//! system and are not listed, and neither is a row whose name is empty.

use crate::filegdb::error::{GdbError, GdbErrorView};
use crate::filegdb::row;
use crate::filegdb::row::{decode_row_blob, slice_row_blob, DecodedRow};
use crate::filegdb::table;
use crate::filegdb::table::{Field, FieldSectionView, FieldView, Table};
use crate::filegdb::tablx;
use crate::filegdb::tablx::Tablx;
use crate::paths;
use crate::paths::{join, set_extension};
use crate::text;
use crate::text::{chars_of, matches_at, push_hex8, same};
use crate::value;
use crate::value::{Value, ValueView};
use vstd::prelude::*;
use vstd::string::*;

verus! {

/// A layer as the catalog names it.
#[derive(Debug, PartialEq, Eq)]
pub struct LayerInfo {
    pub name: String,
    /// The number of its row in the catalog.
    pub fid: i64,
    /// The name of its file inside the geodatabase.
    pub physical_filename: String,
}

/// A [`LayerInfo`] with its texts as sequences.
pub struct LayerInfoView {
    pub name: Seq<char>,
    pub fid: i64,
    pub physical_filename: Seq<char>,
}

impl View for LayerInfo {
    type V = LayerInfoView;

    open spec fn view(&self) -> LayerInfoView {
        LayerInfoView {
            name: self.name@,
            fid: self.fid,
            physical_filename: self.physical_filename@,
        }
    }
}

/// The views of a run of layers.
pub open spec fn infos_view(s: Seq<LayerInfo>) -> Seq<LayerInfoView> {
    Seq::new(s.len(), |i: int| s[i]@)
}

impl LayerInfo {
    /// Where the layer's table is.
    pub fn table_path(&self, gdb_dir: &str) -> (r: String)
        ensures
            r@ == paths::joined(gdb_dir@, self.physical_filename@),
    {
        join(gdb_dir, self.physical_filename.as_str())
    }

    /// Where the layer's row-offset index is.
    pub fn tablx_path(&self, gdb_dir: &str) -> (r: String)
        ensures
            r@ == paths::with_extension(
                paths::joined(gdb_dir@, self.physical_filename@),
                "gdbtablx"@,
            ),
    {
        let p: String = self.table_path(gdb_dir);
        set_extension(p.as_str(), "gdbtablx")
    }
}

impl Clone for LayerInfo {
    fn clone(&self) -> (r: LayerInfo)
        ensures
            r@ == self@,
    {
        LayerInfo {
            name: self.name.clone(),
            fid: self.fid,
            physical_filename: self.physical_filename.clone(),
        }
    }
}

/// The 64 bits of a signed number, as an unsigned one.
pub open spec fn unsigned_bits(n: i64) -> nat {
    if n < 0 {
        (n + 0x1_0000_0000_0000_0000) as nat
    } else {
        n as nat
    }
}

/// The file name of the table with that number.
pub open spec fn filename_of(fid: i64) -> Seq<char> {
    "a"@ + text::hex8(unsigned_bits(fid), false) + ".gdbtable"@
}

/// The file name of the table with that number.
pub fn physical_filename_for_fid(fid: i64) -> (r: String)
    ensures
        r@ == filename_of(fid),
{
    let bits: u64 = if fid >= 0 {
        fid as u64
    } else {
        u64::MAX - ((-(fid + 1)) as u64)
    };
    let mut s: String = "a".to_owned();
    push_hex8(&mut s, bits, false);
    s.append(".gdbtable");
    s
}

/// Whether the name is that of a system table.
pub open spec fn system_name(name: Seq<char>) -> bool {
    text::occurs_at(name, "GDB_"@, 0)
}

/// Whether the name is that of a system table.
pub fn is_system_table_name(name: &str) -> (r: bool)
    ensures
        r == system_name(name@),
{
    matches_at(&chars_of(name), &chars_of("GDB_"), 0)
}

/// The first field of that name at or behind `i`.
pub open spec fn field_named(s: Seq<FieldView>, name: Seq<char>, i: int) -> Option<int>
    decreases s.len() - i,
{
    if i >= s.len() {
        None
    } else if s[i].name == name {
        Some(i)
    } else {
        field_named(s, name, i + 1)
    }
}

/// The layer that a row of the catalog names: none where the name is missing,
/// empty or that of a system table.
pub open spec fn layer_of_row(row: Seq<ValueView>, name_idx: int, fid: i64) -> Option<
    LayerInfoView,
> {
    if name_idx >= row.len() {
        None
    } else {
        match row[name_idx] {
            ValueView::Text(name) => if name.len() == 0 || system_name(name) {
                None
            } else {
                Some(LayerInfoView { name, fid, physical_filename: filename_of(fid) })
            },
            _ => None,
        }
    }
}

/// The layers of the rows from `i` on, behind those in `acc`.
pub open spec fn layers_from(
    b: Seq<u8>,
    fs: FieldSectionView,
    name_idx: int,
    rows: Seq<(u64, u64)>,
    i: int,
    acc: Seq<LayerInfoView>,
) -> Result<Seq<LayerInfoView>, GdbErrorView>
    decreases rows.len() - i,
{
    if i >= rows.len() {
        Ok(acc)
    } else {
        let fid = (rows[i].0 + 1) as i64;
        match row::row_blob_of(b, rows[i].1 as usize as int) {
            Err(e) => Err(e),
            Ok(blob) => match row::row_of(blob, fid, fs) {
                Err(e) => Err(e),
                Ok(r) => layers_from(
                    b,
                    fs,
                    name_idx,
                    rows,
                    i + 1,
                    match layer_of_row(r.values, name_idx, fid) {
                        None => acc,
                        Some(l) => acc.push(l),
                    },
                ),
            },
        }
    }
}

/// The layers that the catalog in those bytes names.
pub open spec fn catalog_of(table_bytes: Seq<u8>, tablx_bytes: Seq<u8>) -> Result<
    Seq<LayerInfoView>,
    GdbErrorView,
> {
    match table::table_of(table_bytes) {
        Err(e) => Err(e),
        Ok(t) => match tablx::tablx_of(tablx_bytes) {
            Err(e) => Err(e),
            Ok(tx) => match field_named(t.field_section.fields, "Name"@, 0) {
                None => Err(GdbErrorView::Malformed("GDB_SystemCatalog has no 'Name' field"@)),
                Some(k) => layers_from(
                    table_bytes,
                    t.field_section,
                    k,
                    tablx::present_rows(tx),
                    0,
                    Seq::empty(),
                ),
            },
        },
    }
}

/// Every layer has a name, none is a system table, and each layer's file is the
/// one that its number gives.
pub open spec fn all_user_tables(s: Seq<LayerInfoView>) -> bool {
    forall|i: int|
        0 <= i < s.len() ==> (#[trigger] s[i]).name.len() > 0 && !system_name(s[i].name)
            && s[i].physical_filename == filename_of(s[i].fid)
}

proof fn lemma_all_user_tables(
    b: Seq<u8>,
    fs: FieldSectionView,
    name_idx: int,
    rows: Seq<(u64, u64)>,
    i: int,
    acc: Seq<LayerInfoView>,
)
    requires
        all_user_tables(acc),
    ensures
        layers_from(b, fs, name_idx, rows, i, acc) matches Ok(s) ==> all_user_tables(s),
    decreases rows.len() - i,
{
    if i < rows.len() {
        let fid = (rows[i].0 + 1) as i64;
        if let Ok(blob) = row::row_blob_of(b, rows[i].1 as usize as int) {
            if let Ok(r) = row::row_of(blob, fid, fs) {
                let next = match layer_of_row(r.values, name_idx, fid) {
                    None => acc,
                    Some(l) => acc.push(l),
                };
                lemma_all_user_tables(b, fs, name_idx, rows, i + 1, next);
            }
        }
    }
}

/// A catalog never lists a system table or a table without a name, and each
/// layer's file is the one that its number gives.
pub proof fn law_catalog_hides_system_tables(table_bytes: Seq<u8>, tablx_bytes: Seq<u8>)
    ensures
        catalog_of(table_bytes, tablx_bytes) matches Ok(s) ==> all_user_tables(s),
{
    if let Ok(t) = table::table_of(table_bytes) {
        if let Ok(tx) = tablx::tablx_of(tablx_bytes) {
            if let Some(k) = field_named(t.field_section.fields, "Name"@, 0) {
                lemma_all_user_tables(
                    table_bytes,
                    t.field_section,
                    k,
                    tablx::present_rows(tx),
                    0,
                    Seq::empty(),
                );
            }
        }
    }
}

fn position_named(fields: &Vec<Field>, name: &str) -> (r: Option<usize>)
    ensures
        match r {
            Some(i) => i < fields@.len() && field_named(table::fields_view(fields@), name@, 0)
                == Some(i as int),
            None => field_named(table::fields_view(fields@), name@, 0) is None,
        },
{
    let mut i: usize = 0;
    while i < fields.len()
        invariant
            i <= fields@.len(),
            field_named(table::fields_view(fields@), name@, 0) == field_named(
                table::fields_view(fields@),
                name@,
                i as int,
            ),
        decreases fields@.len() - i,
    {
        if same(fields[i].name.as_str(), name) {
            return Some(i);
        }
        i = i + 1;
    }
    None
}

fn read_layer(values: &Vec<Value>, name_idx: usize, fid: i64) -> (r: Option<LayerInfo>)
    ensures
        match r {
            Some(l) => layer_of_row(value::values_view(values@), name_idx as int, fid) == Some(l@),
            None => layer_of_row(value::values_view(values@), name_idx as int, fid) is None,
        },
{
    if name_idx >= values.len() {
        return None;
    }
    proof {
        assert(value::values_view(values@)[name_idx as int] == values@[name_idx as int]@);
    }
    match &values[name_idx] {
        Value::String(s) => {
            if chars_of(s.as_str()).len() == 0 || is_system_table_name(s.as_str()) {
                None
            } else {
                Some(
                    LayerInfo {
                        name: s.clone(),
                        fid,
                        physical_filename: physical_filename_for_fid(fid),
                    },
                )
            }
        },
        _ => None,
    }
}

/// Lists the layers that the system catalog names. The arguments are the bytes
/// of the catalog's table and of its row-offset index.
pub fn read_catalog(catalog_table_bytes: &[u8], catalog_tablx_bytes: &[u8]) -> (res: Result<
    Vec<LayerInfo>,
    GdbError,
>)
    ensures
        match res {
            Ok(v) => catalog_of(catalog_table_bytes@, catalog_tablx_bytes@) == Ok::<
                Seq<LayerInfoView>,
                GdbErrorView,
            >(infos_view(v@)),
            Err(e) => catalog_of(catalog_table_bytes@, catalog_tablx_bytes@) == Err::<
                Seq<LayerInfoView>,
                GdbErrorView,
            >(e@),
        },
{
    let t: Table = match Table::parse(catalog_table_bytes) {
        Err(e) => return Err(e),
        Ok(t) => t,
    };
    let tx: Tablx = match Tablx::parse(catalog_tablx_bytes) {
        Err(e) => return Err(e),
        Ok(t) => t,
    };
    let name_idx: usize = match position_named(&t.field_section.fields, "Name") {
        None => {
            return Err(GdbError::malformed("GDB_SystemCatalog has no 'Name' field".to_owned()));
        },
        Some(k) => k,
    };
    let rows: Vec<(u64, u64)> = tx.iter_present();
    proof {
        tablx::law_listed_rows_are_the_present_rows(tx@);
        tablx::lemma_present_rows_bound(tx@);
    }
    let ghost b = catalog_table_bytes@;
    let ghost fs = t.field_section@;
    let ghost goal = catalog_of(b, catalog_tablx_bytes@);
    let mut layers: Vec<LayerInfo> = Vec::new();
    let mut i: usize = 0;
    proof {
        assert(infos_view(layers@) =~= Seq::empty());
    }
    while i < rows.len()
        invariant
            i <= rows@.len(),
            b == catalog_table_bytes@,
            fs == t.field_section@,
            goal == catalog_of(catalog_table_bytes@, catalog_tablx_bytes@),
            forall|k: int| 0 <= k < rows@.len() ==> (#[trigger] rows@[k]).0 < 0x400_0000_0000,
            goal == layers_from(
                b,
                fs,
                name_idx as int,
                rows@,
                i as int,
                infos_view(layers@),
            ),
        decreases rows@.len() - i,
    {
        let (row_idx, off) = rows[i];
        let fid: i64 = row_idx as i64 + 1;
        let blob: &[u8] = match slice_row_blob(catalog_table_bytes, off) {
            Err(e) => return Err(e),
            Ok(s) => s,
        };
        let r: DecodedRow = match decode_row_blob(blob, fid, &t.field_section) {
            Err(e) => return Err(e),
            Ok(r) => r,
        };
        let ghost before = layers@;
        match read_layer(&r.values, name_idx, fid) {
            None => {},
            Some(l) => {
                layers.push(l);
                proof {
                    assert(infos_view(layers@) =~= infos_view(before).push(l@));
                }
            },
        }
        i = i + 1;
    }
    Ok(layers)
}

} // verus!
