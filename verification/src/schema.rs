//! The schema of a layer: its fields, its geometry column and its reference
//! system.

use crate::crs::{Crs, CrsView};
use crate::error::{Error, ErrorView};
use crate::float_bits;
use crate::float_bits::are_same_numbers;
use crate::geometry::GeometryType;
use crate::text;
use crate::text::{push_dec, same};
use crate::value;
use crate::value::{Value, ValueType, ValueView};
use vstd::prelude::*;
use vstd::std_specs::cmp::PartialEqSpecImpl;
use vstd::string::*;

verus! {

/// The definition of one field.
#[derive(Debug, PartialEq, Eq)]
pub struct FieldDef {
    pub name: String,
    pub alias: Option<String>,
    pub ty: ValueType,
    pub nullable: bool,
    /// A width hint, such as the longest text.
    pub width: Option<u32>,
}

/// A [`FieldDef`] with its texts as sequences.
pub struct FieldDefView {
    pub name: Seq<char>,
    pub alias: Option<Seq<char>>,
    pub ty: ValueType,
    pub nullable: bool,
    pub width: Option<u32>,
}

/// The view of an optional string.
pub open spec fn text_view(s: Option<String>) -> Option<Seq<char>> {
    match s {
        None => None,
        Some(s) => Some(s@),
    }
}

impl View for FieldDef {
    type V = FieldDefView;

    open spec fn view(&self) -> FieldDefView {
        FieldDefView {
            name: self.name@,
            alias: text_view(self.alias),
            ty: self.ty,
            nullable: self.nullable,
            width: self.width,
        }
    }
}

/// The views of a run of fields.
pub open spec fn fields_view(s: Seq<FieldDef>) -> Seq<FieldDefView> {
    Seq::new(s.len(), |i: int| s[i]@)
}

impl FieldDef {
    pub fn new(name: &str, ty: ValueType, nullable: bool) -> (r: FieldDef)
        ensures
            r@ == (FieldDefView { name: name@, alias: None, ty, nullable, width: None }),
    {
        FieldDef { name: name.to_owned(), alias: None, ty, nullable, width: None }
    }

    pub fn with_alias(self, alias: &str) -> (r: FieldDef)
        ensures
            r@ == (FieldDefView { alias: Some(alias@), ..self@ }),
    {
        FieldDef {
            name: self.name,
            alias: Some(alias.to_owned()),
            ty: self.ty,
            nullable: self.nullable,
            width: self.width,
        }
    }

    pub fn with_width(self, width: u32) -> (r: FieldDef)
        ensures
            r@ == (FieldDefView { width: Some(width), ..self@ }),
    {
        FieldDef {
            name: self.name,
            alias: self.alias,
            ty: self.ty,
            nullable: self.nullable,
            width: Some(width),
        }
    }
}

impl Clone for FieldDef {
    fn clone(&self) -> (r: FieldDef)
        ensures
            r@ == self@,
    {
        let alias: Option<String> = match &self.alias {
            None => None,
            Some(s) => Some(s.clone()),
        };
        FieldDef {
            name: self.name.clone(),
            alias,
            ty: self.ty,
            nullable: self.nullable,
            width: self.width,
        }
    }
}

/// The geometry column of a layer. Extents are compared by their numbers, not by
/// their bits.
#[derive(Debug)]
pub struct GeomField {
    pub name: String,
    pub kind: GeometryType,
    pub has_z: bool,
    pub has_m: bool,
    /// `xmin, ymin, zmin, xmax, ymax, zmax`, where the source declares it.
    pub extent: Option<[u64; 6]>,
}

/// A [`GeomField`] with its name as a sequence.
pub struct GeomFieldView {
    pub name: Seq<char>,
    pub kind: GeometryType,
    pub has_z: bool,
    pub has_m: bool,
    pub extent: Option<[u64; 6]>,
}

impl View for GeomField {
    type V = GeomFieldView;

    open spec fn view(&self) -> GeomFieldView {
        GeomFieldView {
            name: self.name@,
            kind: self.kind,
            has_z: self.has_z,
            has_m: self.has_m,
            extent: self.extent,
        }
    }
}

/// Whether two extents hold the same numbers, or neither is there.
pub open spec fn same_extent(a: Option<[u64; 6]>, b: Option<[u64; 6]>) -> bool {
    match (a, b) {
        (None, None) => true,
        (Some(x), Some(y)) => float_bits::same_numbers(x@, y@),
        _ => false,
    }
}

fn is_same_extent(a: Option<[u64; 6]>, b: Option<[u64; 6]>) -> (r: bool)
    ensures
        r == same_extent(a, b),
{
    match a {
        None => b.is_none(),
        Some(x) => match b {
            None => false,
            Some(y) => are_same_numbers(&x, &y),
        },
    }
}

/// Whether two optional texts are the same.
pub fn same_text(a: &Option<String>, b: &Option<String>) -> (r: bool)
    ensures
        r == (text_view(*a) == text_view(*b)),
{
    match a {
        None => b.is_none(),
        Some(x) => match b {
            None => false,
            Some(y) => same(x.as_str(), y.as_str()),
        },
    }
}

impl PartialEq for GeomField {
    fn eq(&self, other: &GeomField) -> (r: bool) {
        same(self.name.as_str(), other.name.as_str()) && self.kind == other.kind && self.has_z
            == other.has_z && self.has_m == other.has_m && is_same_extent(
            self.extent,
            other.extent,
        )
    }
}

impl PartialEqSpecImpl for GeomField {
    open spec fn obeys_eq_spec() -> bool {
        true
    }

    open spec fn eq_spec(&self, other: &GeomField) -> bool {
        &&& self.name@ == other.name@
        &&& self.kind == other.kind
        &&& self.has_z == other.has_z
        &&& self.has_m == other.has_m
        &&& same_extent(self.extent, other.extent)
    }
}

impl GeomField {
    pub fn new(name: &str, kind: GeometryType) -> (r: GeomField)
        ensures
            r@ == (GeomFieldView { name: name@, kind, has_z: false, has_m: false, extent: None }),
    {
        GeomField { name: name.to_owned(), kind, has_z: false, has_m: false, extent: None }
    }
}

impl Clone for GeomField {
    fn clone(&self) -> (r: GeomField)
        ensures
            r@ == self@,
    {
        GeomField {
            name: self.name.clone(),
            kind: self.kind,
            has_z: self.has_z,
            has_m: self.has_m,
            extent: self.extent,
        }
    }
}

/// The schema of a layer.
#[derive(Debug, PartialEq)]
pub struct Schema {
    /// The fields, in declared order.
    pub fields: Vec<FieldDef>,
    pub geometry: Option<GeomField>,
    pub crs: Crs,
}

/// A [`Schema`] as sequences.
#[verifier::ext_equal]
pub struct SchemaView {
    pub fields: Seq<FieldDefView>,
    pub geometry: Option<GeomFieldView>,
    pub crs: CrsView,
}

/// The view of an optional geometry column.
pub open spec fn geom_view(g: Option<GeomField>) -> Option<GeomFieldView> {
    match g {
        None => None,
        Some(g) => Some(g@),
    }
}

impl View for Schema {
    type V = SchemaView;

    open spec fn view(&self) -> SchemaView {
        SchemaView {
            fields: fields_view(self.fields@),
            geometry: geom_view(self.geometry),
            crs: self.crs@,
        }
    }
}

/// The last field of that name among the first `n`.
pub open spec fn index_before(s: Seq<FieldDefView>, name: Seq<char>, n: int) -> Option<int>
    decreases n,
{
    if n <= 0 {
        None
    } else if s[n - 1].name == name {
        Some(n - 1)
    } else {
        index_before(s, name, n - 1)
    }
}

/// Where the field of that name stands; of several the last.
pub open spec fn index_of_field(s: Seq<FieldDefView>, name: Seq<char>) -> Option<int> {
    index_before(s, name, s.len() as int)
}

/// Why a value cannot stand in field `i`, if it cannot.
pub open spec fn cell_error(f: FieldDefView, v: ValueView, i: int) -> Option<ErrorView> {
    match value::type_of_value(v) {
        None => if f.nullable {
            None
        } else {
            Some(
                ErrorView::Schema(
                    "field "@ + text::dec(i as nat) + " ("@ + f.name
                        + ") is not nullable but value is null"@,
                ),
            )
        },
        Some(t) => if t == f.ty {
            None
        } else {
            Some(
                ErrorView::Schema(
                    "field "@ + text::dec(i as nat) + " ("@ + f.name + ") expected "@
                        + value::type_text(f.ty) + ", got "@ + value::type_text(t),
                ),
            )
        },
    }
}

/// The first error of the cells from `i` on.
pub open spec fn cells_error(s: Seq<FieldDefView>, row: Seq<ValueView>, i: int) -> Option<ErrorView>
    decreases s.len() - i,
{
    if i >= s.len() {
        None
    } else {
        match cell_error(s[i], row[i], i) {
            Some(e) => Some(e),
            None => cells_error(s, row, i + 1),
        }
    }
}

/// Why a row does not match the fields, if it does not: first its length, then
/// its cells from left to right.
pub open spec fn row_error(s: Seq<FieldDefView>, row: Seq<ValueView>) -> Option<ErrorView> {
    if row.len() != s.len() {
        Some(
            ErrorView::Schema(
                "expected "@ + text::dec(s.len()) + " values, got "@ + text::dec(row.len()),
            ),
        )
    } else {
        cells_error(s, row, 0)
    }
}

/// A row is accepted exactly when it has one value for each field, and each is
/// of the field's type or a null where null may stand.
pub proof fn law_accepted_rows(s: Seq<FieldDefView>, row: Seq<ValueView>)
    ensures
        row_error(s, row) is None <==> row.len() == s.len() && forall|i: int|
            0 <= i < s.len() ==> match value::type_of_value(#[trigger] row[i]) {
                None => s[i].nullable,
                Some(t) => t == s[i].ty,
            },
{
    if row.len() == s.len() {
        lemma_cells(s, row, 0);
    }
}

proof fn lemma_cells(s: Seq<FieldDefView>, row: Seq<ValueView>, i: int)
    requires
        0 <= i <= s.len(),
        row.len() == s.len(),
    ensures
        cells_error(s, row, i) is None <==> forall|k: int|
            i <= k < s.len() ==> match value::type_of_value(#[trigger] row[k]) {
                None => s[k].nullable,
                Some(t) => t == s[k].ty,
            },
    decreases s.len() - i,
{
    if i < s.len() {
        lemma_cells(s, row, i + 1);
        assert(row[i] == row[i]);
    }
}

fn field_prefix(i: usize, name: &String) -> (r: String)
    ensures
        r@ == "field "@ + text::dec(i as nat) + " ("@ + name@,
{
    let mut m: String = "field ".to_owned();
    push_dec(&mut m, i as u64);
    m.append(" (");
    m.append(name.as_str());
    m
}

impl Schema {
    pub fn new(fields: Vec<FieldDef>, geometry: Option<GeomField>, crs: Crs) -> (r: Schema)
        ensures
            r == (Schema { fields, geometry, crs }),
    {
        Schema { fields, geometry, crs }
    }

    /// The field at `idx`, if there is one.
    pub fn field(&self, idx: usize) -> (r: Option<&FieldDef>)
        ensures
            match r {
                Some(f) => idx < self.fields@.len() && *f == self.fields@[idx as int],
                None => idx >= self.fields@.len(),
            },
    {
        if idx < self.fields.len() {
            Some(&self.fields[idx])
        } else {
            None
        }
    }

    /// Where the field of that name stands.
    pub fn field_index(&self, name: &str) -> (r: Option<usize>)
        ensures
            match r {
                Some(i) => i < self.fields@.len() && index_of_field(self@.fields, name@) == Some(
                    i as int,
                ),
                None => index_of_field(self@.fields, name@) is None,
            },
    {
        let mut i: usize = self.fields.len();
        while i > 0
            invariant
                i <= self.fields@.len(),
                index_of_field(self@.fields, name@) == index_before(
                    self@.fields,
                    name@,
                    i as int,
                ),
            decreases i,
        {
            if same(self.fields[i - 1].name.as_str(), name) {
                return Some(i - 1);
            }
            i = i - 1;
        }
        None
    }

    /// The field of that name.
    pub fn field_by_name(&self, name: &str) -> (r: Option<&FieldDef>)
        ensures
            match r {
                Some(f) => index_of_field(self@.fields, name@) is Some && f@
                    == self@.fields[index_of_field(self@.fields, name@)->0],
                None => index_of_field(self@.fields, name@) is None,
            },
    {
        match self.field_index(name) {
            None => None,
            Some(i) => Some(&self.fields[i]),
        }
    }

    pub fn len(&self) -> (r: usize)
        ensures
            r == self@.fields.len(),
    {
        self.fields.len()
    }

    pub fn is_empty(&self) -> (r: bool)
        ensures
            r == (self@.fields.len() == 0),
    {
        self.fields.len() == 0
    }

    /// Checks a row against the fields.
    pub fn validate_row(&self, values: &[Value]) -> (r: Result<(), Error>)
        ensures
            match r {
                Ok(_) => row_error(self@.fields, value::values_view(values@)) is None,
                Err(e) => row_error(self@.fields, value::values_view(values@)) == Some(e@),
            },
    {
        let ghost row = value::values_view(values@);
        if values.len() != self.fields.len() {
            let mut m: String = "expected ".to_owned();
            push_dec(&mut m, self.fields.len() as u64);
            m.append(" values, got ");
            push_dec(&mut m, values.len() as u64);
            return Err(Error::schema(m));
        }
        let mut i: usize = 0;
        while i < self.fields.len()
            invariant
                i <= self.fields@.len() == values@.len(),
                row == value::values_view(values@),
                row_error(self@.fields, row) == cells_error(self@.fields, row, i as int),
            decreases self.fields@.len() - i,
        {
            let f: &FieldDef = &self.fields[i];
            proof {
                assert(row[i as int] == values@[i as int]@);
                assert(self@.fields[i as int] == f@);
            }
            match values[i].ty() {
                None => {
                    if !f.nullable {
                        let mut m: String = field_prefix(i, &f.name);
                        m.append(") is not nullable but value is null");
                        return Err(Error::schema(m));
                    }
                },
                Some(t) => {
                    if t != f.ty {
                        let mut m: String = field_prefix(i, &f.name);
                        m.append(") expected ");
                        m.append(f.ty.name());
                        m.append(", got ");
                        m.append(t.name());
                        return Err(Error::schema(m));
                    }
                },
            }
            i = i + 1;
        }
        Ok(())
    }
}

impl Clone for Schema {
    fn clone(&self) -> (r: Schema)
        ensures
            r@ == self@,
    {
        let mut fields: Vec<FieldDef> = Vec::new();
        let mut i: usize = 0;
        while i < self.fields.len()
            invariant
                i <= self.fields@.len(),
                fields@.len() == i,
                forall|k: int| 0 <= k < i ==> (#[trigger] fields@[k])@ == self.fields@[k]@,
            decreases self.fields@.len() - i,
        {
            fields.push(self.fields[i].clone());
            i = i + 1;
        }
        proof {
            assert(fields_view(fields@) =~= fields_view(self.fields@));
        }
        let geometry: Option<GeomField> = match &self.geometry {
            None => None,
            Some(g) => Some(g.clone()),
        };
        Schema { fields, geometry, crs: self.crs.clone() }
    }
}

} // verus!
