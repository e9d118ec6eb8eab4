//! Attribute values and their types.

use crate::float_bits;
use crate::float_bits::{is_same_number, is_same_single};
use crate::text::same;
use vstd::prelude::*;
use vstd::std_specs::cmp::PartialEqSpecImpl;
use vstd::string::*;

verus! {

/// One attribute value. Floating-point payloads are held by their bits and
/// compared as numbers.
#[derive(Debug)]
#[non_exhaustive]
pub enum Value {
    Null,
    Bool(bool),
    Int16(i16),
    Int32(i32),
    Int64(i64),
    Float32(u32),
    Float64(u64),
    String(String),
    Binary(Vec<u8>),
    /// The bits of a count of days since 1899-12-30 00:00:00.
    DateTime(u64),
    /// Sixteen raw bytes.
    Guid([u8; 16]),
    /// XML text, as it stands.
    Xml(String),
}

/// A [`Value`] with texts and bytes as sequences.
pub enum ValueView {
    Null,
    Bool(bool),
    Int16(i16),
    Int32(i32),
    Int64(i64),
    Float32(u32),
    Float64(u64),
    Text(Seq<char>),
    Binary(Seq<u8>),
    DateTime(u64),
    Guid([u8; 16]),
    Xml(Seq<char>),
}

impl View for Value {
    type V = ValueView;

    open spec fn view(&self) -> ValueView {
        match self {
            Value::Null => ValueView::Null,
            Value::Bool(b) => ValueView::Bool(*b),
            Value::Int16(n) => ValueView::Int16(*n),
            Value::Int32(n) => ValueView::Int32(*n),
            Value::Int64(n) => ValueView::Int64(*n),
            Value::Float32(b) => ValueView::Float32(*b),
            Value::Float64(b) => ValueView::Float64(*b),
            Value::String(s) => ValueView::Text(s@),
            Value::Binary(b) => ValueView::Binary(b@),
            Value::DateTime(b) => ValueView::DateTime(*b),
            Value::Guid(g) => ValueView::Guid(*g),
            Value::Xml(s) => ValueView::Xml(s@),
        }
    }
}

/// Whether two values are of the same type and hold the same.
pub open spec fn same_value(a: ValueView, b: ValueView) -> bool {
    match (a, b) {
        (ValueView::Float32(x), ValueView::Float32(y)) => float_bits::same_single(x, y),
        (ValueView::Float64(x), ValueView::Float64(y)) => float_bits::same_number(x, y),
        (ValueView::DateTime(x), ValueView::DateTime(y)) => float_bits::same_number(x, y),
        (ValueView::Guid(x), ValueView::Guid(y)) => x@ == y@,
        _ => a == b,
    }
}

fn same_bytes(a: &[u8], b: &[u8]) -> (r: bool)
    ensures
        r == (a@ == b@),
{
    if a.len() != b.len() {
        return false;
    }
    let mut i: usize = 0;
    while i < a.len()
        invariant
            i <= a@.len() == b@.len(),
            forall|k: int| 0 <= k < i ==> a@[k] == b@[k],
        decreases a@.len() - i,
    {
        if a[i] != b[i] {
            return false;
        }
        i = i + 1;
    }
    assert(a@ =~= b@);
    true
}

impl PartialEq for Value {
    fn eq(&self, other: &Value) -> (r: bool) {
        match (self, other) {
            (Value::Null, Value::Null) => true,
            (Value::Bool(a), Value::Bool(b)) => *a == *b,
            (Value::Int16(a), Value::Int16(b)) => *a == *b,
            (Value::Int32(a), Value::Int32(b)) => *a == *b,
            (Value::Int64(a), Value::Int64(b)) => *a == *b,
            (Value::Float32(a), Value::Float32(b)) => is_same_single(*a, *b),
            (Value::Float64(a), Value::Float64(b)) => is_same_number(*a, *b),
            (Value::String(a), Value::String(b)) => same(a.as_str(), b.as_str()),
            (Value::Binary(a), Value::Binary(b)) => same_bytes(a.as_slice(), b.as_slice()),
            (Value::DateTime(a), Value::DateTime(b)) => is_same_number(*a, *b),
            (Value::Guid(a), Value::Guid(b)) => same_bytes(a, b),
            (Value::Xml(a), Value::Xml(b)) => same(a.as_str(), b.as_str()),
            _ => false,
        }
    }
}

impl PartialEqSpecImpl for Value {
    open spec fn obeys_eq_spec() -> bool {
        true
    }

    open spec fn eq_spec(&self, other: &Value) -> bool {
        same_value(self@, other@)
    }
}

/// The type of a value.
#[derive(Debug, Clone, Copy, PartialEq, Eq, Structural, Hash)]
#[non_exhaustive]
pub enum ValueType {
    Bool,
    Int16,
    Int32,
    Int64,
    Float32,
    Float64,
    String,
    Binary,
    DateTime,
    Guid,
    Xml,
}

/// The type of a value; null has none.
pub open spec fn type_of_value(v: ValueView) -> Option<ValueType> {
    match v {
        ValueView::Null => None,
        ValueView::Bool(_) => Some(ValueType::Bool),
        ValueView::Int16(_) => Some(ValueType::Int16),
        ValueView::Int32(_) => Some(ValueType::Int32),
        ValueView::Int64(_) => Some(ValueType::Int64),
        ValueView::Float32(_) => Some(ValueType::Float32),
        ValueView::Float64(_) => Some(ValueType::Float64),
        ValueView::Text(_) => Some(ValueType::String),
        ValueView::Binary(_) => Some(ValueType::Binary),
        ValueView::DateTime(_) => Some(ValueType::DateTime),
        ValueView::Guid(_) => Some(ValueType::Guid),
        ValueView::Xml(_) => Some(ValueType::Xml),
    }
}

/// The name of a type.
pub open spec fn type_text(t: ValueType) -> Seq<char> {
    match t {
        ValueType::Bool => "Bool"@,
        ValueType::Int16 => "Int16"@,
        ValueType::Int32 => "Int32"@,
        ValueType::Int64 => "Int64"@,
        ValueType::Float32 => "Float32"@,
        ValueType::Float64 => "Float64"@,
        ValueType::String => "String"@,
        ValueType::Binary => "Binary"@,
        ValueType::DateTime => "DateTime"@,
        ValueType::Guid => "Guid"@,
        ValueType::Xml => "Xml"@,
    }
}

impl ValueType {
    /// The name of the type.
    pub fn name(self) -> (r: &'static str)
        ensures
            r@ == type_text(self),
    {
        match self {
            ValueType::Bool => "Bool",
            ValueType::Int16 => "Int16",
            ValueType::Int32 => "Int32",
            ValueType::Int64 => "Int64",
            ValueType::Float32 => "Float32",
            ValueType::Float64 => "Float64",
            ValueType::String => "String",
            ValueType::Binary => "Binary",
            ValueType::DateTime => "DateTime",
            ValueType::Guid => "Guid",
            ValueType::Xml => "Xml",
        }
    }
}

/// A copy of some bytes.
pub fn clone_bytes(v: &Vec<u8>) -> (r: Vec<u8>)
    ensures
        r@ == v@,
{
    let mut r: Vec<u8> = Vec::new();
    let mut i: usize = 0;
    while i < v.len()
        invariant
            i <= v@.len(),
            r@ =~= v@.take(i as int),
        decreases v@.len() - i,
    {
        r.push(v[i]);
        i = i + 1;
    }
    r
}

impl Clone for Value {
    fn clone(&self) -> (r: Value)
        ensures
            r@ == self@,
    {
        match self {
            Value::Null => Value::Null,
            Value::Bool(b) => Value::Bool(*b),
            Value::Int16(n) => Value::Int16(*n),
            Value::Int32(n) => Value::Int32(*n),
            Value::Int64(n) => Value::Int64(*n),
            Value::Float32(b) => Value::Float32(*b),
            Value::Float64(b) => Value::Float64(*b),
            Value::String(s) => Value::String(s.clone()),
            Value::Binary(b) => Value::Binary(clone_bytes(b)),
            Value::DateTime(b) => Value::DateTime(*b),
            Value::Guid(g) => Value::Guid(*g),
            Value::Xml(s) => Value::Xml(s.clone()),
        }
    }
}

/// The views of a run of values.
pub open spec fn values_view(s: Seq<Value>) -> Seq<ValueView> {
    Seq::new(s.len(), |i: int| s[i]@)
}

impl Value {
    /// The type of the value; `None` for null.
    pub fn ty(&self) -> (r: Option<ValueType>)
        ensures
            r == type_of_value(self@),
    {
        match self {
            Value::Null => None,
            Value::Bool(_) => Some(ValueType::Bool),
            Value::Int16(_) => Some(ValueType::Int16),
            Value::Int32(_) => Some(ValueType::Int32),
            Value::Int64(_) => Some(ValueType::Int64),
            Value::Float32(_) => Some(ValueType::Float32),
            Value::Float64(_) => Some(ValueType::Float64),
            Value::String(_) => Some(ValueType::String),
            Value::Binary(_) => Some(ValueType::Binary),
            Value::DateTime(_) => Some(ValueType::DateTime),
            Value::Guid(_) => Some(ValueType::Guid),
            Value::Xml(_) => Some(ValueType::Xml),
        }
    }

    pub fn is_null(&self) -> (r: bool)
        ensures
            r == (self@ is Null),
            r == (type_of_value(self@) is None),
    {
        matches!(self, Value::Null)
    }
}

} // verus!
