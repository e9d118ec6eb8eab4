//! What values are of which type, when two values are the same, and where fields
//! are found.

use crate::float_bits;
use crate::float_convert;
use crate::float_laws;
use crate::schema;
use crate::schema::FieldDefView;
use crate::single_laws;
use crate::value;
use crate::value::{ValueType, ValueView};
use vstd::prelude::*;
use vstd::string::*;

verus! {

/// A value is of the type that it is an instance of; null is of none.
pub proof fn law_types_of_values(v: ValueView)
    ensures
        match value::type_of_value(v) {
            None => v is Null,
            Some(ValueType::Bool) => v is Bool,
            Some(ValueType::Int16) => v is Int16,
            Some(ValueType::Int32) => v is Int32,
            Some(ValueType::Int64) => v is Int64,
            Some(ValueType::Float32) => v is Float32,
            Some(ValueType::Float64) => v is Float64,
            Some(ValueType::String) => v is Text,
            Some(ValueType::Binary) => v is Binary,
            Some(ValueType::DateTime) => v is DateTime,
            Some(ValueType::Guid) => v is Guid,
            Some(ValueType::Xml) => v is Xml,
        },
{
}

/// No two types have the same name; the name of a number ends in its bits.
pub proof fn law_names_of_types(s: ValueType, t: ValueType)
    ensures
        value::type_text(s) == value::type_text(t) ==> s == t,
        value::type_text(ValueType::Int16).skip(3) == "16"@,
        value::type_text(ValueType::Int32).skip(3) == "32"@,
        value::type_text(ValueType::Int64).skip(3) == "64"@,
        value::type_text(ValueType::Float32).skip(5) == "32"@,
        value::type_text(ValueType::Float64).skip(5) == "64"@,
{
    reveal_strlit("Bool");
    reveal_strlit("Int16");
    reveal_strlit("Int32");
    reveal_strlit("Int64");
    reveal_strlit("Float32");
    reveal_strlit("Float64");
    reveal_strlit("String");
    reveal_strlit("Binary");
    reveal_strlit("DateTime");
    reveal_strlit("Guid");
    reveal_strlit("Xml");
    reveal_strlit("16");
    reveal_strlit("32");
    reveal_strlit("64");
    assert("Bool"@.len() == 4 && "Guid"@.len() == 4 && "Xml"@.len() == 3);
    assert("Int16"@.len() == 5 && "Int32"@.len() == 5 && "Int64"@.len() == 5);
    assert("Float32"@.len() == 7 && "Float64"@.len() == 7);
    assert("String"@.len() == 6 && "Binary"@.len() == 6 && "DateTime"@.len() == 8);
    assert("Bool"@[0] == 'B' && "Guid"@[0] == 'G' && "String"@[0] == 'S' && "Binary"@[0] == 'B');
    assert("Int16"@[3] == '1' && "Int32"@[3] == '3' && "Int64"@[3] == '6');
    assert("Float32"@[5] == '3' && "Float64"@[5] == '6');
    assert("Int16"@.skip(3) =~= "16"@);
    assert("Int32"@.skip(3) =~= "32"@);
    assert("Int64"@.skip(3) =~= "64"@);
    assert("Float32"@.skip(5) =~= "32"@);
    assert("Float64"@.skip(5) =~= "64"@);
}

/// Whether two values stand for the same: numbers that are the same number, and
/// otherwise values that are the same.
pub open spec fn alike(a: ValueView, b: ValueView) -> bool {
    match (a, b) {
        (ValueView::Float32(x), ValueView::Float32(y)) => single_laws::single_number(x)
            == single_laws::single_number(y),
        (ValueView::Float64(x), ValueView::Float64(y)) => float_laws::number(x)
            == float_laws::number(y),
        (ValueView::DateTime(x), ValueView::DateTime(y)) => float_laws::number(x)
            == float_laws::number(y),
        _ => a == b,
    }
}

/// Whether a value that is a number is a finite one.
pub open spec fn tame(v: ValueView) -> bool {
    match v {
        ValueView::Float32(x) => float_convert::finite32(x),
        ValueView::Float64(x) => float_bits::finite(x),
        ValueView::DateTime(x) => float_bits::finite(x),
        _ => true,
    }
}

/// Values are the same exactly where they stand for the same.
pub proof fn law_same_values(a: ValueView, b: ValueView)
    requires
        tame(a),
        tame(b),
    ensures
        value::same_value(a, b) <==> alike(a, b),
{
    match (a, b) {
        (ValueView::Float32(x), ValueView::Float32(y)) => {
            single_laws::law_same_singles(x, y);
        },
        (ValueView::Float64(x), ValueView::Float64(y)) => {
            float_laws::law_order_is_that_of_the_numbers(x, y);
        },
        (ValueView::DateTime(x), ValueView::DateTime(y)) => {
            float_laws::law_order_is_that_of_the_numbers(x, y);
        },
        (ValueView::Guid(x), ValueView::Guid(y)) => {
            if x@ == y@ {
                assert(x =~= y);
            }
        },
        _ => {},
    }
}

proof fn lemma_index(s: Seq<FieldDefView>, name: Seq<char>, n: int)
    requires
        n <= s.len(),
    ensures
        match schema::index_before(s, name, n) {
            Some(k) => 0 <= k < n && s[k].name == name && forall|j: int|
                k < j < n ==> (#[trigger] s[j]).name != name,
            None => forall|j: int| 0 <= j < n ==> (#[trigger] s[j]).name != name,
        },
    decreases n,
{
    if n > 0 && s[n - 1].name != name {
        lemma_index(s, name, n - 1);
    }
}

/// A name leads to the last field that has it, and to none where none has.
pub proof fn law_fields_by_name(s: Seq<FieldDefView>, name: Seq<char>)
    ensures
        match schema::index_of_field(s, name) {
            Some(k) => 0 <= k < s.len() && s[k].name == name && forall|j: int|
                k < j < s.len() ==> (#[trigger] s[j]).name != name,
            None => forall|j: int| 0 <= j < s.len() ==> (#[trigger] s[j]).name != name,
        },
{
    lemma_index(s, name, s.len() as int);
}

proof fn lemma_first_error(s: Seq<FieldDefView>, row: Seq<ValueView>, i: int, k: int)
    requires
        0 <= i <= k < s.len(),
        row.len() == s.len(),
        schema::cell_error(s[k], row[k], k) is Some,
        forall|j: int| i <= j < k ==> schema::cell_error(#[trigger] s[j], row[j], j) is None,
    ensures
        schema::cells_error(s, row, i) == schema::cell_error(s[k], row[k], k),
    decreases k - i,
{
    if i < k {
        assert(schema::cell_error(s[i], row[i], i) is None);
        lemma_first_error(s, row, i + 1, k);
    }
}

/// The error of a row is that of its first value that does not fit.
pub proof fn law_first_error_counts(s: Seq<FieldDefView>, row: Seq<ValueView>, k: int)
    requires
        row.len() == s.len(),
        0 <= k < s.len(),
        schema::cell_error(s[k], row[k], k) is Some,
        forall|j: int| 0 <= j < k ==> schema::cell_error(#[trigger] s[j], row[j], j) is None,
    ensures
        schema::row_error(s, row) == schema::cell_error(s[k], row[k], k),
{
    lemma_first_error(s, row, 0, k);
}

} // verus!
