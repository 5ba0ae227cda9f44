//! Conversion of JSON values to Arrow arrays.

use crate::arrays::{
    array_cells, array_view, batch_columns, batch_schema, boolean_array, cell_of, column_count,
    columns_of, decode_batches, decode_outcome, decoded_batches, double_as_single, double_of,
    first_column, float32_array, float64_array, hold_all_members, int16_array, int32_array,
    int64_array, int8_array, integer_as_double, large_string_array, merge_batches, merge_refused,
    nearest_double, nearest_single, one_reading, plain_cells, rows_of, rows_readable, stacked, string_array,
    struct_of_rows, takes_all, uint16_array, uint32_array, uint64_array, uint8_array, ArrayView,
    Batch, Cell, DecodeError, DecodeStage, RowSchema,
};
use crate::data_type::{
    in_range, plain_name, plain_text, plain_texts_differ, struct_text, type_shown, type_text,
    DataType, PlainType,
};
use crate::json::{
    finite_bits, json_text, number_digits, number_text, row_text, rows_text, to_row, to_rows,
    FiniteDouble, JsonValue, Number,
};
use crate::row_types::{is_readable, readable, Rows};
use crate::text::{natural_digits, natural_text};
use arrow::array::ArrayData;
use vstd::prelude::*;
use vstd::string::*;
use vstd::utf8::encode_utf8;

verus! {

/// What stands in an array in place of a value of the inferred type.
#[derive(Clone, Copy, Debug, PartialEq, Eq, Structural)]
pub enum Misfit {
    Number,
    Text,
    Boolean,
    Null,
    Array,
    Object,
}

/// Why a JSON value could not be converted to an Arrow array.
#[derive(Debug)]
pub enum ConvertError {
    /// The number is not an integer in the range of the narrow target type.
    OutOfRange { number: Number, target: PlainType },
    /// The number is not an integer in the range of the target type of 64 bits.
    NotRepresentable { number: Number, target: PlainType },
    /// Numbers are not converted to the type that this JSON text describes.
    UnsupportedType(String),
    /// Strings are not converted to the type that this JSON text describes.
    UnsupportedTextType(String),
    /// Booleans are not converted to the type that this JSON text describes.
    UnsupportedBooleanType(String),
    /// Null has no array of its own.
    NullValue,
    /// An object needs a type hint.
    ObjectWithoutHint,
    /// An array of arrays or objects needs a type hint.
    NestedWithoutHint,
    /// An empty array needs a type hint.
    EmptyArray,
    /// The element at `index` is not of the type inferred from the first one.
    TypeMismatch { index: usize, inferred: PlainType, found: Misfit },
    /// The reader for the type could not be made.
    ReaderFailed(String),
    /// A row could not be read.
    ReadFailed(String),
    /// No rows were read.
    NoBatches,
    /// The rows could not be put together.
    MergeFailed(String),
    /// The rows have no column.
    NoColumns,
}

/// What a [`ConvertError`] says, but for the complaint of the Arrow reader.
pub ghost enum ConvertFault {
    OutOfRange { number: Number, target: PlainType },
    NotRepresentable { number: Number, target: PlainType },
    UnsupportedType(Seq<char>),
    UnsupportedTextType(Seq<char>),
    UnsupportedBooleanType(Seq<char>),
    NullValue,
    ObjectWithoutHint,
    NestedWithoutHint,
    EmptyArray,
    TypeMismatch { index: int, inferred: PlainType, found: Misfit },
    ReaderFailed,
    ReadFailed,
    NoBatches,
    MergeFailed,
    NoColumns,
}

impl ConvertError {
    /// What the error says, but for the complaint of the Arrow reader.
    pub open spec fn fault(self) -> ConvertFault {
        match self {
            ConvertError::OutOfRange { number, target } => ConvertFault::OutOfRange {
                number,
                target,
            },
            ConvertError::NotRepresentable { number, target } => ConvertFault::NotRepresentable {
                number,
                target,
            },
            ConvertError::UnsupportedType(json) => ConvertFault::UnsupportedType(json@),
            ConvertError::UnsupportedTextType(json) => ConvertFault::UnsupportedTextType(json@),
            ConvertError::UnsupportedBooleanType(json) => ConvertFault::UnsupportedBooleanType(
                json@,
            ),
            ConvertError::NullValue => ConvertFault::NullValue,
            ConvertError::ObjectWithoutHint => ConvertFault::ObjectWithoutHint,
            ConvertError::NestedWithoutHint => ConvertFault::NestedWithoutHint,
            ConvertError::EmptyArray => ConvertFault::EmptyArray,
            ConvertError::TypeMismatch { index, inferred, found } => ConvertFault::TypeMismatch {
                index: index as int,
                inferred,
                found,
            },
            ConvertError::ReaderFailed(_) => ConvertFault::ReaderFailed,
            ConvertError::ReadFailed(_) => ConvertFault::ReadFailed,
            ConvertError::NoBatches => ConvertFault::NoBatches,
            ConvertError::MergeFailed(_) => ConvertFault::MergeFailed,
            ConvertError::NoColumns => ConvertFault::NoColumns,
        }
    }
}

/// Errors that say the same are of one kind, and name the same number, type, place and value.
pub proof fn errors_are_told_apart(a: ConvertError, b: ConvertError)
    requires
        a.fault() == b.fault(),
    ensures
        a matches ConvertError::OutOfRange { number, target } ==> b == (ConvertError::OutOfRange {
            number,
            target,
        }),
        a matches ConvertError::NotRepresentable { number, target } ==> b == (
        ConvertError::NotRepresentable { number, target }),
        a matches ConvertError::UnsupportedType(x) ==> (b matches ConvertError::UnsupportedType(y)
            && x@ == y@),
        a matches ConvertError::UnsupportedTextType(x) ==> (
        b matches ConvertError::UnsupportedTextType(y) && x@ == y@),
        a matches ConvertError::UnsupportedBooleanType(x) ==> (
        b matches ConvertError::UnsupportedBooleanType(y) && x@ == y@),
        a matches ConvertError::TypeMismatch { index, inferred, found } ==> b == (
        ConvertError::TypeMismatch { index, inferred, found }),
        a is NullValue <==> b is NullValue,
        a is ObjectWithoutHint <==> b is ObjectWithoutHint,
        a is NestedWithoutHint <==> b is NestedWithoutHint,
        a is EmptyArray <==> b is EmptyArray,
        a is ReaderFailed <==> b is ReaderFailed,
        a is ReadFailed <==> b is ReadFailed,
        a is NoBatches <==> b is NoBatches,
        a is MergeFailed <==> b is MergeFailed,
        a is NoColumns <==> b is NoColumns,
{
}

/// What the result of a conversion holds.
pub open spec fn array_outcome(r: Result<ArrayData, ConvertError>) -> Result<
    ArrayView,
    ConvertFault,
> {
    match r {
        Ok(array) => Ok(array_view(array)),
        Err(e) => Err(e.fault()),
    }
}

/// The array of a plain type that holds one value.
pub open spec fn single(p: PlainType, cell: Cell) -> ArrayView {
    ArrayView { data_type: plain_text(p), cells: seq![cell] }
}

/// Whether a type is one of the integer types.
pub open spec fn is_integer_type(p: PlainType) -> bool {
    match p {
        PlainType::Int8 | PlainType::Int16 | PlainType::Int32 | PlainType::Int64 => true,
        PlainType::UInt8 | PlainType::UInt16 | PlainType::UInt32 | PlainType::UInt64 => true,
        _ => false,
    }
}

/// The array of a number. A hint fixes the type, and an integer type takes only what is in
/// its range. Without one, integers are `Int64` where they fit and else `UInt64`, and
/// doubles are `Float64`.
pub open spec fn number_array(n: Number, hint: Option<&DataType>) -> Result<
    ArrayView,
    ConvertFault,
> {
    match hint {
        None => match n.integer() {
            Some(i) => if in_range(PlainType::Int64, i) {
                Ok(single(PlainType::Int64, Cell::Integer(i)))
            } else {
                Ok(single(PlainType::UInt64, Cell::Integer(i)))
            },
            None => Ok(single(PlainType::Float64, Cell::Double(double_of(n)))),
        },
        Some(DataType::Plain(p)) => if is_integer_type(*p) {
            match n.integer() {
                Some(i) => if in_range(*p, i) {
                    Ok(single(*p, Cell::Integer(i)))
                } else {
                    Err(range_fault(n, *p))
                },
                None => Err(range_fault(n, *p)),
            }
        } else if *p == PlainType::Float32 {
            Ok(single(*p, Cell::Single(nearest_single(double_of(n)))))
        } else if *p == PlainType::Float64 {
            Ok(single(*p, Cell::Double(double_of(n))))
        } else {
            Err(ConvertFault::UnsupportedType(plain_text(*p)))
        },
        Some(DataType::Other(t)) => Err(ConvertFault::UnsupportedType(json_text(**t))),
    }
}

/// What is said of a number that an integer type does not take.
pub open spec fn range_fault(number: Number, target: PlainType) -> ConvertFault {
    if target == PlainType::Int64 || target == PlainType::UInt64 {
        ConvertFault::NotRepresentable { number, target }
    } else {
        ConvertFault::OutOfRange { number, target }
    }
}

/// Integers stay exact: an array of an integer type holds the integer itself, never one that
/// was cut to fit, and without a hint an integer is never turned into a double.
pub proof fn integers_stay_exact(n: Number, hint: Option<&DataType>)
    requires
        hint is None || (hint matches Some(DataType::Plain(p)) && is_integer_type(*p)),
        number_array(n, hint) is Ok,
        hint is Some || n.integer() is Some,
    ensures
        n.integer() matches Some(i) && number_array(n, hint)->Ok_0.cells == seq![Cell::Integer(i)],
{
}

/// A number has an array of an integer type if and only if it is an integer in its range.
pub proof fn integer_types_take_what_is_in_range(n: Number, p: PlainType)
    requires
        is_integer_type(p),
    ensures
        number_array(n, Some(&DataType::Plain(p))) is Ok <==> (n.integer() matches Some(i)
            && in_range(p, i)),
{
}

impl Number {
    /// The bits of the nearest double.
    fn to_double(&self) -> (r: Option<u64>)
        ensures
            r == Some(double_of(*self)),
            finite_bits(double_of(*self)),
    {
        match self {
            Number::PosInt(u) => integer_as_double(*u as i128),
            Number::NegInt(i) => integer_as_double(*i as i128),
            Number::Float(d) => Some(d.bits()),
        }
    }
}

/// Convert a JSON number into an Arrow numeric array, respecting the
/// optional type hint for integer and float width.
pub fn number_to_arrow_array(n: &Number, hint: Option<&DataType>) -> (r: Result<
    ArrayData,
    ConvertError,
>)
    ensures
        array_outcome(r) == number_array(*n, hint),
        r matches Ok(array) ==> {
            &&& array_cells(array).len() == 1
            &&& hint matches Some(t) ==> array_view(array).data_type == type_text(*t)
            &&& *n matches Number::PosInt(u) ==> (array_cells(array)[0] matches Cell::Integer(i)
                ==> i == u)
            &&& *n matches Number::NegInt(k) ==> (array_cells(array)[0] matches Cell::Integer(i)
                ==> i == k)
            &&& *n matches Number::Float(d) ==> array_cells(array)[0] == (if hint is None
                || hint matches Some(DataType::Plain(PlainType::Float64)) {
                Cell::Double(d.spec_bits())
            } else {
                Cell::Single(nearest_single(d.spec_bits()))
            })
        },
        r is Ok <==> number_array(*n, hint) is Ok,
        r matches Err(ConvertError::OutOfRange { number, target }) ==> number == *n && hint == Some(
            &DataType::Plain(target),
        ) && target != PlainType::Int64 && target != PlainType::UInt64,
        r matches Err(ConvertError::NotRepresentable { number, target }) ==> number == *n && hint
            == Some(&DataType::Plain(target)) && (target == PlainType::Int64 || target
            == PlainType::UInt64),
        r matches Err(ConvertError::UnsupportedType(json)) ==> (hint matches Some(t) && json@
            == type_text(*t)),
        r matches Err(e) ==> e is OutOfRange || e is NotRepresentable || e is UnsupportedType,
        hint is None ==> r is Ok,
        hint is None && !(n is Float) ==> (r matches Ok(array) ==> array_cells(
            array,
        )[0] is Integer),
{
    match hint {
        Some(DataType::Plain(target)) => match target {
            PlainType::Int8 => match n.as_i64() {
                Some(i) if i8::MIN as i64 <= i && i <= i8::MAX as i64 => Ok(int8_array(i as i8)),
                _ => Err(ConvertError::OutOfRange { number: *n, target: *target }),
            },
            PlainType::Int16 => match n.as_i64() {
                Some(i) if i16::MIN as i64 <= i && i <= i16::MAX as i64 => Ok(
                    int16_array(i as i16),
                ),
                _ => Err(ConvertError::OutOfRange { number: *n, target: *target }),
            },
            PlainType::Int32 => match n.as_i64() {
                Some(i) if i32::MIN as i64 <= i && i <= i32::MAX as i64 => Ok(
                    int32_array(i as i32),
                ),
                _ => Err(ConvertError::OutOfRange { number: *n, target: *target }),
            },
            PlainType::Int64 => match n.as_i64() {
                Some(i) => Ok(int64_array(i)),
                None => Err(ConvertError::NotRepresentable { number: *n, target: *target }),
            },
            PlainType::UInt8 => match n.as_u64() {
                Some(u) if u <= u8::MAX as u64 => Ok(uint8_array(u as u8)),
                _ => Err(ConvertError::OutOfRange { number: *n, target: *target }),
            },
            PlainType::UInt16 => match n.as_u64() {
                Some(u) if u <= u16::MAX as u64 => Ok(uint16_array(u as u16)),
                _ => Err(ConvertError::OutOfRange { number: *n, target: *target }),
            },
            PlainType::UInt32 => match n.as_u64() {
                Some(u) if u <= u32::MAX as u64 => Ok(uint32_array(u as u32)),
                _ => Err(ConvertError::OutOfRange { number: *n, target: *target }),
            },
            PlainType::UInt64 => match n.as_u64() {
                Some(u) => Ok(uint64_array(u)),
                None => Err(ConvertError::NotRepresentable { number: *n, target: *target }),
            },
            PlainType::Float32 => match n.to_double() {
                Some(bits) => Ok(float32_array(double_as_single(bits))),
                None => Err(ConvertError::NotRepresentable { number: *n, target: *target }),
            },
            PlainType::Float64 => match n.to_double() {
                Some(bits) => Ok(float64_array(bits)),
                None => Err(ConvertError::NotRepresentable { number: *n, target: *target }),
            },
            _ => Err(ConvertError::UnsupportedType(DataType::Plain(*target).to_text())),
        },
        // Without a hint the type follows from the shape of the number. A value above the
        // range of i64 stays an exact integer: a double would lose its low digits.
        None => match n.as_i64() {
            Some(i) => Ok(int64_array(i)),
            None => match n.as_u64() {
                Some(u) => Ok(uint64_array(u)),
                None => match n.to_double() {
                    Some(bits) => Ok(float64_array(bits)),
                    None => Err(
                        ConvertError::NotRepresentable { number: *n, target: PlainType::Float64 },
                    ),
                },
            },
        },
        Some(DataType::Other(t)) => Err(ConvertError::UnsupportedType(t.to_text())),
    }
}

/// The type of an array's elements, going by the first one.
pub open spec fn inferred_type(items: Seq<JsonValue>) -> Result<PlainType, ConvertFault> {
    if items.len() == 0 {
        Err(ConvertFault::EmptyArray)
    } else {
        match items[0] {
            JsonValue::Number(n) => if n is Float {
                Ok(PlainType::Float64)
            } else {
                Ok(PlainType::Int64)
            },
            JsonValue::String(_) => Ok(PlainType::Utf8),
            JsonValue::Bool(_) => Ok(PlainType::Boolean),
            JsonValue::Null => Ok(PlainType::Null),
            JsonValue::Array(_) | JsonValue::Object(_) => Err(ConvertFault::NestedWithoutHint),
        }
    }
}

/// Whether a value can stand in an array of an inferred type: any number in one of
/// doubles, and only an integer in one of integers.
pub open spec fn fits(p: PlainType, v: JsonValue) -> bool {
    match v {
        JsonValue::Number(n) => p == PlainType::Float64 || (p == PlainType::Int64 && !(n is Float)),
        JsonValue::String(_) => p == PlainType::Utf8,
        JsonValue::Bool(_) => p == PlainType::Boolean,
        JsonValue::Null => p == PlainType::Null,
        JsonValue::Array(_) | JsonValue::Object(_) => false,
    }
}

/// The kind of a value that does not fit.
pub open spec fn misfit(v: JsonValue) -> Misfit {
    match v {
        JsonValue::Number(_) => Misfit::Number,
        JsonValue::String(_) => Misfit::Text,
        JsonValue::Bool(_) => Misfit::Boolean,
        JsonValue::Null => Misfit::Null,
        JsonValue::Array(_) => Misfit::Array,
        JsonValue::Object(_) => Misfit::Object,
    }
}

/// The first index, from `from` on, of a value that does not fit.
pub open spec fn first_misfit(p: PlainType, items: Seq<JsonValue>, from: int) -> Option<int>
    decreases items.len() - from,
{
    if from >= items.len() {
        None
    } else if !fits(p, items[from]) {
        Some(from)
    } else {
        first_misfit(p, items, from + 1)
    }
}

/// The type that the elements of an array are read with: the hint, or else what all of
/// them fit.
pub open spec fn element_type<'a>(items: Seq<JsonValue>, hint: Option<&DataType<'a>>) -> Result<
    DataType<'a>,
    ConvertFault,
> {
    match hint {
        Some(t) => Ok(*t),
        None => match inferred_type(items) {
            Ok(p) => match first_misfit(p, items, 1) {
                Some(index) => Err(
                    ConvertFault::TypeMismatch { index, inferred: p, found: misfit(items[index]) },
                ),
                None => Ok(DataType::Plain(p)),
            },
            Err(fault) => Err(fault),
        },
    }
}

/// An array that is accepted without a hint is uniform: each of its elements fits the type
/// inferred from the first.
pub proof fn accepted_arrays_are_uniform(items: Seq<JsonValue>, i: int)
    requires
        element_type(items, None) is Ok,
        0 <= i < items.len(),
    ensures
        element_type(items, None)->Ok_0 matches DataType::Plain(p) && inferred_type(items) == Ok::<
            PlainType,
            ConvertFault,
        >(p) && fits(p, items[i]),
{
    let p = inferred_type(items)->Ok_0;
    assert(fits(p, items[0]));
    if i > 0 {
        no_misfit_means_all_fit(p, items, 1, i);
    }
}

/// An array that is refused for a mismatch is refused at its first element that does not
/// fit: all before it do.
pub proof fn mismatch_is_at_the_first_misfit(items: Seq<JsonValue>)
    requires
        element_type(items, None) matches Err(ConvertFault::TypeMismatch { .. }),
    ensures
        element_type(items, None)->Err_0 matches ConvertFault::TypeMismatch {
            index,
            inferred,
            found,
        } && 1 <= index < items.len() && !fits(inferred, items[index]) && found == misfit(
            items[index],
        ) && forall|j: int| 0 <= j < index ==> fits(inferred, #[trigger] items[j]),
{
    let p = inferred_type(items)->Ok_0;
    assert(fits(p, items[0]));
    misfit_is_first(p, items, 1);
}

proof fn no_misfit_means_all_fit(p: PlainType, items: Seq<JsonValue>, from: int, i: int)
    requires
        first_misfit(p, items, from) is None,
        from <= i < items.len(),
    ensures
        fits(p, items[i]),
    decreases items.len() - from,
{
    if from < i {
        no_misfit_means_all_fit(p, items, from + 1, i);
    }
}

proof fn misfit_is_first(p: PlainType, items: Seq<JsonValue>, from: int)
    requires
        first_misfit(p, items, from) is Some,
    ensures
        first_misfit(p, items, from) matches Some(index) && from <= index < items.len() && !fits(
            p,
            items[index],
        ) && forall|j: int| from <= j < index ==> fits(p, #[trigger] items[j]),
    decreases items.len() - from,
{
    if fits(p, items[from]) {
        misfit_is_first(p, items, from + 1);
    }
}

/// Whether a value can stand in an array of an inferred type.
fn does_fit(p: PlainType, v: &JsonValue) -> (r: bool)
    ensures
        r == fits(p, *v),
{
    match (p, v) {
        (PlainType::Float64, JsonValue::Number(_)) => true,
        (PlainType::Int64, JsonValue::Number(n)) => !n.is_f64(),
        (PlainType::Utf8, JsonValue::String(_)) => true,
        (PlainType::Boolean, JsonValue::Bool(_)) => true,
        (PlainType::Null, JsonValue::Null) => true,
        _ => false,
    }
}

/// The kind of a value that does not fit.
fn misfit_of(v: &JsonValue) -> (r: Misfit)
    ensures
        r == misfit(*v),
{
    match v {
        JsonValue::Number(_) => Misfit::Number,
        JsonValue::String(_) => Misfit::Text,
        JsonValue::Bool(_) => Misfit::Boolean,
        JsonValue::Null => Misfit::Null,
        JsonValue::Array(_) => Misfit::Array,
        JsonValue::Object(_) => Misfit::Object,
    }
}

/// What a result of [`array_element_type`] holds.
pub open spec fn element_outcome<'a>(r: Result<DataType<'a>, ConvertError>) -> Result<
    DataType<'a>,
    ConvertFault,
> {
    match r {
        Ok(t) => Ok(t),
        Err(e) => Err(e.fault()),
    }
}

/// The type that the elements of an array are read with, from the hint or inferred from
/// the first element. The others are checked against an inferred type, so that an array
/// like `[42, "hello"]` is refused for what it is.
pub fn array_element_type<'a>(items: &Vec<JsonValue>, hint: Option<&DataType<'a>>) -> (r: Result<
    DataType<'a>,
    ConvertError,
>)
    ensures
        element_outcome(r) == element_type(items@, hint),
        hint matches Some(t) ==> r == Ok::<DataType, ConvertError>(*t),
        hint is None ==> {
            &&& (r matches Err(ConvertError::EmptyArray)) <==> items@.len() == 0
            &&& (r matches Err(ConvertError::NestedWithoutHint)) <==> items@.len() > 0 && (
            items@[0] is Array || items@[0] is Object)
            &&& r is Err ==> r->Err_0 is EmptyArray || r->Err_0 is NestedWithoutHint
                || r->Err_0 is TypeMismatch
            &&& r matches Err(ConvertError::TypeMismatch { index, inferred, found }) ==> 1 <= index
                < items@.len() && !fits(inferred, items@[index as int]) && found == misfit(
                items@[index as int],
            )
        },
{
    let inferred = match hint {
        Some(t) => {
            return Ok(*t);
        },
        None => {
            if items.len() == 0 {
                return Err(ConvertError::EmptyArray);
            }
            match &items[0] {
                JsonValue::Number(n) => if n.is_f64() {
                    PlainType::Float64
                } else {
                    PlainType::Int64
                },
                JsonValue::String(_) => PlainType::Utf8,
                JsonValue::Bool(_) => PlainType::Boolean,
                JsonValue::Null => PlainType::Null,
                JsonValue::Array(_) | JsonValue::Object(_) => {
                    return Err(ConvertError::NestedWithoutHint);
                },
            }
        },
    };
    let mut i: usize = 1;
    while i < items.len()
        invariant
            1 <= i <= items.len(),
            first_misfit(inferred, items@, 1) == first_misfit(inferred, items@, i as int),
            inferred_type(items@) == Ok::<PlainType, ConvertFault>(inferred),
            hint is None,
        decreases items.len() - i,
    {
        if !does_fit(inferred, &items[i]) {
            return Err(
                ConvertError::TypeMismatch { index: i, inferred, found: misfit_of(&items[i]) },
            );
        }
        i = i + 1;
    }
    Ok(DataType::Plain(inferred))
}

/// The member under which each value stands in its row.
pub open spec fn row_field() -> Seq<char> {
    "data"@
}

/// The values of the batches of a reading, of the type that `type_json` describes, put
/// together.
pub open spec fn merged_cells(
    read: Result<Seq<Seq<Seq<Cell>>>, DecodeStage>,
    type_json: Seq<char>,
) -> Result<Seq<Cell>, ConvertFault> {
    match read {
        Ok(batches) => if batches.len() == 0 {
            Err(ConvertFault::NoBatches)
        } else if merge_refused(batches, type_json) {
            Err(ConvertFault::MergeFailed)
        } else {
            Ok(stacked(batches, 0))
        },
        Err(DecodeStage::Reader) => Err(ConvertFault::ReaderFailed),
        Err(DecodeStage::Row) => Err(ConvertFault::ReadFailed),
    }
}

/// The column that rows are read as.
pub open spec fn rows_column(json: Seq<u8>, type_json: Seq<char>) -> Result<
    ArrayView,
    ConvertFault,
> {
    match merged_cells(decoded_batches(json, row_field(), true, type_json), type_json) {
        Ok(cells) => Ok(ArrayView { data_type: type_json, cells }),
        Err(fault) => Err(fault),
    }
}

/// The structures that rows are read as, with the column that rows are read as for their one
/// field.
pub open spec fn rows_struct(json: Seq<u8>, type_json: Seq<char>) -> Result<
    ArrayView,
    ConvertFault,
> {
    match merged_cells(decoded_batches(json, row_field(), true, type_json), type_json) {
        Ok(cells) => Ok(struct_view(type_json, cells)),
        Err(fault) => Err(fault),
    }
}

/// The array of structures of the one field `data` that hold these values.
pub open spec fn struct_view(type_json: Seq<char>, cells: Seq<Cell>) -> ArrayView {
    ArrayView { data_type: struct_text(row_field(), true, type_json), cells: rows_of(cells) }
}

/// What rows are read with, where the values are of the type that `type_json` describes.
pub open spec fn row_schema(type_json: Seq<char>) -> RowSchema {
    RowSchema { field: row_field(), nullable: true, type_json }
}

/// What a merge of batches comes to: a batch with a column, or the error with the reason for
/// which it was refused.
pub fn check_merged(merged: Result<Batch, String>) -> (r: Result<Batch, ConvertError>)
    ensures
        match merged {
            Ok(batch) => if batch_columns(batch).len() == 0 {
                r matches Err(ConvertError::NoColumns)
            } else {
                r == Ok::<Batch, ConvertError>(batch)
            },
            Err(reason) => r matches Err(ConvertError::MergeFailed(said)) && said@ == reason@,
        },
{
    match merged {
        Ok(batch) => if column_count(&batch) == 0 {
            Err(ConvertError::NoColumns)
        } else {
            Ok(batch)
        },
        Err(reason) => Err(ConvertError::MergeFailed(reason)),
    }
}

/// What a result of [`merge_read`] holds.
pub open spec fn merge_outcome(r: Result<Batch, ConvertError>) -> Result<Seq<Cell>, ConvertFault> {
    match r {
        Ok(batch) => Ok(batch_columns(batch)[0]),
        Err(e) => Err(e.fault()),
    }
}

/// What a reading was made with, where it gave a batch.
pub open spec fn reading_schema(read: Result<Vec<Batch>, DecodeError>) -> RowSchema {
    match read {
        Ok(batches) => batch_schema(batches@[0]),
        Err(_) => row_schema(seq![]),
    }
}

/// Put all the batches of a reading together. A failure to read is passed on with its reason.
pub fn merge_read(read: Result<Vec<Batch>, DecodeError>) -> (r: Result<Batch, ConvertError>)
    requires
        read matches Ok(batches) ==> (batches@.len() > 0 ==> one_reading(
            batches@,
            reading_schema(read),
        )),
    ensures
        merge_outcome(r) == merged_cells(decode_outcome(read), reading_schema(read).type_json),
        r matches Ok(batch) ==> batch_columns(batch).len() == 1 && batch_schema(batch)
            == reading_schema(read),
        forall|p: PlainType|
            read matches Ok(batches) ==> (batches@.len() > 0 && reading_schema(read).type_json
                == #[trigger] plain_text(p) ==> r is Ok),
        read matches Ok(batches) ==> (batches@.len() == 1 ==> r is Ok),
        r matches Ok(batch) ==> (read matches Ok(batches) && batches@.len() > 0 && batch_columns(
            batch,
        )[0] == stacked(columns_of(batches@), 0)),
        (r matches Err(ConvertError::NoBatches)) <==> (read matches Ok(batches) && batches@.len()
            == 0),
        read matches Ok(batches) ==> (batches@.len() > 0 ==> (r is Err <==> merge_refused(
            columns_of(batches@),
            reading_schema(read).type_json,
        ))),
        read matches Err(DecodeError::Reader(reason)) ==> (r matches Err(
            ConvertError::ReaderFailed(said),
        ) && said@ == reason@),
        read matches Err(DecodeError::Row(reason)) ==> (r matches Err(
            ConvertError::ReadFailed(said),
        ) && said@ == reason@),
{
    let batches = match read {
        Ok(batches) => batches,
        Err(DecodeError::Reader(reason)) => {
            return Err(ConvertError::ReaderFailed(reason));
        },
        Err(DecodeError::Row(reason)) => {
            return Err(ConvertError::ReadFailed(reason));
        },
    };
    if batches.len() == 0 {
        return Err(ConvertError::NoBatches);
    }
    check_merged(merge_batches(&batches))
}

/// Parse rows of JSON, putting all batches together.
fn read_rows(json: &[u8], type_json: &str) -> (r: Result<Batch, ConvertError>)
    requires
        rows_readable(json@, row_field(), type_json@),
    ensures
        merge_outcome(r) == merged_cells(
            decoded_batches(json@, row_field(), true, type_json@),
            type_json@,
        ),
        r matches Ok(batch) ==> batch_columns(batch).len() == 1 && batch_schema(batch)
            == row_schema(type_json@),
        forall|items: Seq<JsonValue>|
            json@ == encode_utf8(#[trigger] rows_text(row_field(), items)) ==> match r {
                Ok(batch) => batch_columns(batch)[0].len() == items.len(),
                Err(e) => {
                    &&& e.fault() == ConvertFault::NoBatches ==> items.len() == 0
                    &&& e.fault() == ConvertFault::MergeFailed ==> items.len() > 1
                },
            },
        forall|p: PlainType, items: Seq<JsonValue>|
            type_json@ == #[trigger] plain_text(p) && json@ == encode_utf8(
                #[trigger] rows_text(row_field(), items),
            ) && takes_all(p, items) ==> match r {
                Ok(batch) => items.len() > 0 && batch_columns(batch)[0] == plain_cells(p, items),
                Err(e) => items.len() == 0 && e.fault() == ConvertFault::NoBatches,
            },
        forall|t: JsonValue, items: Seq<JsonValue>|
            type_json@ == #[trigger] json_text(t) && json@ == encode_utf8(
                #[trigger] rows_text(row_field(), items),
            ) ==> (r matches Ok(batch) ==> hold_all_members(t, items, batch_columns(batch)[0])),
{
    let read = decode_batches(json, "data", true, type_json);
    proof {
        if read is Ok {
            stacked_is_long(columns_of(read->Ok_0@));
        }
    }
    merge_read(read)
}

/// Batches of one column and at least one row have no fewer rows than there are batches.
proof fn stacked_is_long(batches: Seq<Seq<Seq<Cell>>>)
    requires
        forall|i: int| 0 <= i < batches.len() ==> (#[trigger] batches[i])[0].len() > 0,
    ensures
        stacked(batches, 0).len() >= batches.len(),
    decreases batches.len(),
{
    if batches.len() > 0 {
        let before = batches.drop_last();
        assert forall|i: int| 0 <= i < before.len() implies (#[trigger] before[i])[0].len() > 0 by {
            assert(batches[i] == before[i]);
        }
        stacked_is_long(before);
    }
}

/// Parse rows of JSON into an Arrow column, putting all batches together and extracting
/// the first column.
fn json_bytes_to_arrow_column(json: &[u8], type_json: &str) -> (r: Result<ArrayData, ConvertError>)
    requires
        rows_readable(json@, row_field(), type_json@),
    ensures
        array_outcome(r) == rows_column(json@, type_json@),
        forall|items: Seq<JsonValue>|
            json@ == encode_utf8(#[trigger] rows_text(row_field(), items)) ==> match r {
                Ok(array) => array_cells(array).len() == items.len(),
                Err(e) => {
                    &&& e.fault() == ConvertFault::NoBatches ==> items.len() == 0
                    &&& e.fault() == ConvertFault::MergeFailed ==> items.len() > 1
                },
            },
        forall|t: JsonValue, items: Seq<JsonValue>|
            type_json@ == #[trigger] json_text(t) && json@ == encode_utf8(
                #[trigger] rows_text(row_field(), items),
            ) ==> (r matches Ok(array) ==> hold_all_members(t, items, array_cells(array))),
{
    match read_rows(json, type_json) {
        Ok(batch) => Ok(first_column(&batch)),
        Err(e) => Err(e),
    }
}

/// The array of the values of a JSON array: a structure of the one field `data` for each.
pub open spec fn items_array(items: Seq<JsonValue>, hint: Option<&DataType>) -> Result<
    ArrayView,
    ConvertFault,
> {
    match element_type(items, hint) {
        Ok(t) => rows_struct(encode_utf8(rows_text(row_field(), items)), type_text(t)),
        Err(fault) => Err(fault),
    }
}

/// The array of the values of a JSON array of a plain type that takes each of them: its
/// structures hold these values, in order.
pub open spec fn plain_array(items: Seq<JsonValue>, hint: Option<&DataType>) -> Option<ArrayView> {
    match element_type(items, hint) {
        Ok(DataType::Plain(p)) => if items.len() > 0 && takes_all(p, items) {
            Some(struct_view(plain_text(p), plain_cells(p, items)))
        } else {
            None
        },
        _ => None,
    }
}

/// The array of a JSON value that is no object and, if it is an array, has a plain one.
pub open spec fn plain_value_array(v: JsonValue, hint: Option<&DataType>) -> Option<ArrayView> {
    match v {
        JsonValue::Array(items) => plain_array(items@, hint),
        JsonValue::Object(_) => None,
        _ => match value_array(v, hint) {
            Ok(array) => Some(array),
            Err(_) => None,
        },
    }
}

/// The array of a JSON array is one of structures: their one field is `data`, may be null and is
/// of the type of the elements, and each structure holds one value.
pub proof fn arrays_become_structures(items: Seq<JsonValue>, hint: Option<&DataType>)
    requires
        items_array(items, hint) is Ok,
    ensures
        element_type(items, hint) matches Ok(t) && items_array(items, hint)->Ok_0.data_type
            == struct_text("data"@, true, type_text(t)),
        forall|i: int|
            0 <= i < items_array(items, hint)->Ok_0.cells.len() ==> (
            #[trigger] items_array(items, hint)->Ok_0.cells[i] matches Cell::Nested(values)
                && values.len() == 1),
{
}

/// An array that is accepted without a hint holds its elements, in order, unless it is one of
/// integers and has one above the range of `Int64`.
pub proof fn uniform_arrays_hold_their_elements(items: Seq<JsonValue>)
    requires
        element_type(items, None) is Ok,
        inferred_type(items)->Ok_0 == PlainType::Int64 ==> forall|i: int|
            0 <= i < items.len() ==> ((#[trigger] items[i]) matches JsonValue::Number(n) ==> (
            n.integer() matches Some(k) ==> in_range(PlainType::Int64, k))),
    ensures
        plain_array(items, None) is Some,
        plain_array(items, None)->Some_0.cells.len() == items.len(),
        forall|i: int|
            0 <= i < items.len() ==> plain_array(items, None)->Some_0.cells[i] == Cell::Nested(
                seq![cell_of(inferred_type(items)->Ok_0, #[trigger] items[i])->Some_0],
            ),
{
    let p = inferred_type(items)->Ok_0;
    assert forall|i: int| 0 <= i < items.len() implies cell_of(
        p,
        #[trigger] items[i],
    ).is_some() by {
        accepted_arrays_are_uniform(items, i);
    }
}

/// The array of a JSON object: one row. Without a hint there is none, as the type of its
/// members would have to be guessed.
pub open spec fn object_array(obj: JsonValue, hint: Option<&DataType>) -> Result<
    ArrayView,
    ConvertFault,
> {
    match hint {
        Some(t) => rows_column(encode_utf8(rows_text(row_field(), seq![obj])), type_text(*t)),
        None => Err(ConvertFault::ObjectWithoutHint),
    }
}

/// The array of a JSON value.
pub open spec fn value_array(v: JsonValue, hint: Option<&DataType>) -> Result<
    ArrayView,
    ConvertFault,
> {
    match v {
        JsonValue::Number(n) => number_array(n, hint),
        JsonValue::String(s) => text_array(s@, hint),
        JsonValue::Bool(b) => boolean_array_of(b, hint),
        JsonValue::Array(items) => items_array(items@, hint),
        JsonValue::Object(_) => object_array(v, hint),
        JsonValue::Null => Err(ConvertFault::NullValue),
    }
}

/// The array of a text: of the type of the hint, which is one of texts, and `Utf8` without
/// one.
pub open spec fn text_array(s: Seq<char>, hint: Option<&DataType>) -> Result<
    ArrayView,
    ConvertFault,
> {
    match hint {
        None | Some(DataType::Plain(PlainType::Utf8)) => Ok(
            single(PlainType::Utf8, Cell::Text(s)),
        ),
        Some(DataType::Plain(PlainType::LargeUtf8)) => Ok(
            single(PlainType::LargeUtf8, Cell::Text(s)),
        ),
        Some(t) => Err(ConvertFault::UnsupportedTextType(type_text(*t))),
    }
}

/// The array of a boolean. A hint must be that of its type.
pub open spec fn boolean_array_of(b: bool, hint: Option<&DataType>) -> Result<
    ArrayView,
    ConvertFault,
> {
    match hint {
        None | Some(DataType::Plain(PlainType::Boolean)) => Ok(
            single(PlainType::Boolean, Cell::Truth(b)),
        ),
        Some(t) => Err(ConvertFault::UnsupportedBooleanType(type_text(*t))),
    }
}

/// The hint is respected: the array of a number, a string or a boolean is of the type of the
/// hint and holds one value, which is not null; a value that does not fit it has none.
pub proof fn hints_are_respected(v: JsonValue, hint: &DataType)
    requires
        v is Number || v is String || v is Bool,
        value_array(v, Some(hint)) is Ok,
    ensures
        value_array(v, Some(hint))->Ok_0.data_type == type_text(*hint),
        value_array(v, Some(hint))->Ok_0.cells.len() == 1,
        !(value_array(v, Some(hint))->Ok_0.cells[0] is Null),
{
}

/// A boolean is kept: it has an array if and only if the hint, if there is one, is that of
/// booleans, and the array is one of booleans that holds this one and nothing else.
pub proof fn booleans_are_kept(b: bool, hint: Option<&DataType>)
    ensures
        value_array(JsonValue::Bool(b), hint) is Ok <==> (hint is None || hint matches Some(
            DataType::Plain(PlainType::Boolean),
        )),
        value_array(JsonValue::Bool(b), hint) matches Ok(array) ==> array.data_type == plain_text(
            PlainType::Boolean,
        ) && array.cells == seq![Cell::Truth(b)],
        value_array(JsonValue::Bool(b), hint) matches Err(fault) ==> (hint matches Some(t)
            && fault == ConvertFault::UnsupportedBooleanType(type_text(*t))),
{
}

/// A string is kept: it has an array if and only if the hint, if there is one, is one of the
/// types of texts, and the array is of that type, `Utf8` without a hint, and holds this text and
/// nothing else.
pub proof fn strings_are_kept(s: String, hint: Option<&DataType>)
    ensures
        value_array(JsonValue::String(s), hint) is Ok <==> (hint is None || hint matches Some(
            DataType::Plain(PlainType::Utf8),
        ) || hint matches Some(DataType::Plain(PlainType::LargeUtf8))),
        value_array(JsonValue::String(s), hint) matches Ok(array) ==> array.cells == seq![
            Cell::Text(s@),
        ] && array.data_type == (match hint {
            Some(t) => type_text(*t),
            None => plain_text(PlainType::Utf8),
        }),
        value_array(JsonValue::String(s), hint) matches Err(fault) ==> (hint matches Some(t)
            && fault == ConvertFault::UnsupportedTextType(type_text(*t))),
{
}

/// A double is kept: without a hint, and under that of doubles, it has an array of doubles that
/// holds its very bits. Under that of singles it has the nearest one, and under any other none.
pub proof fn doubles_are_kept(d: FiniteDouble, hint: &DataType)
    ensures
        value_array(JsonValue::Number(Number::Float(d)), None) matches Ok(array)
            && array.data_type == plain_text(PlainType::Float64) && array.cells == seq![
            Cell::Double(d.spec_bits()),
        ],
        *hint == DataType::Plain(PlainType::Float64) ==> value_array(
            JsonValue::Number(Number::Float(d)),
            Some(hint),
        ) == value_array(JsonValue::Number(Number::Float(d)), None),
        *hint == DataType::Plain(PlainType::Float32) ==> (value_array(
            JsonValue::Number(Number::Float(d)),
            Some(hint),
        ) matches Ok(array) && array.data_type == plain_text(PlainType::Float32) && array.cells
            == seq![Cell::Single(nearest_single(d.spec_bits()))]),
        value_array(JsonValue::Number(Number::Float(d)), Some(hint)) is Ok ==> *hint
            == DataType::Plain(PlainType::Float64) || *hint == DataType::Plain(PlainType::Float32),
{
}

/// An integer is kept: without a hint it has an array that holds this very integer, of `Int64`
/// where it fits and else of `UInt64`. Under the hint of doubles or singles it has the nearest
/// one.
pub proof fn integers_are_kept(n: Number, i: int)
    requires
        n matches Number::PosInt(u) ==> i == u,
        n matches Number::NegInt(k) ==> i == k,
        !(n is Float),
    ensures
        value_array(JsonValue::Number(n), None) matches Ok(array) && array.cells == seq![
            Cell::Integer(i),
        ] && array.data_type == (if i < 0x8000_0000_0000_0000 {
            plain_text(PlainType::Int64)
        } else {
            plain_text(PlainType::UInt64)
        }),
        value_array(JsonValue::Number(n), Some(&DataType::Plain(PlainType::Float64))) matches Ok(
            array,
        ) && array.cells == seq![Cell::Double(nearest_double(i))] && array.data_type == plain_text(
            PlainType::Float64,
        ),
        value_array(JsonValue::Number(n), Some(&DataType::Plain(PlainType::Float32))) matches Ok(
            array,
        ) && array.cells == seq![Cell::Single(nearest_single(nearest_double(i)))]
            && array.data_type == plain_text(PlainType::Float32),
{
}

/// Under the hint of an integer type a number has an array if and only if it is an integer from
/// the least to the greatest of that type: the array is of the type and holds this integer. Any
/// other number is refused, and named with the type that does not take it.
pub proof fn integer_types_hold_their_range(n: Number, p: PlainType, least: int, greatest: int)
    requires
        (p == PlainType::Int8 && least == -128 && greatest == 127) || (p == PlainType::Int16
            && least == -32768 && greatest == 32767) || (p == PlainType::Int32 && least
            == -2147483648 && greatest == 2147483647) || (p == PlainType::Int64 && least
            == -9223372036854775808 && greatest == 9223372036854775807) || (p == PlainType::UInt8
            && least == 0 && greatest == 255) || (p == PlainType::UInt16 && least == 0 && greatest
            == 65535) || (p == PlainType::UInt32 && least == 0 && greatest == 4294967295) || (p
            == PlainType::UInt64 && least == 0 && greatest == 18446744073709551615),
    ensures
        n matches Number::PosInt(u) ==> (least <= u <= greatest <==> value_array(
            JsonValue::Number(n),
            Some(&DataType::Plain(p)),
        ) == Ok::<ArrayView, ConvertFault>(
            ArrayView { data_type: plain_text(p), cells: seq![Cell::Integer(u as int)] },
        )),
        n matches Number::NegInt(k) ==> (least <= k <= greatest <==> value_array(
            JsonValue::Number(n),
            Some(&DataType::Plain(p)),
        ) == Ok::<ArrayView, ConvertFault>(
            ArrayView { data_type: plain_text(p), cells: seq![Cell::Integer(k as int)] },
        )),
        n matches Number::PosInt(u) ==> (value_array(
            JsonValue::Number(n),
            Some(&DataType::Plain(p)),
        ) is Ok ==> least <= u <= greatest),
        n matches Number::NegInt(k) ==> (value_array(
            JsonValue::Number(n),
            Some(&DataType::Plain(p)),
        ) is Ok ==> least <= k <= greatest),
        n is Float ==> value_array(JsonValue::Number(n), Some(&DataType::Plain(p))) is Err,
        value_array(JsonValue::Number(n), Some(&DataType::Plain(p))) matches Err(fault) ==> fault
            == (if p == PlainType::Int64 || p == PlainType::UInt64 {
            ConvertFault::NotRepresentable { number: n, target: p }
        } else {
            ConvertFault::OutOfRange { number: n, target: p }
        }),
{
}

/// A number has no array of a type that is not one of numbers, and the refusal names the type.
pub proof fn only_types_of_numbers_take_numbers(n: Number, hint: &DataType)
    requires
        hint is Other || *hint == DataType::Plain(PlainType::Null) || *hint == DataType::Plain(
            PlainType::Boolean,
        ) || *hint == DataType::Plain(PlainType::Utf8) || *hint == DataType::Plain(
            PlainType::LargeUtf8,
        ),
    ensures
        value_array(JsonValue::Number(n), Some(hint)) == Err::<ArrayView, ConvertFault>(
            ConvertFault::UnsupportedType(type_text(*hint)),
        ),
{
}

/// Null has no array, whatever the hint, and an object none without one.
pub proof fn nulls_and_bare_objects_are_refused(
    hint: Option<&DataType>,
    members: Vec<(String, JsonValue)>,
)
    ensures
        value_array(JsonValue::Null, hint) == Err::<ArrayView, ConvertFault>(
            ConvertFault::NullValue,
        ),
        value_array(JsonValue::Object(members), None) == Err::<ArrayView, ConvertFault>(
            ConvertFault::ObjectWithoutHint,
        ),
{
}

/// A hint decides the type of an array's elements. Without one an array is accepted if and only
/// if it has a first element, which is no array or object, and all the others are of its kind:
/// where the first is an integer, integers.
pub proof fn only_uniform_arrays_are_accepted(items: Seq<JsonValue>, hint: &DataType)
    ensures
        element_type(items, Some(hint)) == Ok::<DataType, ConvertFault>(*hint),
        element_type(items, None) is Ok <==> {
            &&& items.len() > 0
            &&& !(items[0] is Array || items[0] is Object)
            &&& forall|i: int|
                0 <= i < items.len() ==> {
                    &&& items[0] is Null ==> (#[trigger] items[i]) is Null
                    &&& items[0] is Bool ==> items[i] is Bool
                    &&& items[0] is String ==> items[i] is String
                    &&& items[0] matches JsonValue::Number(first) ==> (
                    items[i] matches JsonValue::Number(n) && (n is Float ==> first is Float))
                }
        },
        element_type(items, None) == Err::<DataType, ConvertFault>(ConvertFault::EmptyArray)
            <==> items.len() == 0,
        element_type(items, None) == Err::<DataType, ConvertFault>(ConvertFault::NestedWithoutHint)
            <==> items.len() > 0 && (items[0] is Array || items[0] is Object),
{
    if inferred_type(items) is Ok {
        let p = inferred_type(items)->Ok_0;
        if element_type(items, None) is Ok {
            assert forall|i: int| 0 <= i < items.len() implies fits(p, #[trigger] items[i]) by {
                accepted_arrays_are_uniform(items, i);
            }
        } else {
            mismatch_is_at_the_first_misfit(items);
        }
    }
}

/// The type of an array's elements is that of the first: `Int64` for an integer, `Float64` for a
/// double, `Utf8` for a string, `Boolean` for a boolean and `Null` for null.
pub proof fn first_element_decides(items: Seq<JsonValue>)
    requires
        element_type(items, None) is Ok,
    ensures
        items.len() > 0,
        element_type(items, None)->Ok_0 == DataType::Plain(
            match items[0] {
                JsonValue::Number(Number::Float(_)) => PlainType::Float64,
                JsonValue::Number(_) => PlainType::Int64,
                JsonValue::String(_) => PlainType::Utf8,
                JsonValue::Bool(_) => PlainType::Boolean,
                _ => PlainType::Null,
            },
        ),
{
}

/// An array that is refused for a mismatch is refused at the first element of another kind than
/// the first, and the refusal says where it stands and what stands there.
pub proof fn mismatches_are_named(items: Seq<JsonValue>, j: int)
    requires
        element_type(items, None) matches Err(ConvertFault::TypeMismatch { .. }),
    ensures
        element_type(items, None) matches Err(
            ConvertFault::TypeMismatch { index, inferred, found },
        ) && {
            &&& 1 <= index < items.len()
            &&& found == Misfit::Number <==> items[index] is Number
            &&& found == Misfit::Text <==> items[index] is String
            &&& found == Misfit::Boolean <==> items[index] is Bool
            &&& found == Misfit::Null <==> items[index] is Null
            &&& found == Misfit::Array <==> items[index] is Array
            &&& found == Misfit::Object <==> items[index] is Object
            &&& inferred == (match items[0] {
                JsonValue::Number(Number::Float(_)) => PlainType::Float64,
                JsonValue::Number(_) => PlainType::Int64,
                JsonValue::String(_) => PlainType::Utf8,
                JsonValue::Bool(_) => PlainType::Boolean,
                _ => PlainType::Null,
            })
            &&& items[0] is String ==> !(items[index] is String)
            &&& items[0] is Bool ==> !(items[index] is Bool)
            &&& items[0] is Null ==> !(items[index] is Null)
            &&& items[0] is Number && items[index] is Number ==> !(items[0]->Number_0 is Float)
                && items[index]->Number_0 is Float
            &&& 0 <= j < index ==> {
                &&& items[0] is String ==> items[j] is String
                &&& items[0] is Bool ==> items[j] is Bool
                &&& items[0] is Null ==> items[j] is Null
                &&& items[0] is Number ==> items[j] is Number && (items[j]->Number_0 is Float
                    ==> items[0]->Number_0 is Float)
            }
        },
{
    mismatch_is_at_the_first_misfit(items);
    let p = inferred_type(items)->Ok_0;
    assert(fits(p, items[0]));
    if 0 <= j < element_type(items, None)->Err_0->index {
        assert(fits(p, items[j]));
    }
}

/// The elements of an array that is accepted without a hint are kept: there is a structure for
/// each, in order, and it holds the boolean, the text, the integer or the double itself. Left out
/// are integers above the range of `Int64` among integers.
pub proof fn elements_are_kept(items: Seq<JsonValue>, i: int)
    requires
        element_type(items, None) is Ok,
        forall|j: int|
            0 <= j < items.len() ==> ((#[trigger] items[j]) matches JsonValue::Number(
                Number::PosInt(u),
            ) ==> u < 0x8000_0000_0000_0000 || items[0]->Number_0 is Float),
        0 <= i < items.len(),
    ensures
        plain_array(items, None) is Some,
        plain_array(items, None)->Some_0.cells.len() == items.len(),
        plain_array(items, None)->Some_0.cells[i] == Cell::Nested(
            seq![
                match items[i] {
                    JsonValue::Bool(b) => Cell::Truth(b),
                    JsonValue::String(s) => Cell::Text(s@),
                    JsonValue::Number(Number::Float(d)) => Cell::Double(d.spec_bits()),
                    JsonValue::Number(Number::PosInt(u)) => if items[0]->Number_0 is Float {
                        Cell::Double(nearest_double(u as int))
                    } else {
                        Cell::Integer(u as int)
                    },
                    JsonValue::Number(Number::NegInt(k)) => if items[0]->Number_0 is Float {
                        Cell::Double(nearest_double(k as int))
                    } else {
                        Cell::Integer(k as int)
                    },
                    _ => Cell::Null,
                },
            ],
        ),
{
    let p = inferred_type(items)->Ok_0;
    assert forall|j: int| 0 <= j < items.len() implies ((#[trigger] items[j]) matches
        JsonValue::Number(n) ==> (p == PlainType::Int64 ==> (n.integer() matches Some(k) ==> in_range(
        PlainType::Int64,
        k,
    )))) by {
        accepted_arrays_are_uniform(items, j);
    }
    uniform_arrays_hold_their_elements(items);
    accepted_arrays_are_uniform(items, i);
    assert(cell_of(p, items[i]) is Some);
}

/// The elements of an array under the hint of a plain type are kept, where the type takes each of
/// them: there is a structure for each, in order, that holds it.
pub proof fn hinted_elements_are_kept(items: Seq<JsonValue>, p: PlainType, i: int)
    requires
        0 <= i < items.len(),
        forall|j: int| 0 <= j < items.len() ==> cell_of(p, #[trigger] items[j]) is Some,
    ensures
        plain_array(items, Some(&DataType::Plain(p))) matches Some(array) && {
            &&& array.data_type == struct_text("data"@, true, plain_text(p))
            &&& array.cells.len() == items.len()
            &&& array.cells[i] == Cell::Nested(seq![cell_of(p, items[i])->Some_0])
        },
{
}

/// What stands in an array of a plain type for a value is the value: a null, the boolean, the
/// text, the integer, or the nearest double.
pub proof fn cells_keep_their_values(p: PlainType, v: JsonValue)
    ensures
        v is Null ==> cell_of(p, v) == Some(Cell::Null),
        v matches JsonValue::Bool(b) ==> cell_of(p, v) == (if p == PlainType::Boolean {
            Some(Cell::Truth(b))
        } else {
            None
        }),
        v matches JsonValue::String(s) ==> cell_of(p, v) == (if p == PlainType::Utf8 || p
            == PlainType::LargeUtf8 {
            Some(Cell::Text(s@))
        } else {
            None
        }),
        v matches JsonValue::Number(n) ==> {
            &&& p == PlainType::Float64 ==> cell_of(p, v) == Some(Cell::Double(double_of(n)))
            &&& cell_of(p, v) matches Some(Cell::Integer(i)) ==> (match n {
                Number::PosInt(u) => i == u,
                Number::NegInt(k) => i == k,
                Number::Float(_) => false,
            })
            &&& p == PlainType::Int64 && !(n is Float) && number_array(n, None)->Ok_0.data_type
                == plain_text(PlainType::Int64) ==> cell_of(p, v) is Some
            &&& p == PlainType::UInt64 && n is PosInt ==> cell_of(p, v) is Some
        },
        v is Array || v is Object ==> cell_of(p, v) is None,
{
    plain_texts_differ(PlainType::Int64, PlainType::UInt64);
}

/// An array is read as rows, one for each of its values in their order, with the type of its
/// elements. What is read of all of them becomes the structures, and where that fails the array
/// has none.
pub proof fn arrays_are_read_as_rows(items: Vec<JsonValue>, hint: Option<&DataType>)
    ensures
        element_type(items@, hint) matches Err(fault) ==> value_array(
            JsonValue::Array(items),
            hint,
        ) == Err::<ArrayView, ConvertFault>(fault),
        element_type(items@, hint) matches Ok(t) ==> match decoded_batches(
            encode_utf8(rows_text("data"@, items@)),
            "data"@,
            true,
            type_text(t),
        ) {
            Err(DecodeStage::Reader) => value_array(JsonValue::Array(items), hint) == Err::<
                ArrayView,
                ConvertFault,
            >(ConvertFault::ReaderFailed),
            Err(DecodeStage::Row) => value_array(JsonValue::Array(items), hint) == Err::<
                ArrayView,
                ConvertFault,
            >(ConvertFault::ReadFailed),
            Ok(batches) => {
                &&& batches.len() == 0 ==> value_array(JsonValue::Array(items), hint) == Err::<
                    ArrayView,
                    ConvertFault,
                >(ConvertFault::NoBatches)
                &&& batches.len() > 0 && merge_refused(batches, type_text(t)) ==> value_array(
                    JsonValue::Array(items),
                    hint,
                ) == Err::<ArrayView, ConvertFault>(ConvertFault::MergeFailed)
                &&& batches.len() > 0 && !merge_refused(batches, type_text(t)) ==> (value_array(
                    JsonValue::Array(items),
                    hint,
                ) matches Ok(array) && array.data_type == struct_text("data"@, true, type_text(t))
                    && array.cells.len() == stacked(batches, 0).len() && forall|i: int|
                    0 <= i < array.cells.len() ==> #[trigger] array.cells[i] == Cell::Nested(
                        seq![stacked(batches, 0)[i]],
                    ))
            },
        },
{
}

/// An object is read as one row with the type of the hint, and what is read is its array; where
/// that fails it has none.
pub proof fn objects_are_read_as_one_row(members: Vec<(String, JsonValue)>, hint: &DataType)
    ensures
        match decoded_batches(
            encode_utf8(row_text("data"@, JsonValue::Object(members))),
            "data"@,
            true,
            type_text(*hint),
        ) {
            Err(DecodeStage::Reader) => value_array(JsonValue::Object(members), Some(hint)) == Err::<
                ArrayView,
                ConvertFault,
            >(ConvertFault::ReaderFailed),
            Err(DecodeStage::Row) => value_array(JsonValue::Object(members), Some(hint)) == Err::<
                ArrayView,
                ConvertFault,
            >(ConvertFault::ReadFailed),
            Ok(batches) => {
                &&& batches.len() == 0 ==> value_array(JsonValue::Object(members), Some(hint))
                    == Err::<ArrayView, ConvertFault>(ConvertFault::NoBatches)
                &&& batches.len() > 0 && merge_refused(batches, type_text(*hint)) ==> value_array(
                    JsonValue::Object(members),
                    Some(hint),
                ) == Err::<ArrayView, ConvertFault>(ConvertFault::MergeFailed)
                &&& batches.len() > 0 && !merge_refused(batches, type_text(*hint)) ==> (value_array(
                    JsonValue::Object(members),
                    Some(hint),
                ) matches Ok(array) && array.data_type == type_text(*hint) && array.cells
                    == stacked(batches, 0))
            },
        },
{
}

/// Whether these values can be read as rows of this type.
pub open spec fn rows_fit(t: DataType, items: Seq<JsonValue>) -> bool {
    readable(t, items, encode_utf8(rows_text(row_field(), items)).len())
}

/// Whether the conversion of a value stays within what Arrow can hold and read: texts and
/// rows of at most `i32::MAX` bytes, and rows of a type that the reader does not panic on.
pub open spec fn convertible(v: JsonValue, hint: Option<&DataType>) -> bool {
    match v {
        JsonValue::String(s) => text_array(s@, hint) matches Ok(a) ==> (a.data_type == plain_text(
            PlainType::Utf8,
        ) ==> encode_utf8(s@).len() <= i32::MAX),
        JsonValue::Array(items) => element_type(items@, hint) matches Ok(t) ==> rows_fit(
            t,
            items@,
        ),
        JsonValue::Object(_) => hint matches Some(t) ==> rows_fit(*t, seq![v]),
        _ => true,
    }
}

/// Every null, boolean and number can be converted or is refused with its error, and so is every
/// object without a hint and every array whose elements have no type. A text can be if its bytes
/// are at most 2147483647, or if it is not to be one of `Utf8`. So can an array or an object
/// under the hint of a plain type, if its rows are no longer than that.
pub proof fn what_can_be_converted(v: JsonValue, hint: Option<&DataType>)
    ensures
        v is Null || v is Bool || v is Number ==> convertible(v, hint),
        v is Object && hint is None ==> convertible(v, hint),
        v matches JsonValue::String(s) ==> (convertible(v, hint) <==> (encode_utf8(s@).len()
            <= 2147483647 || !(hint is None || hint matches Some(
            DataType::Plain(PlainType::Utf8),
        )))),
        v matches JsonValue::Array(items) ==> {
            &&& element_type(items@, hint) is Err ==> convertible(v, hint)
            &&& element_type(items@, hint) matches Ok(DataType::Plain(_)) ==> encode_utf8(
                rows_text("data"@, items@),
            ).len() <= 2147483647 ==> convertible(v, hint)
        },
        v is Object ==> (hint matches Some(DataType::Plain(_)) ==> encode_utf8(
            rows_text("data"@, seq![v]),
        ).len() <= 2147483647 ==> convertible(v, hint)),
{
    plain_texts_differ(PlainType::LargeUtf8, PlainType::Utf8);
}

/// Whether the conversion of a value stays within what Arrow can hold and read.
pub fn is_convertible(v: &JsonValue, hint: Option<&DataType>) -> (r: bool)
    ensures
        r == convertible(*v, hint),
        *v is Null || *v is Bool || *v is Number ==> r,
        *v is Object && hint is None ==> r,
{
    match v {
        JsonValue::String(s) => {
            proof {
                plain_texts_differ(PlainType::LargeUtf8, PlainType::Utf8);
            }
            match hint {
                None | Some(DataType::Plain(PlainType::Utf8)) => s.as_str().as_bytes().len()
                    <= i32::MAX as usize,
                _ => true,
            }
        },
        JsonValue::Array(items) => match array_element_type(items, hint) {
            Ok(t) => {
                let text = to_rows("data", items);
                is_readable(&t, Rows::Many(items), text.as_str().as_bytes().len())
            },
            Err(_) => true,
        },
        JsonValue::Object(_) => match hint {
            Some(t) => {
                let text = to_row("data", v);
                assert(rows_text(row_field(), seq![*v]) == text@);
                is_readable(t, Rows::One(v), text.as_str().as_bytes().len())
            },
            None => true,
        },
        _ => true,
    }
}

/// Convert a JSON object to a single-row Arrow array, which under a hint of structures is one
/// of structures.
///
/// The object is wrapped in `{"data": obj}` before parsing so that the name of the field
/// that is read matches the JSON key.
pub fn json_obj_to_arrow_struct(obj: &JsonValue, hint: Option<&DataType>) -> (r: Result<
    ArrayData,
    ConvertError,
>)
    requires
        hint matches Some(t) ==> rows_fit(*t, seq![*obj]),
    ensures
        array_outcome(r) == object_array(*obj, hint),
        hint is None ==> r matches Err(ConvertError::ObjectWithoutHint),
        hint matches Some(t) ==> (r matches Ok(array) ==> array_view(array).data_type == type_text(
            *t,
        )),
        r matches Ok(array) ==> array_cells(array).len() == 1,
        r matches Err(e) ==> e.fault() != ConvertFault::NoBatches && e.fault()
            != ConvertFault::MergeFailed,
        hint matches Some(DataType::Other(t)) ==> (r matches Ok(array) ==> hold_all_members(
            **t,
            seq![*obj],
            array_cells(array),
        )),
{
    match hint {
        Some(t) => {
            let row = to_row("data", obj);
            let type_json = t.to_text();
            assert(rows_text(row_field(), seq![*obj]) == row@);
            assert(rows_readable(encode_utf8(row@), row_field(), type_json@)) by {
                assert(type_json@ == type_text(*t));
            }
            json_bytes_to_arrow_column(row.as_str().as_bytes(), type_json.as_str())
        },
        None => Err(ConvertError::ObjectWithoutHint),
    }
}

/// Convert a JSON array to a single-column Arrow array of structures, one for each element.
///
/// Each element is wrapped in `{"data": element}` and stands on a line of its own; `data` is
/// the one field of the structures.
pub fn json_array_to_arrow_struct(items: &Vec<JsonValue>, hint: Option<&DataType>) -> (r: Result<
    ArrayData,
    ConvertError,
>)
    requires
        element_type(items@, hint) matches Ok(t) ==> rows_fit(t, items@),
    ensures
        array_outcome(r) == items_array(items@, hint),
        element_type(items@, hint) matches Ok(t) ==> (r matches Ok(array) ==> array_view(
            array,
        ).data_type == struct_text("data"@, true, type_text(t))),
        element_type(items@, hint) matches Err(fault) ==> (r matches Err(e) && e.fault() == fault),
        r matches Ok(array) ==> array_cells(array).len() == items@.len(),
        r matches Err(e) ==> {
            &&& e.fault() == ConvertFault::NoBatches ==> items@.len() == 0
            &&& e.fault() == ConvertFault::MergeFailed ==> items@.len() > 1
        },
        element_type(items@, hint) matches Ok(DataType::Plain(_)) ==> (items@.len() == 0 ==> (
        r matches Err(e) && e.fault() == ConvertFault::NoBatches)),
        element_type(items@, hint) matches Ok(DataType::Other(t)) ==> (r matches Ok(array)
            ==> exists|cells: Seq<Cell>|
            array_cells(array) == rows_of(cells) && #[trigger] hold_all_members(
                *t,
                items@,
                cells,
            )),
        plain_array(items@, hint) matches Some(array) ==> array_outcome(r) == Ok::<
            ArrayView,
            ConvertFault,
        >(array),
{
    let t = match array_element_type(items, hint) {
        Ok(t) => t,
        Err(e) => {
            return Err(e);
        },
    };
    let rows = to_rows("data", items);
    let type_json = t.to_text();
    assert(rows_readable(encode_utf8(rows@), row_field(), type_json@)) by {
        assert(type_json@ == type_text(t));
        assert(rows@ == rows_text(row_field(), items@));
    }
    match read_rows(rows.as_str().as_bytes(), type_json.as_str()) {
        Ok(batch) => Ok(struct_of_rows(batch)),
        Err(e) => Err(e),
    }
}

/// Convert a single JSON value to an Arrow array.
///
/// Respects the optional type hint to produce the correct Arrow type (`Int32` rather than
/// `Int64`, say). Without one the type is inferred from the value:
/// - JSON number (integer) → `Int64`, or `UInt64` above its range
/// - JSON number (float) → `Float64`
/// - JSON string → `Utf8`
/// - JSON bool → `Boolean`
/// - JSON array → wrapped in a single-column array of structures, one for each element, of
///   the first element's type
pub fn json_value_to_arrow_array(value: &JsonValue, hint: Option<&DataType>) -> (r: Result<
    ArrayData,
    ConvertError,
>)
    requires
        convertible(*value, hint),
    ensures
        array_outcome(r) == value_array(*value, hint),
        r is Ok <==> value_array(*value, hint) is Ok,
        r matches Ok(array) ==> value_array(*value, hint) == Ok::<ArrayView, ConvertFault>(
            array_view(array),
        ),
        r matches Err(e) ==> value_array(*value, hint) == Err::<ArrayView, ConvertFault>(e.fault()),
        r matches Ok(array) ==> array_cells(array).len() == (match *value {
            JsonValue::Array(items) => items@.len(),
            _ => 1,
        }),
        *value matches JsonValue::Array(items) ==> (element_type(items@, hint) matches Ok(
            DataType::Plain(_),
        ) ==> (items@.len() == 0 ==> (r matches Err(e) && e.fault() == ConvertFault::NoBatches))),
        *value is Object ==> (hint matches Some(DataType::Other(t)) ==> (r matches Ok(array)
            ==> hold_all_members(**t, seq![*value], array_cells(array)))),
        plain_value_array(*value, hint) matches Some(array) ==> array_outcome(r) == Ok::<
            ArrayView,
            ConvertFault,
        >(array),
        *value matches JsonValue::Bool(b) ==> {
            &&& r is Ok <==> (hint is None || hint matches Some(
                DataType::Plain(PlainType::Boolean),
            ))
            &&& r matches Ok(array) ==> array_cells(array) == seq![Cell::Truth(b)]
                && array_view(array).data_type == plain_text(PlainType::Boolean)
        },
        *value matches JsonValue::String(s) ==> {
            &&& r is Ok <==> (hint is None || hint matches Some(DataType::Plain(PlainType::Utf8))
                || hint matches Some(DataType::Plain(PlainType::LargeUtf8)))
            &&& r matches Ok(array) ==> array_cells(array) == seq![Cell::Text(s@)]
            &&& hint is None ==> (r matches Ok(array) ==> array_view(array).data_type
                == plain_text(PlainType::Utf8))
        },
        *value matches JsonValue::Number(Number::Float(d)) ==> (hint is None ==> (r matches Ok(
            array,
        ) && array_cells(array) == seq![Cell::Double(d.spec_bits())])),
        *value is Null ==> r matches Err(ConvertError::NullValue),
        *value is Object && hint is None ==> r matches Err(ConvertError::ObjectWithoutHint),
{
    match value {
        JsonValue::Number(n) => number_to_arrow_array(n, hint),
        JsonValue::String(s) => match hint {
            None | Some(DataType::Plain(PlainType::Utf8)) => Ok(string_array(s.as_str())),
            Some(DataType::Plain(PlainType::LargeUtf8)) => Ok(large_string_array(s.as_str())),
            Some(t) => Err(ConvertError::UnsupportedTextType(t.to_text())),
        },
        JsonValue::Bool(b) => match hint {
            None | Some(DataType::Plain(PlainType::Boolean)) => Ok(boolean_array(*b)),
            Some(t) => Err(ConvertError::UnsupportedBooleanType(t.to_text())),
        },
        JsonValue::Array(items) => json_array_to_arrow_struct(items, hint),
        JsonValue::Object(_) => json_obj_to_arrow_struct(value, hint),
        JsonValue::Null => Err(ConvertError::NullValue),
    }
}

/// Convert a JSON value, or tell with `None` that its conversion would not stay within what
/// Arrow can hold and read.
pub fn convert_value(value: &JsonValue, hint: Option<&DataType>) -> (r: Option<
    Result<ArrayData, ConvertError>,
>)
    ensures
        r is Some <==> convertible(*value, hint),
        r matches Some(outcome) ==> array_outcome(outcome) == value_array(*value, hint),
        r matches Some(Ok(array)) ==> value_array(*value, hint) == Ok::<ArrayView, ConvertFault>(
            array_view(array),
        ),
        r matches Some(Err(e)) ==> value_array(*value, hint) == Err::<ArrayView, ConvertFault>(
            e.fault(),
        ),
        r matches Some(outcome) ==> (plain_value_array(*value, hint) matches Some(array)
            ==> array_outcome(outcome) == Ok::<ArrayView, ConvertFault>(array)),
{
    if is_convertible(value, hint) {
        Some(json_value_to_arrow_array(value, hint))
    } else {
        None
    }
}

/// How a value that does not fit is spoken of.
pub open spec fn misfit_text(m: Misfit) -> Seq<char> {
    match m {
        Misfit::Number => "a number of a different kind"@,
        Misfit::Text => "a string"@,
        Misfit::Boolean => "a boolean"@,
        Misfit::Null => "null"@,
        Misfit::Array => "an array"@,
        Misfit::Object => "an object"@,
    }
}

/// The JSON text of the unsupported hint that an error speaks of.
pub open spec fn hint_of_error(e: ConvertError) -> Option<Seq<char>> {
    match e {
        ConvertError::UnsupportedType(json) => Some(json@),
        ConvertError::UnsupportedTextType(json) => Some(json@),
        ConvertError::UnsupportedBooleanType(json) => Some(json@),
        _ => None,
    }
}

/// Whether `shown` can stand for the type of an unsupported hint, if the error speaks of
/// one: a plain type is shown by its name.
pub open spec fn shows_hint(e: ConvertError, shown: Seq<char>) -> bool {
    hint_of_error(e) matches Some(json) ==> forall|p: PlainType|
        json == #[trigger] plain_text(p) ==> shown == plain_name(p)
}

/// The text of an error, where `shown` stands for the type of an unsupported hint.
pub open spec fn convert_error_text(e: ConvertError, shown: Seq<char>) -> Seq<char> {
    match e {
        ConvertError::OutOfRange { number, target } => "value "@ + number_digits(number)
            + " out of range for "@ + plain_name(target),
        ConvertError::NotRepresentable { number, target } => "value "@ + number_digits(number)
            + " is not representable as "@ + plain_name(target),
        ConvertError::UnsupportedType(_) => "data_type "@ + shown
            + " is not supported for number-to-arrow conversion; supported types: Int8–Int64, UInt8–UInt64, Float32, Float64"@,
        ConvertError::UnsupportedTextType(_) => "data_type "@ + shown
            + " is not supported for string-to-arrow conversion; supported types: Utf8, LargeUtf8"@,
        ConvertError::UnsupportedBooleanType(_) => "data_type "@ + shown
            + " is not supported for boolean-to-arrow conversion; supported types: Boolean"@,
        ConvertError::NullValue => "null values are not supported as standalone output"@,
        ConvertError::ObjectWithoutHint =>
            "JSON objects require an explicit data_type hint (e.g. \"Struct\"). Without one, auto-inferred multi-column schemas would lose all but the first column."@,
        ConvertError::NestedWithoutHint =>
            "array/object elements in a JSON array require an explicit data type hint"@,
        ConvertError::EmptyArray =>
            "empty JSON array cannot be converted to Arrow without a type hint"@,
        ConvertError::TypeMismatch { index, inferred, found } =>
            "type mismatch in JSON array at index "@ + natural_digits(index as nat)
                + ": inferred "@ + plain_name(inferred) + " from first element, but element "@
                + natural_digits(index as nat) + " is "@ + misfit_text(found),
        ConvertError::ReaderFailed(reason) => "failed to build arrow_json reader: "@ + reason@,
        ConvertError::ReadFailed(reason) => "arrow_json read error: "@ + reason@,
        ConvertError::NoBatches => "arrow_json produced no batches from input"@,
        ConvertError::MergeFailed(reason) => "failed to concat batches: "@ + reason@,
        ConvertError::NoColumns => "arrow_json produced zero columns"@,
    }
}

impl Misfit {
    /// How a value that does not fit is spoken of.
    pub fn text(&self) -> (r: &'static str)
        ensures
            r@ == misfit_text(*self),
    {
        match self {
            Misfit::Number => "a number of a different kind",
            Misfit::Text => "a string",
            Misfit::Boolean => "a boolean",
            Misfit::Null => "null",
            Misfit::Array => "an array",
            Misfit::Object => "an object",
        }
    }
}

impl ConvertError {
    /// The text of the error.
    pub fn message(&self) -> (r: String)
        ensures
            exists|shown: Seq<char>|
                shows_hint(*self, shown) && r@ == #[trigger] convert_error_text(*self, shown),
            *self matches ConvertError::OutOfRange { number, target } ==> r@ == "value "@
                + number_digits(number) + " out of range for "@ + plain_name(target),
            *self matches ConvertError::NotRepresentable { number, target } ==> r@ == "value "@
                + number_digits(number) + " is not representable as "@ + plain_name(target),
            *self is NullValue ==> r@ == "null values are not supported as standalone output"@,
            *self is ObjectWithoutHint ==> r@
                == "JSON objects require an explicit data_type hint (e.g. \"Struct\"). Without one, auto-inferred multi-column schemas would lose all but the first column."@,
            *self is NestedWithoutHint ==> r@
                == "array/object elements in a JSON array require an explicit data type hint"@,
            *self is EmptyArray ==> r@
                == "empty JSON array cannot be converted to Arrow without a type hint"@,
            *self matches ConvertError::TypeMismatch { index, inferred, found } ==> r@
                == "type mismatch in JSON array at index "@ + natural_digits(index as nat)
                + ": inferred "@ + plain_name(inferred) + " from first element, but element "@
                + natural_digits(index as nat) + " is "@ + (match found {
                Misfit::Number => "a number of a different kind"@,
                Misfit::Text => "a string"@,
                Misfit::Boolean => "a boolean"@,
                Misfit::Null => "null"@,
                Misfit::Array => "an array"@,
                Misfit::Object => "an object"@,
            }),
            *self matches ConvertError::ReaderFailed(reason) ==> r@
                == "failed to build arrow_json reader: "@ + reason@,
            *self matches ConvertError::ReadFailed(reason) ==> r@ == "arrow_json read error: "@
                + reason@,
            *self is NoBatches ==> r@ == "arrow_json produced no batches from input"@,
            *self matches ConvertError::MergeFailed(reason) ==> r@
                == "failed to concat batches: "@ + reason@,
            *self is NoColumns ==> r@ == "arrow_json produced zero columns"@,
    {
        let shown = match self {
            ConvertError::UnsupportedType(json) => type_shown(json.as_str()),
            ConvertError::UnsupportedTextType(json) => type_shown(json.as_str()),
            ConvertError::UnsupportedBooleanType(json) => type_shown(json.as_str()),
            _ => String::new(),
        };
        let text = match self {
            ConvertError::OutOfRange { number, target } => {
                let mut text = "value ".to_owned();
                text.append(number_text(number).as_str());
                text.append(" out of range for ");
                text.append(target.name());
                text
            },
            ConvertError::NotRepresentable { number, target } => {
                let mut text = "value ".to_owned();
                text.append(number_text(number).as_str());
                text.append(" is not representable as ");
                text.append(target.name());
                text
            },
            ConvertError::UnsupportedType(_) => {
                let mut text = "data_type ".to_owned();
                text.append(shown.as_str());
                text.append(
                    " is not supported for number-to-arrow conversion; supported types: Int8–Int64, UInt8–UInt64, Float32, Float64",
                );
                text
            },
            ConvertError::UnsupportedTextType(_) => {
                let mut text = "data_type ".to_owned();
                text.append(shown.as_str());
                text.append(
                    " is not supported for string-to-arrow conversion; supported types: Utf8, LargeUtf8",
                );
                text
            },
            ConvertError::UnsupportedBooleanType(_) => {
                let mut text = "data_type ".to_owned();
                text.append(shown.as_str());
                text.append(
                    " is not supported for boolean-to-arrow conversion; supported types: Boolean",
                );
                text
            },
            ConvertError::NullValue => "null values are not supported as standalone output".to_owned(),
            ConvertError::ObjectWithoutHint =>
                "JSON objects require an explicit data_type hint (e.g. \"Struct\"). Without one, auto-inferred multi-column schemas would lose all but the first column.".to_owned(),
            ConvertError::NestedWithoutHint =>
                "array/object elements in a JSON array require an explicit data type hint".to_owned(),
            ConvertError::EmptyArray =>
                "empty JSON array cannot be converted to Arrow without a type hint".to_owned(),
            ConvertError::TypeMismatch { index, inferred, found } => {
                let digits = natural_text(*index as u64);
                let mut text = "type mismatch in JSON array at index ".to_owned();
                text.append(digits.as_str());
                text.append(": inferred ");
                text.append(inferred.name());
                text.append(" from first element, but element ");
                text.append(digits.as_str());
                text.append(" is ");
                text.append(found.text());
                text
            },
            ConvertError::ReaderFailed(reason) => {
                let mut text = "failed to build arrow_json reader: ".to_owned();
                text.append(reason.as_str());
                text
            },
            ConvertError::ReadFailed(reason) => {
                let mut text = "arrow_json read error: ".to_owned();
                text.append(reason.as_str());
                text
            },
            ConvertError::NoBatches => "arrow_json produced no batches from input".to_owned(),
            ConvertError::MergeFailed(reason) => {
                let mut text = "failed to concat batches: ".to_owned();
                text.append(reason.as_str());
                text
            },
            ConvertError::NoColumns => "arrow_json produced zero columns".to_owned(),
        };
        assert(text@ == convert_error_text(*self, shown@));
        text
    }
}

} // verus!
