//! Arrow arrays and record batches: what is known of their contents, and the calls that
//! make them.

use crate::data_type::{
    in_range, plain_named, plain_text, struct_text, type_text, DataType, PlainType,
};
use crate::json::{finite_bits, json_text, member, rows_text, JsonValue, Number};
use crate::kinds::{field_name, field_type, kind, unit_name, Kind};
use crate::row_types::readable;
use arrow::array::{
    Array, ArrayData, AsArray, BooleanArray, Float32Array, Float64Array, Int16Array, Int32Array,
    Int64Array, Int8Array, LargeStringArray, RecordBatch, StringArray, StructArray, UInt16Array,
    UInt32Array, UInt64Array, UInt8Array,
};
use arrow::buffer::Buffer;
use arrow::datatypes::{DataType as ArrowType, Field, Float32Type, Schema};
use arrow_json::{Reader, ReaderBuilder};
use serde_json::Deserializer;
use std::sync::Arc;
use vstd::prelude::*;
use vstd::string::*;
use vstd::utf8::encode_utf8;

verus! {

/// One value of an Arrow array. Doubles and singles are held by their bits.
pub ghost enum Cell {
    Null,
    Integer(int),
    Single(u32),
    Double(u64),
    Truth(bool),
    Text(Seq<char>),
    Nested(Seq<Cell>),
}

/// An Arrow array in its generic form.
#[verifier::external_type_specification]
#[verifier::external_body]
pub struct ExArrayData(ArrayData);

/// An Arrow table: columns of one length.
#[verifier::external_body]
#[derive(Debug)]
pub struct Batch {
    inner: RecordBatch,
}

/// The values of an array, in order.
pub uninterp spec fn array_cells(a: ArrayData) -> Seq<Cell>;

/// A JSON text that describes the type of an array.
pub uninterp spec fn array_type(a: ArrayData) -> Seq<char>;

/// The columns of a batch, in order.
pub uninterp spec fn batch_columns(b: Batch) -> Seq<Seq<Cell>>;

/// What an array holds: its values, and the JSON text of their type.
pub ghost struct ArrayView {
    pub data_type: Seq<char>,
    pub cells: Seq<Cell>,
}

/// What is known of an array.
pub open spec fn array_view(a: ArrayData) -> ArrayView {
    ArrayView { data_type: array_type(a), cells: array_cells(a) }
}

/// Calls `Int8Array::from` on one value: an array of type `Int8` that holds it.
#[verifier::external_body]
pub(crate) fn int8_array(v: i8) -> (r: ArrayData)
    ensures
        array_type(r) == plain_text(PlainType::Int8),
        array_cells(r) == seq![Cell::Integer(v as int)],
{
    Int8Array::from(vec![v]).into_data()
}

/// Calls `Int16Array::from` on one value: an array of type `Int16` that holds it.
#[verifier::external_body]
pub(crate) fn int16_array(v: i16) -> (r: ArrayData)
    ensures
        array_type(r) == plain_text(PlainType::Int16),
        array_cells(r) == seq![Cell::Integer(v as int)],
{
    Int16Array::from(vec![v]).into_data()
}

/// Calls `Int32Array::from` on one value: an array of type `Int32` that holds it.
#[verifier::external_body]
pub(crate) fn int32_array(v: i32) -> (r: ArrayData)
    ensures
        array_type(r) == plain_text(PlainType::Int32),
        array_cells(r) == seq![Cell::Integer(v as int)],
{
    Int32Array::from(vec![v]).into_data()
}

/// Calls `Int64Array::from` on one value: an array of type `Int64` that holds it.
#[verifier::external_body]
pub(crate) fn int64_array(v: i64) -> (r: ArrayData)
    ensures
        array_type(r) == plain_text(PlainType::Int64),
        array_cells(r) == seq![Cell::Integer(v as int)],
{
    Int64Array::from(vec![v]).into_data()
}

/// Calls `UInt8Array::from` on one value: an array of type `UInt8` that holds it.
#[verifier::external_body]
pub(crate) fn uint8_array(v: u8) -> (r: ArrayData)
    ensures
        array_type(r) == plain_text(PlainType::UInt8),
        array_cells(r) == seq![Cell::Integer(v as int)],
{
    UInt8Array::from(vec![v]).into_data()
}

/// Calls `UInt16Array::from` on one value: an array of type `UInt16` that holds it.
#[verifier::external_body]
pub(crate) fn uint16_array(v: u16) -> (r: ArrayData)
    ensures
        array_type(r) == plain_text(PlainType::UInt16),
        array_cells(r) == seq![Cell::Integer(v as int)],
{
    UInt16Array::from(vec![v]).into_data()
}

/// Calls `UInt32Array::from` on one value: an array of type `UInt32` that holds it.
#[verifier::external_body]
pub(crate) fn uint32_array(v: u32) -> (r: ArrayData)
    ensures
        array_type(r) == plain_text(PlainType::UInt32),
        array_cells(r) == seq![Cell::Integer(v as int)],
{
    UInt32Array::from(vec![v]).into_data()
}

/// Calls `UInt64Array::from` on one value: an array of type `UInt64` that holds it.
#[verifier::external_body]
pub(crate) fn uint64_array(v: u64) -> (r: ArrayData)
    ensures
        array_type(r) == plain_text(PlainType::UInt64),
        array_cells(r) == seq![Cell::Integer(v as int)],
{
    UInt64Array::from(vec![v]).into_data()
}

/// Calls `Float32Array::new` on the four bytes of one single: an array of type `Float32`
/// that holds it.
#[verifier::external_body]
pub(crate) fn float32_array(bits: u32) -> (r: ArrayData)
    ensures
        array_type(r) == plain_text(PlainType::Float32),
        array_cells(r) == seq![Cell::Single(bits)],
{
    Float32Array::new(Buffer::from_vec(vec![bits]).into(), None).into_data()
}

/// Calls `Float64Array::new` on the eight bytes of one double: an array of type `Float64`
/// that holds it.
#[verifier::external_body]
pub(crate) fn float64_array(bits: u64) -> (r: ArrayData)
    ensures
        array_type(r) == plain_text(PlainType::Float64),
        array_cells(r) == seq![Cell::Double(bits)],
{
    Float64Array::new(Buffer::from_vec(vec![bits]).into(), None).into_data()
}

/// Calls `BooleanArray::from` on one value: an array of type `Boolean` that holds it.
#[verifier::external_body]
pub(crate) fn boolean_array(v: bool) -> (r: ArrayData)
    ensures
        array_type(r) == plain_text(PlainType::Boolean),
        array_cells(r) == seq![Cell::Truth(v)],
{
    BooleanArray::from(vec![v]).into_data()
}

/// Calls `StringArray::from` on one text: an array of type `Utf8` that holds it. The
/// offsets of such an array are of 32 bits, and the call panics where they overflow.
#[verifier::external_body]
pub(crate) fn string_array(s: &str) -> (r: ArrayData)
    requires
        encode_utf8(s@).len() <= i32::MAX,
    ensures
        array_type(r) == plain_text(PlainType::Utf8),
        array_cells(r) == seq![Cell::Text(s@)],
{
    StringArray::from(vec![s]).into_data()
}

/// Calls `LargeStringArray::from` on one text: an array of type `LargeUtf8` that holds it.
#[verifier::external_body]
pub(crate) fn large_string_array(s: &str) -> (r: ArrayData)
    ensures
        array_type(r) == plain_text(PlainType::LargeUtf8),
        array_cells(r) == seq![Cell::Text(s@)],
{
    LargeStringArray::from(vec![s]).into_data()
}

/// The bits of the double that is nearest to an integer.
pub uninterp spec fn nearest_double(n: int) -> u64;

/// Calls `serde_json::Number::as_f64` on an integer of 64 bits, which always has a double;
/// its bits are given a name, and it is finite.
#[verifier::external_body]
pub(crate) fn integer_as_double(n: i128) -> (r: Option<u64>)
    requires
        i64::MIN <= n <= u64::MAX,
    ensures
        r == Some(nearest_double(n as int)),
        r.is_some() && finite_bits(r->Some_0),
{
    serde_json::Number::from_i128(n).and_then(|n| n.as_f64()).map(|d| d.to_bits())
}

/// The bits of the single that is nearest to the finite double with these bits, which is
/// infinite where the double is beyond all singles.
pub uninterp spec fn nearest_single(double: u64) -> u32;

/// Calls `arrow::compute::cast` from `Float64` to `Float32` on one finite double; the bits
/// of the single that it gives are given a name.
#[verifier::external_body]
pub(crate) fn double_as_single(double: u64) -> (r: u32)
    requires
        finite_bits(double),
    ensures
        r == nearest_single(double),
{
    let wide = Float64Array::new(Buffer::from_vec(vec![double]).into(), None);
    let narrow = arrow::compute::cast(&wide, &ArrowType::Float32).expect("doubles cast to singles");
    narrow.as_primitive::<Float32Type>().value(0).to_bits()
}

/// The bits of the double that is nearest to a number.
pub open spec fn double_of(n: Number) -> u64 {
    match n {
        Number::PosInt(u) => nearest_double(u as int),
        Number::NegInt(i) => nearest_double(i as int),
        Number::Float(d) => d.spec_bits(),
    }
}

/// Whether the double with these bits is a single, of the normal ones or zero: the exponent is
/// one of theirs, and the last 29 digits of the fraction are zero.
pub open spec fn is_single(bits: u64) -> bool {
    ||| bits % 0x8000_0000_0000_0000 == 0
    ||| bits % 0x2000_0000 == 0 && 897 <= (bits / 0x10_0000_0000_0000) % 0x800 <= 1150
}

/// Whether a number is written by digits that are its exact value in singles, or else an
/// integer that doubles hold.
pub open spec fn is_short(n: Number) -> bool {
    match n {
        Number::PosInt(u) => u <= 0x20_0000_0000_0000,
        Number::NegInt(i) => i >= -0x20_0000_0000_0000,
        Number::Float(d) => is_single(d.spec_bits()),
    }
}

/// Why rows of JSON could not be read as an Arrow column.
#[derive(Debug)]
pub enum DecodeError {
    /// The reader for the column's type could not be made.
    Reader(String),
    /// A row could not be read.
    Row(String),
}

/// Where reading stopped. The text of the complaint is not part of it: it may list the
/// metadata of a nested field, in an order that differs from run to run.
#[derive(Clone, Copy, Debug, PartialEq, Eq, Structural)]
pub enum DecodeStage {
    Reader,
    Row,
}

impl DecodeError {
    /// Where reading stopped.
    pub open spec fn stage(self) -> DecodeStage {
        match self {
            DecodeError::Reader(_) => DecodeStage::Reader,
            DecodeError::Row(_) => DecodeStage::Row,
        }
    }
}

/// Whether these bytes are rows of the one member `field` that can be read with the type
/// that `type_json` describes.
pub open spec fn rows_readable(json: Seq<u8>, field: Seq<char>, type_json: Seq<char>) -> bool {
    exists|t: DataType, items: Seq<JsonValue>|
        type_json == #[trigger] type_text(t) && json == encode_utf8(
            #[trigger] rows_text(field, items),
        ) && readable(t, items, json.len())
}

/// The reader of the rows of a JSON text.
#[verifier::external_type_specification]
#[verifier::external_body]
#[verifier::reject_recursive_types(R)]
pub struct ExReader<R>(Reader<R>);

/// What a reader has still to give, in order, up to and with its first failure: the columns
/// of each batch, or `None` for the failure.
pub uninterp spec fn unread(reader: Reader<&[u8]>) -> Seq<Option<Seq<Seq<Cell>>>>;

/// What rows are read with: the one field that they have, and the JSON text of its type.
pub ghost struct RowSchema {
    pub field: Seq<char>,
    pub nullable: bool,
    pub type_json: Seq<char>,
}

/// What a reader was made for.
pub uninterp spec fn reader_schema(reader: Reader<&[u8]>) -> RowSchema;

/// What the reader that `arrow_json` makes for these bytes has to give, where each row is an
/// object whose member `field` is of the type that `type_json` describes; `None` if no
/// reader can be made.
pub uninterp spec fn reader_results(
    json: Seq<u8>,
    field: Seq<char>,
    nullable: bool,
    type_json: Seq<char>,
) -> Option<Seq<Option<Seq<Seq<Cell>>>>>;

/// What a batch was read with.
pub uninterp spec fn batch_schema(b: Batch) -> RowSchema;

/// The values of column `k` through all the batches.
pub open spec fn stacked(batches: Seq<Seq<Seq<Cell>>>, k: int) -> Seq<Cell>
    decreases batches.len(),
{
    if batches.len() == 0 {
        seq![]
    } else {
        stacked(batches.drop_last(), k) + batches.last()[k]
    }
}

/// Whether a reader gives only batches.
pub open spec fn all_given(results: Seq<Option<Seq<Seq<Cell>>>>) -> bool {
    forall|i: int| 0 <= i < results.len() ==> (#[trigger] results[i]).is_some()
}

/// The batches that a reader gives.
pub open spec fn given(results: Seq<Option<Seq<Seq<Cell>>>>) -> Seq<Seq<Seq<Cell>>> {
    results.map_values(|r: Option<Seq<Seq<Cell>>>| r->Some_0)
}

/// What stands in an array of a plain type for a JSON value that it takes: null, an integer in
/// the range of an integer type, a number in one of doubles, a string in one of texts, and a
/// boolean. A number in one of singles is read from its digits, and may be another one than
/// the single that is nearest to its double.
pub open spec fn cell_of(p: PlainType, v: JsonValue) -> Option<Cell> {
    match v {
        JsonValue::Null => Some(Cell::Null),
        JsonValue::Number(n) => if p == PlainType::Float64 {
            Some(Cell::Double(double_of(n)))
        } else if p == PlainType::Float32 {
            if is_short(n) {
                Some(Cell::Single(nearest_single(double_of(n))))
            } else {
                None
            }
        } else {
            match n.integer() {
                Some(i) => if in_range(p, i) {
                    Some(Cell::Integer(i))
                } else {
                    None
                },
                None => None,
            }
        },
        JsonValue::String(s) => if p == PlainType::Utf8 || p == PlainType::LargeUtf8 {
            Some(Cell::Text(s@))
        } else {
            None
        },
        JsonValue::Bool(b) => if p == PlainType::Boolean {
            Some(Cell::Truth(b))
        } else {
            None
        },
        JsonValue::Array(_) | JsonValue::Object(_) => None,
    }
}

/// Whether a plain type takes each of these values.
pub open spec fn takes_all(p: PlainType, items: Seq<JsonValue>) -> bool {
    forall|i: int| 0 <= i < items.len() ==> cell_of(p, #[trigger] items[i]).is_some()
}

/// What stands in an array of a plain type for values that it takes.
pub open spec fn plain_cells(p: PlainType, items: Seq<JsonValue>) -> Seq<Cell> {
    items.map_values(|v: JsonValue| cell_of(p, v)->Some_0)
}

/// Whether the names of these fields differ.
pub open spec fn distinct_fields(fields: Seq<JsonValue>) -> bool {
    forall|i: int, j: int|
        0 <= i < j < fields.len() ==> field_name(#[trigger] fields[i]) != field_name(
            #[trigger] fields[j],
        )
}

/// Whether the names of these members differ.
pub open spec fn distinct_members(members: Seq<(String, JsonValue)>) -> bool {
    forall|i: int, j: int|
        0 <= i < j < members.len() ==> (#[trigger] members[i]).0@ != (#[trigger] members[j]).0@
}

/// Whether a value of a structure holds, under a field, the member of the field's name: null if
/// there is none, and else what the field's plain type takes it as.
pub open spec fn holds_member(f: JsonValue, members: Seq<(String, JsonValue)>, c: Cell) -> bool {
    match (field_name(f), field_type(f)) {
        (Some(name), Some(t)) => match (unit_name(t), member(members, name)) {
            (_, None) => c is Null,
            (Some(unit), Some(v)) => match plain_named(unit) {
                Some(p) => cell_of(p, v) matches Some(taken) ==> c == taken,
                None => true,
            },
            _ => true,
        },
        _ => true,
    }
}

/// Whether a cell is that of a structure of these fields for an object: it has a value for each
/// field, which holds the member of the field's name.
pub open spec fn holds_members(fields: Seq<JsonValue>, v: JsonValue, c: Cell) -> bool {
    v matches JsonValue::Object(members) ==> (distinct_fields(fields) && distinct_members(members@)
        ==> (c matches Cell::Nested(cells) && cells.len() == fields.len() && forall|k: int|
        0 <= k < fields.len() ==> holds_member(fields[k], members@, #[trigger] cells[k])))
}

/// Whether these are the cells of structures for these values, where the type is one of
/// structures.
pub open spec fn hold_all_members(t: JsonValue, items: Seq<JsonValue>, cells: Seq<Cell>) -> bool {
    kind(t) matches Kind::Struct(fields) ==> (cells.len() == items.len() && forall|i: int|
        0 <= i < items.len() ==> holds_members(fields, items[i], #[trigger] cells[i]))
}

/// Calls `arrow_json::ReaderBuilder::build` for a schema of the one field `field`. What the
/// reader will give is given a name. Each batch has one column and at least one row; bytes
/// that are one object per value are read as one row per value. Where the field may be null
/// and its type is a plain one that takes all the values, there is a reader, which does not
/// fail, and the rows hold these values; doubles are written and read so that they come back.
/// Where the type is one of structures, what is read of an object holds its members of plain
/// types. What an error says is left open. Rows that the reader may panic on are left out.
#[verifier::external_body]
fn open_reader<'a>(json: &'a [u8], field: &str, nullable: bool, type_json: &str) -> (r: Result<
    Reader<&'a [u8]>,
    String,
>)
    requires
        rows_readable(json@, field@, type_json@),
    ensures
        r.is_err() == reader_results(json@, field@, nullable, type_json@).is_none(),
        r.is_ok() ==> Some(unread(r->Ok_0)) == reader_results(
            json@,
            field@,
            nullable,
            type_json@,
        ),
        r.is_ok() ==> reader_schema(r->Ok_0) == (RowSchema {
            field: field@,
            nullable,
            type_json: type_json@,
        }),
        (forall|i: int|
            r.is_ok() && 0 <= i < unread(r->Ok_0).len() && (#[trigger] unread(
                r->Ok_0,
            )[i]).is_some() ==> (unread(r->Ok_0)[i]->Some_0.len() == 1
                && unread(r->Ok_0)[i]->Some_0[0].len() > 0)),
        (forall|items: Seq<JsonValue>|
            r.is_ok() && all_given(unread(r->Ok_0)) && json@ == encode_utf8(
                #[trigger] rows_text(field@, items),
            ) ==> stacked(given(unread(r->Ok_0)), 0).len() == items.len()),
        (forall|p: PlainType, items: Seq<JsonValue>|
            nullable && type_json@ == #[trigger] plain_text(p) && json@ == encode_utf8(
                #[trigger] rows_text(field@, items),
            ) && takes_all(p, items) ==> (r.is_ok() && all_given(unread(r->Ok_0)) && stacked(
                given(unread(r->Ok_0)),
                0,
            ) == plain_cells(p, items))),
        (forall|t: JsonValue, items: Seq<JsonValue>|
            r.is_ok() && all_given(unread(r->Ok_0)) && type_json@ == #[trigger] json_text(t)
                && json@ == encode_utf8(#[trigger] rows_text(field@, items)) ==> hold_all_members(
                t,
                items,
                stacked(given(unread(r->Ok_0)), 0),
            )),
{
    let mut text = Deserializer::from_str(type_json);
    text.disable_recursion_limit();
    let data_type = text.into_iter::<ArrowType>().next().unwrap_or(Ok(ArrowType::Null))
        .map_err(|e| e.to_string())?;
    let schema = Arc::new(Schema::new(vec![Field::new(field, data_type, nullable)]));
    ReaderBuilder::new(schema).build(json).map_err(|e| e.to_string())
}

/// What a reader for these bytes has still to give after `k` batches.
pub open spec fn results_after(
    json: Seq<u8>,
    field: Seq<char>,
    nullable: bool,
    type_json: Seq<char>,
    k: nat,
) -> Option<Seq<Option<Seq<Seq<Cell>>>>> {
    match reader_results(json, field, nullable, type_json) {
        Some(results) => if k <= results.len() {
            Some(results.skip(k as int))
        } else {
            None
        },
        None => None,
    }
}

/// Whether a reader reads rows that can be read with its type, and has not failed.
pub open spec fn is_reading(reader: Reader<&[u8]>) -> bool {
    exists|json: Seq<u8>, field: Seq<char>, nullable: bool, k: nat|
        rows_readable(json, field, reader_schema(reader).type_json) && #[trigger] results_after(
            json,
            field,
            nullable,
            reader_schema(reader).type_json,
            k,
        ) == Some(unread(reader))
}

/// Calls `arrow_json::Reader::next`: the first of what the reader has to give, and the reader
/// with the rest; `None` at the end. What an error says is left open.
#[verifier::external_body]
fn next_batch<'a>(reader: Reader<&'a [u8]>) -> (r: Result<
    Option<(Batch, Reader<&'a [u8]>)>,
    String,
>)
    requires
        is_reading(reader),
    ensures
        unread(reader).len() == 0 ==> (r.is_ok() && r->Ok_0.is_none()),
        (unread(reader).len() > 0 && unread(reader)[0].is_none()) ==> r.is_err(),
        (unread(reader).len() > 0 && unread(reader)[0].is_some()) ==> (r.is_ok()
            && r->Ok_0.is_some() && batch_columns(r->Ok_0->Some_0.0) == unread(reader)[0]->Some_0
            && batch_schema(r->Ok_0->Some_0.0) == reader_schema(reader) && unread(
            r->Ok_0->Some_0.1,
        ) == unread(reader).drop_first() && reader_schema(r->Ok_0->Some_0.1) == reader_schema(
            reader,
        )),
{
    let mut reader = reader;
    match reader.next() {
        Some(Ok(inner)) => Ok(Some((Batch { inner }, reader))),
        Some(Err(e)) => Err(e.to_string()),
        None => Ok(None),
    }
}

/// The columns of each of these batches.
pub open spec fn columns_of(batches: Seq<Batch>) -> Seq<Seq<Seq<Cell>>> {
    batches.map_values(|b: Batch| batch_columns(b))
}

/// What a result of [`decode_batches`] holds.
pub open spec fn decode_outcome(r: Result<Vec<Batch>, DecodeError>) -> Result<
    Seq<Seq<Seq<Cell>>>,
    DecodeStage,
> {
    match r {
        Ok(batches) => Ok(columns_of(batches@)),
        Err(e) => Err(e.stage()),
    }
}

/// The columns of each batch that is read from these bytes, where each row is an object whose
/// member `field` is of the type that `type_json` describes; or where reading stops.
pub open spec fn decoded_batches(
    json: Seq<u8>,
    field: Seq<char>,
    nullable: bool,
    type_json: Seq<char>,
) -> Result<Seq<Seq<Seq<Cell>>>, DecodeStage> {
    match reader_results(json, field, nullable, type_json) {
        None => Err(DecodeStage::Reader),
        Some(results) => if all_given(results) {
            Ok(given(results))
        } else {
            Err(DecodeStage::Row)
        },
    }
}

/// Reads all rows, batch by batch, up to the first that cannot be read.
pub(crate) fn decode_batches(json: &[u8], field: &str, nullable: bool, type_json: &str) -> (r:
    Result<Vec<Batch>, DecodeError>)
    requires
        rows_readable(json@, field@, type_json@),
    ensures
        decode_outcome(r) == decoded_batches(json@, field@, nullable, type_json@),
        r matches Ok(batches) ==> forall|i: int|
            0 <= i < batches@.len() ==> (batch_columns(#[trigger] batches@[i]).len() == 1
                && batch_columns(batches@[i])[0].len() > 0 && batch_schema(batches@[i]) == (
            RowSchema { field: field@, nullable, type_json: type_json@ })),
        forall|items: Seq<JsonValue>|
            json@ == encode_utf8(#[trigger] rows_text(field@, items)) ==> (r matches Ok(batches)
                ==> stacked(columns_of(batches@), 0).len() == items.len()),
        forall|p: PlainType, items: Seq<JsonValue>|
            nullable && type_json@ == #[trigger] plain_text(p) && json@ == encode_utf8(
                #[trigger] rows_text(field@, items),
            ) && takes_all(p, items) ==> (r matches Ok(batches) && stacked(
                columns_of(batches@),
                0,
            ) == plain_cells(p, items)),
        forall|t: JsonValue, items: Seq<JsonValue>|
            type_json@ == #[trigger] json_text(t) && json@ == encode_utf8(
                #[trigger] rows_text(field@, items),
            ) ==> (r matches Ok(batches) ==> hold_all_members(
                t,
                items,
                stacked(columns_of(batches@), 0),
            )),
{
    let mut reader = match open_reader(json, field, nullable, type_json) {
        Ok(reader) => reader,
        Err(reason) => {
            return Err(DecodeError::Reader(reason));
        },
    };
    let ghost results = unread(reader);
    let ghost schema = RowSchema { field: field@, nullable, type_json: type_json@ };
    assert(results.skip(0) =~= results);
    let mut batches: Vec<Batch> = Vec::new();
    loop
        invariant
            rows_readable(json@, field@, type_json@),
            reader_results(json@, field@, nullable, type_json@) == Some(results),
            batches@.len() <= results.len(),
            unread(reader) == results.skip(batches@.len() as int),
            schema == (RowSchema { field: field@, nullable, type_json: type_json@ }),
            reader_schema(reader) == schema,
            forall|i: int|
                0 <= i < batches@.len() ==> (#[trigger] results[i]) == Some(
                    batch_columns(batches@[i]),
                ) && batch_schema(batches@[i]) == schema,
            forall|i: int|
                0 <= i < results.len() && (#[trigger] results[i]).is_some() ==> (
                results[i]->Some_0.len() == 1 && results[i]->Some_0[0].len() > 0),
            forall|items: Seq<JsonValue>|
                all_given(results) && json@ == encode_utf8(#[trigger] rows_text(field@, items))
                    ==> stacked(given(results), 0).len() == items.len(),
            forall|p: PlainType, items: Seq<JsonValue>|
                nullable && type_json@ == #[trigger] plain_text(p) && json@ == encode_utf8(
                    #[trigger] rows_text(field@, items),
                ) && takes_all(p, items) ==> (all_given(results) && stacked(given(results), 0)
                    == plain_cells(p, items)),
            forall|t: JsonValue, items: Seq<JsonValue>|
                all_given(results) && type_json@ == #[trigger] json_text(t) && json@ == encode_utf8(
                    #[trigger] rows_text(field@, items),
                ) ==> hold_all_members(t, items, stacked(given(results), 0)),
        decreases results.len() - batches@.len(),
    {
        let ghost n = batches@.len() as int;
        proof {
            if n < results.len() {
                assert(unread(reader)[0] == results[n]);
            }
            assert(results_after(json@, field@, nullable, type_json@, n as nat) == Some(
                unread(reader),
            ));
        }
        match next_batch(reader) {
            Ok(Some((batch, rest))) => {
                assert(results.skip(n).drop_first() =~= results.skip(n + 1));
                batches.push(batch);
                reader = rest;
            },
            Ok(None) => {
                assert(columns_of(batches@) =~= given(results));
                assert forall|i: int| 0 <= i < batches@.len() implies batch_columns(
                    #[trigger] batches@[i],
                ).len() == 1 && batch_columns(batches@[i])[0].len() > 0 && batch_schema(batches@[i])
                    == schema by {
                    assert(results[i] == Some(batch_columns(batches@[i])));
                }
                return Ok(batches);
            },
            Err(reason) => {
                assert(!all_given(results));
                return Err(DecodeError::Row(reason));
            },
        }
    }
}

/// Whether these are all the batches of one reading.
pub open spec fn one_reading(batches: Seq<Batch>, schema: RowSchema) -> bool {
    &&& forall|i: int|
        0 <= i < batches.len() ==> batch_schema(#[trigger] batches[i]) == schema && batch_columns(
            batches[i],
        ).len() == 1
    &&& exists|json: Seq<u8>|
        rows_readable(json, schema.field, schema.type_json) && #[trigger] decoded_batches(
            json,
            schema.field,
            schema.nullable,
            schema.type_json,
        ) == Ok::<Seq<Seq<Seq<Cell>>>, DecodeStage>(columns_of(batches))
}

/// Whether `concat_batches` refuses the batches with these columns, which were read with
/// this type.
pub uninterp spec fn merge_refused(columns: Seq<Seq<Seq<Cell>>>, type_json: Seq<char>) -> bool;

/// Calls `arrow::compute::concat_batches` on all the batches of one reading: the one
/// column holds the values of that column in each batch, in order. When it fails is given
/// a name; on a single batch, and on batches of a plain type, it does not. What an error says
/// is left open.
#[verifier::external_body]
pub(crate) fn merge_batches(batches: &Vec<Batch>) -> (r: Result<Batch, String>)
    requires
        batches@.len() > 0,
        one_reading(batches@, batch_schema(batches@[0])),
    ensures
        r.is_err() == merge_refused(columns_of(batches@), batch_schema(batches@[0]).type_json),
        batches@.len() == 1 ==> r.is_ok(),
        (forall|p: PlainType|
            batch_schema(batches@[0]).type_json == #[trigger] plain_text(p) ==> r.is_ok()),
        r.is_ok() ==> batch_columns(r->Ok_0) == seq![stacked(columns_of(batches@), 0)],
        r.is_ok() ==> batch_schema(r->Ok_0) == batch_schema(batches@[0]),
{
    arrow::compute::concat_batches(&batches[0].inner.schema(), batches.iter().map(|b| &b.inner))
        .map(|inner| Batch { inner })
        .map_err(|e| e.to_string())
}

/// Calls `RecordBatch::num_columns`: how many columns the batch has.
#[verifier::external_body]
pub(crate) fn column_count(batch: &Batch) -> (r: usize)
    ensures
        r == batch_columns(*batch).len(),
{
    batch.inner.num_columns()
}

/// Calls `RecordBatch::column` for the first column: an array of that column's values. The
/// one column of a batch is of the type that the batch was read with.
#[verifier::external_body]
pub(crate) fn first_column(batch: &Batch) -> (r: ArrayData)
    requires
        batch_columns(*batch).len() == 1,
    ensures
        array_cells(r) == batch_columns(*batch)[0],
        array_type(r) == batch_schema(*batch).type_json,
{
    batch.inner.column(0).to_data()
}

/// The values of a column as structures of one field.
pub open spec fn rows_of(cells: Seq<Cell>) -> Seq<Cell> {
    cells.map_values(|c: Cell| Cell::Nested(seq![c]))
}

/// Calls `StructArray::from` on a batch of one column: an array of structures of the one field
/// that the batch was read with, one for each row. None of them is null.
#[verifier::external_body]
pub(crate) fn struct_of_rows(batch: Batch) -> (r: ArrayData)
    requires
        batch_columns(batch).len() == 1,
    ensures
        array_cells(r) == rows_of(batch_columns(batch)[0]),
        array_type(r) == struct_text(
            batch_schema(batch).field,
            batch_schema(batch).nullable,
            batch_schema(batch).type_json,
        ),
{
    StructArray::from(batch.inner).into_data()
}

} // verus!
