//! Arrow data types, as far as the conversion of JSON values tells them apart.

use crate::json::{json_text, quoted, JsonValue};
use arrow::datatypes::DataType as ArrowType;
use serde_json::{from_value, Deserializer, Value};
use vstd::prelude::*;
use vstd::string::*;

verus! {

/// An Arrow type without parameters that the conversion knows by name.
#[derive(Clone, Copy, Debug, PartialEq, Eq, Structural)]
pub enum PlainType {
    Null,
    Boolean,
    Int8,
    Int16,
    Int32,
    Int64,
    UInt8,
    UInt16,
    UInt32,
    UInt64,
    Float32,
    Float64,
    Utf8,
    LargeUtf8,
}

/// An Arrow data type: one known by name, or else the JSON value that describes it.
#[derive(Clone, Copy, Debug)]
pub enum DataType<'a> {
    Plain(PlainType),
    Other(&'a JsonValue),
}

/// The Arrow name of a plain type.
pub open spec fn plain_name(p: PlainType) -> Seq<char> {
    match p {
        PlainType::Null => "Null"@,
        PlainType::Boolean => "Boolean"@,
        PlainType::Int8 => "Int8"@,
        PlainType::Int16 => "Int16"@,
        PlainType::Int32 => "Int32"@,
        PlainType::Int64 => "Int64"@,
        PlainType::UInt8 => "UInt8"@,
        PlainType::UInt16 => "UInt16"@,
        PlainType::UInt32 => "UInt32"@,
        PlainType::UInt64 => "UInt64"@,
        PlainType::Float32 => "Float32"@,
        PlainType::Float64 => "Float64"@,
        PlainType::Utf8 => "Utf8"@,
        PlainType::LargeUtf8 => "LargeUtf8"@,
    }
}

/// The plain type of this Arrow name.
pub open spec fn plain_named(name: Seq<char>) -> Option<PlainType> {
    if name == "Null"@ {
        Some(PlainType::Null)
    } else if name == "Boolean"@ {
        Some(PlainType::Boolean)
    } else if name == "Int8"@ {
        Some(PlainType::Int8)
    } else if name == "Int16"@ {
        Some(PlainType::Int16)
    } else if name == "Int32"@ {
        Some(PlainType::Int32)
    } else if name == "Int64"@ {
        Some(PlainType::Int64)
    } else if name == "UInt8"@ {
        Some(PlainType::UInt8)
    } else if name == "UInt16"@ {
        Some(PlainType::UInt16)
    } else if name == "UInt32"@ {
        Some(PlainType::UInt32)
    } else if name == "UInt64"@ {
        Some(PlainType::UInt64)
    } else if name == "Float32"@ {
        Some(PlainType::Float32)
    } else if name == "Float64"@ {
        Some(PlainType::Float64)
    } else if name == "Utf8"@ {
        Some(PlainType::Utf8)
    } else if name == "LargeUtf8"@ {
        Some(PlainType::LargeUtf8)
    } else {
        None
    }
}

/// Whether an integer is in the range of an integer type. The other types have none.
pub open spec fn in_range(p: PlainType, n: int) -> bool {
    match p {
        PlainType::Int8 => i8::MIN <= n <= i8::MAX,
        PlainType::Int16 => i16::MIN <= n <= i16::MAX,
        PlainType::Int32 => i32::MIN <= n <= i32::MAX,
        PlainType::Int64 => i64::MIN <= n <= i64::MAX,
        PlainType::UInt8 => 0 <= n <= u8::MAX,
        PlainType::UInt16 => 0 <= n <= u16::MAX,
        PlainType::UInt32 => 0 <= n <= u32::MAX,
        PlainType::UInt64 => 0 <= n <= u64::MAX,
        _ => false,
    }
}

/// The JSON text of a plain type: its name between quotes.
pub open spec fn plain_text(p: PlainType) -> Seq<char> {
    seq!['"'] + plain_name(p) + seq!['"']
}

/// The JSON text that describes a type.
pub open spec fn type_text(t: DataType) -> Seq<char> {
    match t {
        DataType::Plain(p) => plain_text(p),
        DataType::Other(hint) => json_text(*hint),
    }
}

/// The JSON text of the type of structures of one field.
pub open spec fn struct_text(field: Seq<char>, nullable: bool, type_json: Seq<char>) -> Seq<char> {
    "{\"Struct\":[{\"name\":"@ + quoted(field) + ",\"data_type\":"@ + type_json
        + ",\"nullable\":"@ + (if nullable {
        "true"@
    } else {
        "false"@
    }) + ",\"dict_id\":0,\"dict_is_ordered\":false,\"metadata\":{}}]}"@
}

/// Each plain type is found again under its own name.
pub proof fn plain_types_have_distinct_names(p: PlainType)
    ensures
        plain_named(plain_name(p)) == Some(p),
{
    reveal_strlit("Null");
    reveal_strlit("Boolean");
    reveal_strlit("Int8");
    reveal_strlit("Int16");
    reveal_strlit("Int32");
    reveal_strlit("Int64");
    reveal_strlit("UInt8");
    reveal_strlit("UInt16");
    reveal_strlit("UInt32");
    reveal_strlit("UInt64");
    reveal_strlit("Float32");
    reveal_strlit("Float64");
    reveal_strlit("Utf8");
    reveal_strlit("LargeUtf8");
    assert("Null"@.len() == 4 && "Int8"@.len() == 4 && "Utf8"@.len() == 4);
    assert("Int16"@.len() == 5 && "Int32"@.len() == 5 && "Int64"@.len() == 5);
    assert("UInt8"@.len() == 5 && "LargeUtf8"@.len() == 9);
    assert("UInt16"@.len() == 6 && "UInt32"@.len() == 6 && "UInt64"@.len() == 6);
    assert("Boolean"@.len() == 7 && "Float32"@.len() == 7 && "Float64"@.len() == 7);
    // Names of one length differ in their first character, or in the first of two digits.
    assert("Null"@[0] == 'N' && "Int8"@[0] == 'I' && "Utf8"@[0] == 'U');
    assert("Int16"@[0] == 'I' && "Int32"@[0] == 'I' && "Int64"@[0] == 'I' && "UInt8"@[0] == 'U');
    assert("Int16"@[3] == '1' && "Int32"@[3] == '3' && "Int64"@[3] == '6');
    assert("UInt16"@[4] == '1' && "UInt32"@[4] == '3' && "UInt64"@[4] == '6');
    assert("Boolean"@[0] == 'B' && "Float32"@[0] == 'F' && "Float64"@[0] == 'F');
    assert("Float32"@[5] == '3' && "Float64"@[5] == '6');
}

/// Each of the names is that of one plain type.
proof fn names_belong_to_one_type()
    ensures
        plain_named("Null"@) == Some(PlainType::Null),
        plain_named("Boolean"@) == Some(PlainType::Boolean),
        plain_named("Int8"@) == Some(PlainType::Int8),
        plain_named("Int16"@) == Some(PlainType::Int16),
        plain_named("Int32"@) == Some(PlainType::Int32),
        plain_named("Int64"@) == Some(PlainType::Int64),
        plain_named("UInt8"@) == Some(PlainType::UInt8),
        plain_named("UInt16"@) == Some(PlainType::UInt16),
        plain_named("UInt32"@) == Some(PlainType::UInt32),
        plain_named("UInt64"@) == Some(PlainType::UInt64),
        plain_named("Float32"@) == Some(PlainType::Float32),
        plain_named("Float64"@) == Some(PlainType::Float64),
        plain_named("Utf8"@) == Some(PlainType::Utf8),
        plain_named("LargeUtf8"@) == Some(PlainType::LargeUtf8),
{
    plain_types_have_distinct_names(PlainType::Null);
    plain_types_have_distinct_names(PlainType::Boolean);
    plain_types_have_distinct_names(PlainType::Int8);
    plain_types_have_distinct_names(PlainType::Int16);
    plain_types_have_distinct_names(PlainType::Int32);
    plain_types_have_distinct_names(PlainType::Int64);
    plain_types_have_distinct_names(PlainType::UInt8);
    plain_types_have_distinct_names(PlainType::UInt16);
    plain_types_have_distinct_names(PlainType::UInt32);
    plain_types_have_distinct_names(PlainType::UInt64);
    plain_types_have_distinct_names(PlainType::Float32);
    plain_types_have_distinct_names(PlainType::Float64);
    plain_types_have_distinct_names(PlainType::Utf8);
    plain_types_have_distinct_names(PlainType::LargeUtf8);
}

/// The range of an integer type goes by its bits: an unsigned type of `w` bits takes what is
/// below two to the power of `w`, and a signed one half of it on either side of zero.
pub proof fn ranges_go_by_the_bits(n: int)
    ensures
        in_range(PlainType::Int8, n) <==> -0x80 <= n < 0x80,
        in_range(PlainType::Int16, n) <==> -0x8000 <= n < 0x8000,
        in_range(PlainType::Int32, n) <==> -0x8000_0000 <= n < 0x8000_0000,
        in_range(PlainType::Int64, n) <==> -0x8000_0000_0000_0000 <= n < 0x8000_0000_0000_0000,
        in_range(PlainType::UInt8, n) <==> 0 <= n < 0x100,
        in_range(PlainType::UInt16, n) <==> 0 <= n < 0x1_0000,
        in_range(PlainType::UInt32, n) <==> 0 <= n < 0x1_0000_0000,
        in_range(PlainType::UInt64, n) <==> 0 <= n < 0x1_0000_0000_0000_0000,
{
}

/// A type is described by its own text: a plain one by its name between quotes, and any other
/// by the JSON text that it was read from.
pub proof fn types_are_described_by_their_texts(p: PlainType, hint: JsonValue)
    ensures
        type_text(DataType::Plain(p)).len() == plain_name(p).len() + 2,
        type_text(DataType::Plain(p)).first() == '"',
        type_text(DataType::Plain(p)).last() == '"',
        type_text(DataType::Plain(p)).subrange(1, plain_name(p).len() as int + 1) == plain_name(p),
        type_text(DataType::Other(&hint)) == json_text(hint),
{
    assert(plain_text(p).subrange(1, plain_name(p).len() as int + 1) =~= plain_name(p));
}

/// Different plain types have different texts.
pub proof fn plain_texts_differ(p: PlainType, q: PlainType)
    requires
        p != q,
    ensures
        plain_text(p) != plain_text(q),
{
    plain_types_have_distinct_names(p);
    plain_types_have_distinct_names(q);
    let n = plain_name(p).len() as int;
    let m = plain_name(q).len() as int;
    if plain_text(p) == plain_text(q) {
        assert(plain_text(p).len() == n + 2 && plain_text(q).len() == m + 2);
        assert(plain_text(p).subrange(1, n + 1) =~= plain_name(p));
        assert(plain_text(q).subrange(1, m + 1) =~= plain_name(q));
    }
}

/// What a result of texts holds.
pub open spec fn text_outcome(r: Result<String, String>) -> Result<Seq<char>, Seq<char>> {
    match r {
        Ok(text) => Ok(text@),
        Err(reason) => Err(reason@),
    }
}

/// The name of the plain type that `serde_json` reads from this text, no characters for
/// any other type, or else its complaint.
pub uninterp spec fn read_type_name(json: Seq<char>) -> Result<Seq<char>, Seq<char>>;

/// Calls `serde_json::from_value` for an Arrow `DataType`, on the JSON value that `json`
/// is the text of. Which texts describe a type is given a name; a plain type's own text
/// is read as that type.
#[verifier::external_body]
fn arrow_type_name(json: &str) -> (r: Result<String, String>)
    ensures
        text_outcome(r) == read_type_name(json@),
        (forall|p: PlainType|
            json@ == #[trigger] plain_text(p) ==> r.is_ok() && r->Ok_0@
                == plain_name(p)),
{
    let mut reader = Deserializer::from_str(json);
    reader.disable_recursion_limit();
    reader.into_iter().next().unwrap_or(Ok(Value::Null)).and_then(from_value)
        .map(|t| match t {
            ArrowType::Null => "Null", ArrowType::Boolean => "Boolean", ArrowType::Int8 => "Int8",
            ArrowType::Int16 => "Int16", ArrowType::Int32 => "Int32", ArrowType::Int64 => "Int64",
            ArrowType::UInt8 => "UInt8", ArrowType::UInt16 => "UInt16", ArrowType::UInt32 => "UInt32",
            ArrowType::UInt64 => "UInt64", ArrowType::Float32 => "Float32", ArrowType::Float64 => "Float64",
            ArrowType::Utf8 => "Utf8", ArrowType::LargeUtf8 => "LargeUtf8",
            _ => "",
        }.to_owned())
        .map_err(|e| e.to_string())
}

/// Whether `name` is the text `wanted`.
fn is_text(name: &String, wanted: &str) -> (r: bool)
    ensures
        r == (name@ == wanted@),
{
    *name == wanted.to_owned()
}

/// The plain type of this Arrow name.
pub fn find_plain(name: &String) -> (r: Option<PlainType>)
    ensures
        r == plain_named(name@),
        r == Some(PlainType::Null) <==> name@ == "Null"@,
        r == Some(PlainType::Boolean) <==> name@ == "Boolean"@,
        r == Some(PlainType::Int8) <==> name@ == "Int8"@,
        r == Some(PlainType::Int16) <==> name@ == "Int16"@,
        r == Some(PlainType::Int32) <==> name@ == "Int32"@,
        r == Some(PlainType::Int64) <==> name@ == "Int64"@,
        r == Some(PlainType::UInt8) <==> name@ == "UInt8"@,
        r == Some(PlainType::UInt16) <==> name@ == "UInt16"@,
        r == Some(PlainType::UInt32) <==> name@ == "UInt32"@,
        r == Some(PlainType::UInt64) <==> name@ == "UInt64"@,
        r == Some(PlainType::Float32) <==> name@ == "Float32"@,
        r == Some(PlainType::Float64) <==> name@ == "Float64"@,
        r == Some(PlainType::Utf8) <==> name@ == "Utf8"@,
        r == Some(PlainType::LargeUtf8) <==> name@ == "LargeUtf8"@,
{
    proof {
        names_belong_to_one_type();
    }
    if is_text(name, "Null") {
        Some(PlainType::Null)
    } else if is_text(name, "Boolean") {
        Some(PlainType::Boolean)
    } else if is_text(name, "Int8") {
        Some(PlainType::Int8)
    } else if is_text(name, "Int16") {
        Some(PlainType::Int16)
    } else if is_text(name, "Int32") {
        Some(PlainType::Int32)
    } else if is_text(name, "Int64") {
        Some(PlainType::Int64)
    } else if is_text(name, "UInt8") {
        Some(PlainType::UInt8)
    } else if is_text(name, "UInt16") {
        Some(PlainType::UInt16)
    } else if is_text(name, "UInt32") {
        Some(PlainType::UInt32)
    } else if is_text(name, "UInt64") {
        Some(PlainType::UInt64)
    } else if is_text(name, "Float32") {
        Some(PlainType::Float32)
    } else if is_text(name, "Float64") {
        Some(PlainType::Float64)
    } else if is_text(name, "Utf8") {
        Some(PlainType::Utf8)
    } else if is_text(name, "LargeUtf8") {
        Some(PlainType::LargeUtf8)
    } else {
        None
    }
}

impl PlainType {
    /// The Arrow name of the type.
    pub fn name(&self) -> (r: &'static str)
        ensures
            r@ == plain_name(*self),
            r@ == "Null"@ <==> *self == PlainType::Null,
            r@ == "Boolean"@ <==> *self == PlainType::Boolean,
            r@ == "Int8"@ <==> *self == PlainType::Int8,
            r@ == "Int16"@ <==> *self == PlainType::Int16,
            r@ == "Int32"@ <==> *self == PlainType::Int32,
            r@ == "Int64"@ <==> *self == PlainType::Int64,
            r@ == "UInt8"@ <==> *self == PlainType::UInt8,
            r@ == "UInt16"@ <==> *self == PlainType::UInt16,
            r@ == "UInt32"@ <==> *self == PlainType::UInt32,
            r@ == "UInt64"@ <==> *self == PlainType::UInt64,
            r@ == "Float32"@ <==> *self == PlainType::Float32,
            r@ == "Float64"@ <==> *self == PlainType::Float64,
            r@ == "Utf8"@ <==> *self == PlainType::Utf8,
            r@ == "LargeUtf8"@ <==> *self == PlainType::LargeUtf8,
    {
        proof {
            names_belong_to_one_type();
        }
        match self {
            PlainType::Null => "Null",
            PlainType::Boolean => "Boolean",
            PlainType::Int8 => "Int8",
            PlainType::Int16 => "Int16",
            PlainType::Int32 => "Int32",
            PlainType::Int64 => "Int64",
            PlainType::UInt8 => "UInt8",
            PlainType::UInt16 => "UInt16",
            PlainType::UInt32 => "UInt32",
            PlainType::UInt64 => "UInt64",
            PlainType::Float32 => "Float32",
            PlainType::Float64 => "Float64",
            PlainType::Utf8 => "Utf8",
            PlainType::LargeUtf8 => "LargeUtf8",
        }
    }
}

impl<'a> DataType<'a> {
    /// The JSON text that describes the type.
    pub fn to_text(&self) -> (r: String)
        ensures
            r@ == type_text(*self),
    {
        match self {
            DataType::Plain(p) => {
                proof {
                    reveal_strlit("\"");
                }
                let mut text = "\"".to_owned();
                text.append(p.name());
                text.append("\"");
                text
            },
            DataType::Other(hint) => hint.to_text(),
        }
    }
}

/// Calls `Debug` for an Arrow `DataType`, on the type that `json` describes. A plain type is
/// shown by its name. What any other is shown as is left open: the metadata of a nested
/// field is listed in an order that differs from run to run.
#[verifier::external_body]
pub(crate) fn type_shown(json: &str) -> (r: String)
    ensures
        (forall|p: PlainType| json@ == #[trigger] plain_text(p) ==> r@ == plain_name(p)),
{
    let mut reader = Deserializer::from_str(json);
    reader.disable_recursion_limit();
    let read = reader.into_iter::<ArrowType>().next();
    read.and_then(Result::ok).map(|t| format!("{t:?}")).unwrap_or_default()
}

/// The type that a JSON value describes, or the complaint about it.
pub open spec fn described_type<'a>(hint: &'a JsonValue) -> Result<DataType<'a>, Seq<char>> {
    match read_type_name(json_text(*hint)) {
        Ok(name) => match plain_named(name) {
            Some(p) => Ok(DataType::Plain(p)),
            None => Ok(DataType::Other(hint)),
        },
        Err(reason) => Err(reason),
    }
}

/// A name that is that of a plain type is read as the type of that name, and any other as
/// what the JSON value describes; what is no type is refused with the complaint about it.
pub proof fn types_follow_their_names(hint: &JsonValue, p: PlainType)
    ensures
        read_type_name(json_text(*hint)) == Ok::<Seq<char>, Seq<char>>(plain_name(p))
            <==> described_type(hint) == Ok::<DataType, Seq<char>>(DataType::Plain(p)),
        described_type(hint) matches Ok(DataType::Other(t)) ==> *t == *hint,
        described_type(hint) is Err <==> read_type_name(json_text(*hint)) is Err,
        described_type(hint) is Err ==> described_type(hint)->Err_0 == read_type_name(
            json_text(*hint),
        )->Err_0,
{
    plain_types_have_distinct_names(p);
    match read_type_name(json_text(*hint)) {
        Ok(name) => {
            if described_type(hint) == Ok::<DataType, Seq<char>>(DataType::Plain(p)) {
                assert(name == plain_name(p));
            }
        },
        Err(_) => {},
    }
}

/// What a result of [`parse_data_type`] holds.
pub open spec fn type_outcome<'a>(r: Result<DataType<'a>, String>) -> Result<
    DataType<'a>,
    Seq<char>,
> {
    match r {
        Ok(t) => Ok(t),
        Err(reason) => Err(reason@),
    }
}

/// Read a data type from the JSON value that describes it.
pub fn parse_data_type<'a>(hint: &'a JsonValue) -> (r: Result<DataType<'a>, String>)
    ensures
        type_outcome(r) == described_type(hint),
        r is Ok <==> read_type_name(json_text(*hint)) is Ok,
        r matches Ok(DataType::Plain(p)) ==> read_type_name(json_text(*hint)) == Ok::<
            Seq<char>,
            Seq<char>,
        >(plain_name(p)),
        r matches Ok(DataType::Other(t)) ==> *t == *hint,
        r matches Err(reason) ==> read_type_name(json_text(*hint)) == Err::<Seq<char>, Seq<char>>(
            reason@,
        ),
        forall|p: PlainType|
            json_text(*hint) == #[trigger] plain_text(p) ==> r == Ok::<DataType, String>(
                DataType::Plain(p),
            ),
{
    let json = hint.to_text();
    match arrow_type_name(json.as_str()) {
        Ok(name) => {
            proof {
                assert forall|p: PlainType|
                    json@ == #[trigger] plain_text(p) implies plain_named(name@) == Some(p) by {
                    plain_types_have_distinct_names(p);
                }
            }
            match find_plain(&name) {
                Some(p) => Ok(DataType::Plain(p)),
                None => Ok(DataType::Other(hint)),
            }
        },
        Err(reason) => Err(reason),
    }
}

} // verus!
