//! The kinds of Arrow types that rows of JSON are read with, taken from the JSON values that
//! describe the types.

use crate::json::{field_of, JsonValue, Number};
use vstd::prelude::*;
use vstd::string::*;

verus! {

/// The integer that a value is.
pub open spec fn integer_of(v: JsonValue) -> Option<int> {
    match v {
        JsonValue::Number(n) => n.integer(),
        _ => None,
    }
}

/// The name of a field: `{"name": name, ...}` or `[name, ...]`.
pub open spec fn field_name(f: JsonValue) -> Option<Seq<char>> {
    let name = match f {
        JsonValue::Array(parts) => if parts@.len() > 0 {
            Some(parts@[0])
        } else {
            None
        },
        _ => field_of(f, "name"@),
    };
    match name {
        Some(JsonValue::String(s)) => Some(s@),
        _ => None,
    }
}

/// The type of a field: `{"data_type": type, ...}` or `[name, type, ...]`.
pub open spec fn field_type(f: JsonValue) -> Option<JsonValue> {
    match f {
        JsonValue::Array(parts) => if parts@.len() > 1 {
            Some(parts@[1])
        } else {
            None
        },
        _ => field_of(f, "data_type"@),
    }
}

/// Whether a field may be null: `{"nullable": nullable, ...}` or `[name, type, nullable, ...]`.
pub open spec fn field_nullable(f: JsonValue) -> bool {
    match f {
        JsonValue::Array(parts) => parts@.len() > 2 && parts@[2] == JsonValue::Bool(true),
        _ => field_of(f, "nullable"@) == Some(JsonValue::Bool(true)),
    }
}

/// The name of a type without parameters: `name` or `{name: null}`.
pub open spec fn unit_name(t: JsonValue) -> Option<Seq<char>> {
    match t {
        JsonValue::String(s) => Some(s@),
        JsonValue::Object(members) => if members@.len() == 1 && members@[0].1 is Null {
            Some(members@[0].0@)
        } else {
            None
        },
        _ => None,
    }
}

/// The name of a type, with or without parameters: `name` or `{name: parameters}`.
pub open spec fn name_of_type(t: JsonValue) -> Option<Seq<char>> {
    match t {
        JsonValue::String(s) => Some(s@),
        JsonValue::Object(members) => if members@.len() == 1 {
            Some(members@[0].0@)
        } else {
            None
        },
        _ => None,
    }
}

/// What a type is, as far as reading needs care.
pub ghost enum Kind {
    /// A type that takes no care, or that no reader is made for.
    Leaf,
    /// Bytes of one width.
    Bytes(int),
    /// Decimals of so many bits, with a precision and a scale.
    Decimal { bits: int, precision: int, scale: int },
    /// Lists of any length.
    List(JsonValue),
    /// Lists of one length.
    SizedList { item: JsonValue, size: int },
    /// Structures of these fields.
    Struct(Seq<JsonValue>),
    /// Maps.
    Entries { key: JsonValue, value: JsonValue },
    /// Runs of equal values, whose ends are of 16 bits or of more.
    Runs { short: bool, values: JsonValue },
    /// Runs whose ends are no integers that run ends can be.
    BadRuns,
}

/// The parts of an array of two.
pub open spec fn pair_of(v: JsonValue) -> Option<(JsonValue, JsonValue)> {
    match v {
        JsonValue::Array(parts) => if parts@.len() == 2 {
            Some((parts@[0], parts@[1]))
        } else {
            None
        },
        _ => None,
    }
}

/// The kind of a list.
pub open spec fn list_kind(f: JsonValue) -> Kind {
    match field_type(f) {
        Some(item) => Kind::List(item),
        None => Kind::Leaf,
    }
}

/// The kind of a list of one length.
pub open spec fn sized_list_kind(f: JsonValue, size: JsonValue) -> Kind {
    match (field_type(f), integer_of(size)) {
        (Some(item), Some(size)) => Kind::SizedList { item, size },
        _ => Kind::Leaf,
    }
}

/// The kind of a decimal.
pub open spec fn decimal_kind(bits: int, precision: JsonValue, scale: JsonValue) -> Kind {
    match (integer_of(precision), integer_of(scale)) {
        (Some(precision), Some(scale)) => Kind::Decimal { bits, precision, scale },
        _ => Kind::Leaf,
    }
}

/// The kind of a map, whose entries are structures of two fields.
pub open spec fn map_kind(entries: JsonValue) -> Kind {
    match field_type(entries) {
        Some(JsonValue::Object(members)) => if members@.len() == 1 && members@[0].0@
            == "Struct"@ {
            match pair_of(members@[0].1) {
                Some((k, v)) => match (field_type(k), field_type(v)) {
                    (Some(key), Some(value)) => Kind::Entries { key, value },
                    _ => Kind::Leaf,
                },
                None => Kind::Leaf,
            }
        } else {
            Kind::Leaf
        },
        _ => Kind::Leaf,
    }
}

/// The kind of runs.
pub open spec fn runs_kind(ends: JsonValue, values: JsonValue) -> Kind {
    match (field_type(ends), field_type(values)) {
        (Some(end), Some(values)) => if unit_name(end) == Some("Int16"@) {
            Kind::Runs { short: true, values }
        } else if unit_name(end) == Some("Int32"@) || unit_name(end) == Some("Int64"@) {
            Kind::Runs { short: false, values }
        } else {
            Kind::BadRuns
        },
        _ => Kind::Leaf,
    }
}

/// The kind of a type that is described by one member.
pub open spec fn member_kind(tag: Seq<char>, v: JsonValue) -> Kind {
    if tag == "List"@ || tag == "LargeList"@ || tag == "ListView"@ || tag == "LargeListView"@ {
        list_kind(v)
    } else if tag == "Struct"@ {
        match v {
            JsonValue::Array(fields) => Kind::Struct(fields@),
            _ => Kind::Leaf,
        }
    } else if tag == "FixedSizeBinary"@ {
        match integer_of(v) {
            Some(width) => Kind::Bytes(width),
            None => Kind::Leaf,
        }
    } else {
        match pair_of(v) {
            Some((a, b)) => if tag == "FixedSizeList"@ {
                sized_list_kind(a, b)
            } else if tag == "Map"@ {
                map_kind(a)
            } else if tag == "RunEndEncoded"@ {
                runs_kind(a, b)
            } else if tag == "Decimal32"@ {
                decimal_kind(32, a, b)
            } else if tag == "Decimal64"@ {
                decimal_kind(64, a, b)
            } else if tag == "Decimal128"@ {
                decimal_kind(128, a, b)
            } else if tag == "Decimal256"@ {
                decimal_kind(256, a, b)
            } else {
                Kind::Leaf
            },
            None => Kind::Leaf,
        }
    }
}

/// The kind of the type that a JSON value describes.
pub open spec fn kind(t: JsonValue) -> Kind {
    match t {
        JsonValue::Object(members) => if members@.len() == 1 {
            member_kind(members@[0].0@, members@[0].1)
        } else {
            Kind::Leaf
        },
        _ => Kind::Leaf,
    }
}

proof fn member_decreases(members: Seq<(String, JsonValue)>, key: Seq<char>)
    ensures
        crate::json::member(members, key) matches Some(v) ==> exists|i: int|
            0 <= i < members.len() && (#[trigger] members[i]).1 == v,
    decreases members.len(),
{
    if members.len() > 0 && members[0].0@ != key {
        let rest = members.drop_first();
        member_decreases(rest, key);
        if crate::json::member(rest, key) is Some {
            let v = crate::json::member(rest, key)->Some_0;
            let i = choose|i: int| 0 <= i < rest.len() && (#[trigger] rest[i]).1 == v;
            assert(members[i + 1] == rest[i]);
        }
    }
}

/// The type of a field is part of it.
pub proof fn field_type_decreases(f: JsonValue)
    ensures
        field_type(f) matches Some(t) ==> decreases_to!(f => t),
{
    match f {
        JsonValue::Array(parts) => {
            assert(decreases_to!(f => f->Array_0@));
            if parts@.len() > 1 {
                assert(decreases_to!(parts@ => parts@[1]));
            }
        },
        JsonValue::Object(members) => {
            member_decreases(members@, "data_type"@);
            if field_type(f) is Some {
                let t = field_type(f)->Some_0;
                let i = choose|i: int| 0 <= i < members@.len() && (#[trigger] members@[i]).1 == t;
                assert(decreases_to!(f => f->Object_0@));
                assert(decreases_to!(members@ => members@[i]));
                assert(decreases_to!(members@[i] => members@[i].1));
            }
        },
        _ => {},
    }
}

/// The types that a type is made of are parts of it.
pub proof fn parts_decrease(t: JsonValue)
    ensures
        kind(t) matches Kind::List(item) ==> decreases_to!(t => item),
        kind(t) matches Kind::SizedList { item, size } ==> decreases_to!(t => item),
        kind(t) matches Kind::Struct(fields) ==> decreases_to!(t => fields),
        kind(t) matches Kind::Entries { key, value } ==> decreases_to!(t => key) && decreases_to!(
            t => value
        ),
        kind(t) matches Kind::Runs { short, values } ==> decreases_to!(t => values),
{
    match t {
        JsonValue::Object(members) => {
            if members@.len() == 1 {
                let v = members@[0].1;
                assert(decreases_to!(t => t->Object_0@));
                assert(decreases_to!(members@ => members@[0]));
                assert(decreases_to!(members@[0] => members@[0].1));
                assert(decreases_to!(t => v));
                field_type_decreases(v);
                match v {
                    JsonValue::Array(parts) => {
                        assert(decreases_to!(v => v->Array_0@));
                        assert(decreases_to!(t => parts@));
                        if parts@.len() == 2 {
                            let a = parts@[0];
                            let b = parts@[1];
                            assert(decreases_to!(parts@ => parts@[0]));
                            assert(decreases_to!(parts@ => parts@[1]));
                            assert(decreases_to!(t => a));
                            assert(decreases_to!(t => b));
                            field_type_decreases(a);
                            field_type_decreases(b);
                            if field_type(a) is Some {
                                let entries = field_type(a)->Some_0;
                                assert(decreases_to!(t => entries));
                                match entries {
                                    JsonValue::Object(inner) => {
                                        if inner@.len() == 1 {
                                            assert(decreases_to!(entries => entries->Object_0@));
                                            assert(decreases_to!(inner@ => inner@[0]));
                                            assert(decreases_to!(inner@[0] => inner@[0].1));
                                            let w = inner@[0].1;
                                            assert(decreases_to!(t => w));
                                            match w {
                                                JsonValue::Array(two) => {
                                                    assert(decreases_to!(w => w->Array_0@));
                                                    if two@.len() == 2 {
                                                        assert(decreases_to!(two@ => two@[0]));
                                                        assert(decreases_to!(two@ => two@[1]));
                                                        assert(decreases_to!(t => two@[0]));
                                                        assert(decreases_to!(t => two@[1]));
                                                        field_type_decreases(two@[0]);
                                                        field_type_decreases(two@[1]);
                                                    }
                                                },
                                                _ => {},
                                            }
                                        }
                                    },
                                    _ => {},
                                }
                            }
                        }
                    },
                    _ => {},
                }
            }
        },
        _ => {},
    }
}

/// [`Kind`], with references to the parts.
pub(crate) enum KindRef<'a> {
    Leaf,
    Bytes(i128),
    Decimal { bits: i128, precision: i128, scale: i128 },
    List(&'a JsonValue),
    SizedList { item: &'a JsonValue, size: i128 },
    Struct(&'a Vec<JsonValue>),
    Entries { key: &'a JsonValue, value: &'a JsonValue },
    Runs { short: bool, values: &'a JsonValue },
    BadRuns,
}

impl<'a> KindRef<'a> {
    pub(crate) open spec fn view(self) -> Kind {
        match self {
            KindRef::Leaf => Kind::Leaf,
            KindRef::Bytes(width) => Kind::Bytes(width as int),
            KindRef::Decimal { bits, precision, scale } => Kind::Decimal {
                bits: bits as int,
                precision: precision as int,
                scale: scale as int,
            },
            KindRef::List(item) => Kind::List(*item),
            KindRef::SizedList { item, size } => Kind::SizedList { item: *item, size: size as int },
            KindRef::Struct(fields) => Kind::Struct(fields@),
            KindRef::Entries { key, value } => Kind::Entries { key: *key, value: *value },
            KindRef::Runs { short, values } => Kind::Runs { short, values: *values },
            KindRef::BadRuns => Kind::BadRuns,
        }
    }

    /// Whether the numbers are those of JSON.
    pub(crate) open spec fn in_bounds(self) -> bool {
        match self {
            KindRef::Bytes(width) => i64::MIN <= width <= u64::MAX,
            KindRef::Decimal { bits, precision, scale } => i64::MIN <= scale <= u64::MAX,
            KindRef::SizedList { item, size } => i64::MIN <= size <= u64::MAX,
            _ => true,
        }
    }
}

/// Whether a text is `wanted`.
fn is_key(key: &String, wanted: &str) -> (r: bool)
    ensures
        r == (key@ == wanted@),
{
    *key == wanted.to_owned()
}

/// The integer that a value is.
fn read_integer(v: &JsonValue) -> (r: Option<i128>)
    ensures
        match r {
            Some(i) => integer_of(*v) == Some(i as int) && i64::MIN <= i <= u64::MAX,
            None => integer_of(*v) is None,
        },
{
    match v {
        JsonValue::Number(Number::PosInt(u)) => Some(*u as i128),
        JsonValue::Number(Number::NegInt(i)) => Some(*i as i128),
        _ => None,
    }
}

/// The name of a field.
pub(crate) fn read_field_name(f: &JsonValue) -> (r: Option<&String>)
    ensures
        match r {
            Some(name) => field_name(*f) == Some(name@),
            None => field_name(*f) is None,
        },
{
    let name = match f {
        JsonValue::Array(parts) => if parts.len() > 0 {
            Some(&parts[0])
        } else {
            None
        },
        _ => f.get("name"),
    };
    match name {
        Some(JsonValue::String(s)) => Some(s),
        _ => None,
    }
}

/// The type of a field.
pub(crate) fn read_field_type(f: &JsonValue) -> (r: Option<&JsonValue>)
    ensures
        match r {
            Some(t) => field_type(*f) == Some(*t),
            None => field_type(*f) is None,
        },
{
    match f {
        JsonValue::Array(parts) => if parts.len() > 1 {
            Some(&parts[1])
        } else {
            None
        },
        _ => f.get("data_type"),
    }
}

/// Whether a field may be null.
pub(crate) fn is_field_nullable(f: &JsonValue) -> (r: bool)
    ensures
        r == field_nullable(*f),
{
    let nullable = match f {
        JsonValue::Array(parts) => if parts.len() > 2 {
            Some(&parts[2])
        } else {
            None
        },
        _ => f.get("nullable"),
    };
    match nullable {
        Some(JsonValue::Bool(b)) => *b,
        _ => false,
    }
}

/// Whether a type is one of this name.
pub(crate) fn is_named(t: &JsonValue, name: &str) -> (r: bool)
    ensures
        r == (name_of_type(*t) == Some(name@)),
{
    match t {
        JsonValue::String(s) => is_key(s, name),
        JsonValue::Object(members) => members.len() == 1 && is_key(&members[0].0, name),
        _ => false,
    }
}

/// Whether a type is the one of this name, without parameters.
pub(crate) fn is_unit(t: &JsonValue, name: &str) -> (r: bool)
    ensures
        r == (unit_name(*t) == Some(name@)),
{
    match t {
        JsonValue::String(s) => is_key(s, name),
        JsonValue::Object(members) => if members.len() == 1 {
            match &members[0].1 {
                JsonValue::Null => is_key(&members[0].0, name),
                _ => false,
            }
        } else {
            false
        },
        _ => false,
    }
}

/// The parts of an array of two.
fn read_pair(v: &JsonValue) -> (r: Option<(&JsonValue, &JsonValue)>)
    ensures
        match r {
            Some((a, b)) => pair_of(*v) == Some((*a, *b)),
            None => pair_of(*v) is None,
        },
{
    match v {
        JsonValue::Array(parts) => if parts.len() == 2 {
            Some((&parts[0], &parts[1]))
        } else {
            None
        },
        _ => None,
    }
}

/// The kind of a decimal.
fn read_decimal_kind<'a>(bits: i128, precision: &'a JsonValue, scale: &'a JsonValue) -> (r: KindRef<
    'a,
>)
    ensures
        r.view() == decimal_kind(bits as int, *precision, *scale),
        r.in_bounds(),
{
    match (read_integer(precision), read_integer(scale)) {
        (Some(precision), Some(scale)) => KindRef::Decimal { bits, precision, scale },
        _ => KindRef::Leaf,
    }
}

/// The kind of a map.
fn read_map_kind(entries: &JsonValue) -> (r: KindRef<'_>)
    ensures
        r.view() == map_kind(*entries),
        r.in_bounds(),
{
    match read_field_type(entries) {
        Some(JsonValue::Object(members)) => if members.len() == 1 && is_key(
            &members[0].0,
            "Struct",
        ) {
            match read_pair(&members[0].1) {
                Some((k, v)) => match (read_field_type(k), read_field_type(v)) {
                    (Some(key), Some(value)) => KindRef::Entries { key, value },
                    _ => KindRef::Leaf,
                },
                None => KindRef::Leaf,
            }
        } else {
            KindRef::Leaf
        },
        _ => KindRef::Leaf,
    }
}

/// The kind of runs.
fn read_runs_kind<'a>(ends: &'a JsonValue, values: &'a JsonValue) -> (r: KindRef<'a>)
    ensures
        r.view() == runs_kind(*ends, *values),
        r.in_bounds(),
{
    match (read_field_type(ends), read_field_type(values)) {
        (Some(end), Some(values)) => if is_unit(end, "Int16") {
            KindRef::Runs { short: true, values }
        } else if is_unit(end, "Int32") || is_unit(end, "Int64") {
            KindRef::Runs { short: false, values }
        } else {
            KindRef::BadRuns
        },
        _ => KindRef::Leaf,
    }
}

/// The kind of a type that is described by one member.
fn read_member_kind<'a>(tag: &String, v: &'a JsonValue) -> (r: KindRef<'a>)
    ensures
        r.view() == member_kind(tag@, *v),
        r.in_bounds(),
{
    if is_key(tag, "List") || is_key(tag, "LargeList") || is_key(tag, "ListView") || is_key(
        tag,
        "LargeListView",
    ) {
        return match read_field_type(v) {
            Some(item) => KindRef::List(item),
            None => KindRef::Leaf,
        };
    }
    if is_key(tag, "Struct") {
        return match v {
            JsonValue::Array(fields) => KindRef::Struct(fields),
            _ => KindRef::Leaf,
        };
    }
    if is_key(tag, "FixedSizeBinary") {
        return match read_integer(v) {
            Some(width) => KindRef::Bytes(width),
            None => KindRef::Leaf,
        };
    }
    match read_pair(v) {
        Some((a, b)) => if is_key(tag, "FixedSizeList") {
            match (read_field_type(a), read_integer(b)) {
                (Some(item), Some(size)) => KindRef::SizedList { item, size },
                _ => KindRef::Leaf,
            }
        } else if is_key(tag, "Map") {
            read_map_kind(a)
        } else if is_key(tag, "RunEndEncoded") {
            read_runs_kind(a, b)
        } else if is_key(tag, "Decimal32") {
            read_decimal_kind(32, a, b)
        } else if is_key(tag, "Decimal64") {
            read_decimal_kind(64, a, b)
        } else if is_key(tag, "Decimal128") {
            read_decimal_kind(128, a, b)
        } else if is_key(tag, "Decimal256") {
            read_decimal_kind(256, a, b)
        } else {
            KindRef::Leaf
        },
        None => KindRef::Leaf,
    }
}

/// The kind of the type that a JSON value describes.
pub(crate) fn read_kind(t: &JsonValue) -> (r: KindRef<'_>)
    ensures
        r.view() == kind(*t),
        r.in_bounds(),
{
    match t {
        JsonValue::Object(members) => if members.len() == 1 {
            read_member_kind(&members[0].0, &members[0].1)
        } else {
            KindRef::Leaf
        },
        _ => KindRef::Leaf,
    }
}

} // verus!
