//! Which rows of JSON can be read with which types. Where a decimal, sized bytes or runs are
//! to be read from what they cannot be read from, or a size is out of bounds, the Arrow
//! reader may panic instead of giving an error. A type is walked together with the value that
//! is read with it, as the reader does.

use crate::data_type::{DataType, PlainType};
use crate::decimals::{decimal_readable, is_decimal_readable};
use crate::json::{number_digits, number_text, JsonValue};
use crate::kinds::{
    field_name, field_nullable, field_type, field_type_decreases, is_field_nullable, is_named,
    is_unit, kind, name_of_type, parts_decrease, read_field_name, read_field_type, read_kind,
    unit_name, Kind, KindRef,
};
use vstd::prelude::*;
use vstd::string::*;

verus! {

/// Whether the nulls of a field that may not be null go unseen until rows are taken out: those
/// of an array of nulls or of runs are in no list of nulls of its own.
pub open spec fn hides_nulls(f: JsonValue) -> bool {
    !field_nullable(f) && match field_type(f) {
        Some(t) => unit_name(t) == Some("Null"@) || kind(t) is Runs,
        None => false,
    }
}

/// Whether a type can be read with: no size is negative, and all run ends are integers that
/// run ends can be. From the values of runs, rows are taken out: there no size is zero, as the
/// length of an array of such values is lost, and no field hides its nulls.
pub open spec fn sound(t: JsonValue, in_runs: bool) -> bool
    decreases t,
{
    proof {
        parts_decrease(t);
    }
    match kind(t) {
        Kind::Leaf | Kind::Decimal { .. } => true,
        Kind::Bytes(width) => size_sound(width, in_runs),
        Kind::List(item) => sound(item, in_runs),
        Kind::SizedList { item, size } => size_sound(size, in_runs) && sound(item, in_runs),
        Kind::Struct(fields) => fields_sound(fields, in_runs),
        Kind::Entries { key, value } => sound(key, in_runs) && sound(value, in_runs),
        Kind::Runs { short, values } => sound(values, true),
        Kind::BadRuns => false,
    }
}

/// Whether a size can be read with.
pub open spec fn size_sound(size: int, in_runs: bool) -> bool {
    size > 0 || (size == 0 && !in_runs)
}

/// Whether the types of these fields can be read with.
pub open spec fn fields_sound(fields: Seq<JsonValue>, in_runs: bool) -> bool
    decreases fields,
{
    proof {
        if fields.len() > 0 {
            field_type_decreases(fields.last());
        }
    }
    fields.len() == 0 || (fields_sound(fields.drop_last(), in_runs) && !(in_runs && hides_nulls(
        fields.last(),
    )) && match field_type(fields.last()) {
        Some(t) => sound(t, in_runs),
        None => true,
    })
}

/// Whether a text can be read with a type.
pub open spec fn safe_text(t: JsonValue, s: Seq<char>) -> bool
    decreases t,
{
    proof {
        parts_decrease(t);
    }
    match kind(t) {
        Kind::Decimal { bits, precision, scale } => decimal_readable(bits, precision, scale, s),
        Kind::Runs { short, values } => safe_text(values, s),
        Kind::BadRuns => false,
        _ => true,
    }
}

/// Whether a value can be read with a type, or an error be given: sized bytes are read from
/// strings, and decimals from texts and numbers that they can be read from. Null can be read
/// with every type.
pub open spec fn safe(t: JsonValue, v: JsonValue) -> bool
    decreases t, 0nat, 0nat,
{
    proof {
        parts_decrease(t);
    }
    match kind(t) {
        Kind::Leaf => true,
        Kind::Bytes(_) => v is String || v is Null,
        Kind::Decimal { bits, precision, scale } => match v {
            JsonValue::String(s) => decimal_readable(bits, precision, scale, s@),
            JsonValue::Number(n) => decimal_readable(bits, precision, scale, number_digits(n)),
            _ => true,
        },
        Kind::List(item) => match v {
            JsonValue::Array(items) => all_safe(item, items@),
            _ => true,
        },
        Kind::SizedList { item, size } => match v {
            JsonValue::Array(items) => all_safe(item, items@),
            _ => true,
        },
        Kind::Struct(fields) => match v {
            JsonValue::Object(members) => fields_safe(fields, members@),
            _ => true,
        },
        Kind::Entries { key, value } => match v {
            JsonValue::Object(members) => keys_safe(key, members@) && values_safe(
                value,
                members@,
            ),
            _ => true,
        },
        Kind::Runs { short, values } => safe(values, v),
        Kind::BadRuns => false,
    }
}

/// Whether each of the values can be read with a type.
pub open spec fn all_safe(t: JsonValue, items: Seq<JsonValue>) -> bool
    decreases t, 1nat, items.len(),
{
    items.len() == 0 || (all_safe(t, items.drop_last()) && safe(t, items.last()))
}

/// Whether each field can be read from the members of its name.
pub open spec fn fields_safe(fields: Seq<JsonValue>, members: Seq<(String, JsonValue)>) -> bool
    decreases fields, 0nat, 0nat,
{
    proof {
        if fields.len() > 0 {
            field_type_decreases(fields.last());
        }
    }
    fields.len() == 0 || (fields_safe(fields.drop_last(), members) && match (
        field_type(fields.last()),
        field_name(fields.last()),
    ) {
        (Some(t), Some(name)) => named_safe(t, name, members),
        _ => true,
    })
}

/// Whether each member of this name can be read with a type.
pub open spec fn named_safe(
    t: JsonValue,
    name: Seq<char>,
    members: Seq<(String, JsonValue)>,
) -> bool
    decreases t, 1nat, members.len(),
{
    members.len() == 0 || (named_safe(t, name, members.drop_last()) && (members.last().0@ == name
        ==> safe(t, members.last().1)))
}

/// Whether each name can be read with a type.
pub open spec fn keys_safe(t: JsonValue, members: Seq<(String, JsonValue)>) -> bool
    decreases members.len(),
{
    members.len() == 0 || (keys_safe(t, members.drop_last()) && safe_text(t, members.last().0@))
}

/// Whether the value of each member can be read with a type.
pub open spec fn values_safe(t: JsonValue, members: Seq<(String, JsonValue)>) -> bool
    decreases t, 1nat, members.len(),
{
    members.len() == 0 || (values_safe(t, members.drop_last()) && safe(t, members.last().1))
}

/// What is counted in the arrays that rows are read into.
#[derive(Clone, Copy, Debug, PartialEq, Eq, Structural)]
pub enum Count {
    /// The places of all arrays, and the bytes of sized bytes.
    Places,
    /// The places of runs with ends of 16 bits.
    ShortRuns,
}

/// A size, where it is not negative.
pub open spec fn size_of(n: int) -> nat {
    if n > 0 {
        n as nat
    } else {
        0
    }
}

/// What one place of an array of a type counts by itself.
pub open spec fn own_room(count: Count, k: Kind) -> nat {
    match count {
        Count::Places => match k {
            Kind::Bytes(width) => 1 + size_of(width),
            Kind::SizedList { item, size } => 1 + size_of(size),
            _ => 1,
        },
        Count::ShortRuns => match k {
            Kind::Runs { short, values } => if short {
                1
            } else {
                0
            },
            _ => 0,
        },
    }
}

/// What two arrays of one row count together. Short runs are counted by the array that has
/// the most of them, as each array has run ends of its own.
pub open spec fn joined(count: Count, a: nat, b: nat) -> nat {
    match count {
        Count::Places => a + b,
        Count::ShortRuns => if a > b {
            a
        } else {
            b
        },
    }
}

/// What a null counts in an array of a type, with the places that it takes up in the arrays
/// that the array is made of.
pub open spec fn null_room(count: Count, t: JsonValue) -> nat
    decreases t,
{
    proof {
        parts_decrease(t);
    }
    let parts = match kind(t) {
        Kind::SizedList { item, size } => size_of(size) * null_room(count, item),
        Kind::Struct(fields) => fields_null_room(count, fields),
        Kind::Runs { short, values } => null_room(count, values),
        _ => 0,
    };
    joined(count, own_room(count, kind(t)), parts)
}

/// What a null counts in these fields.
pub open spec fn fields_null_room(count: Count, fields: Seq<JsonValue>) -> nat
    decreases fields,
{
    proof {
        if fields.len() > 0 {
            field_type_decreases(fields.last());
        }
    }
    if fields.len() == 0 {
        0
    } else {
        let last = match field_type(fields.last()) {
            Some(t) => null_room(count, t),
            None => 0,
        };
        joined(count, fields_null_room(count, fields.drop_last()), last)
    }
}

/// What a value counts in an array of a type. One that does not fit counts as a null does.
pub open spec fn room(count: Count, t: JsonValue, v: JsonValue) -> nat
    decreases t, 0nat, 0nat,
{
    proof {
        parts_decrease(t);
    }
    let own = own_room(count, kind(t));
    match (kind(t), v) {
        (Kind::List(item), JsonValue::Array(items)) => joined(
            count,
            own,
            total_room(count, item, items@),
        ),
        (Kind::SizedList { item, size }, JsonValue::Array(items)) => joined(
            count,
            own,
            total_room(count, item, items@),
        ),
        (Kind::Struct(fields), JsonValue::Object(members)) => joined(
            count,
            own,
            fields_room(count, fields, members@),
        ),
        (Kind::Entries { key, value }, JsonValue::Object(members)) => joined(
            count,
            own,
            entries_room(count, key, value, members@),
        ),
        (Kind::Runs { short, values }, _) => joined(count, own, room(count, values, v)),
        _ => null_room(count, t),
    }
}

/// What the values count.
pub open spec fn total_room(count: Count, t: JsonValue, items: Seq<JsonValue>) -> nat
    decreases t, 1nat, items.len(),
{
    if items.len() == 0 {
        0
    } else {
        total_room(count, t, items.drop_last()) + room(count, t, items.last())
    }
}

/// Whether one of the members is of this name.
pub open spec fn has_member(members: Seq<(String, JsonValue)>, name: Seq<char>) -> bool {
    exists|i: int| 0 <= i < members.len() && (#[trigger] members[i]).0@ == name
}

/// What the members count in the fields of their names. A field without one is null.
pub open spec fn fields_room(
    count: Count,
    fields: Seq<JsonValue>,
    members: Seq<(String, JsonValue)>,
) -> nat
    decreases fields, 0nat, 0nat,
{
    proof {
        if fields.len() > 0 {
            field_type_decreases(fields.last());
        }
    }
    if fields.len() == 0 {
        0
    } else {
        let last = match (field_type(fields.last()), field_name(fields.last())) {
            (Some(t), Some(name)) => if has_member(members, name) {
                named_room(count, t, name, members)
            } else {
                null_room(count, t)
            },
            _ => 0,
        };
        joined(count, fields_room(count, fields.drop_last(), members), last)
    }
}

/// What the members of this name count.
pub open spec fn named_room(
    count: Count,
    t: JsonValue,
    name: Seq<char>,
    members: Seq<(String, JsonValue)>,
) -> nat
    decreases t, 1nat, members.len(),
{
    if members.len() == 0 {
        0
    } else {
        named_room(count, t, name, members.drop_last()) + if members.last().0@ == name {
            room(count, t, members.last().1)
        } else {
            0
        }
    }
}

/// What the entries of a map count.
pub open spec fn entries_room(
    count: Count,
    key: JsonValue,
    value: JsonValue,
    members: Seq<(String, JsonValue)>,
) -> nat
    decreases value, 1nat, members.len(),
{
    if members.len() == 0 {
        0
    } else {
        entries_room(count, key, value, members.drop_last()) + joined(
            count,
            null_room(count, key),
            room(count, value, members.last().1),
        )
    }
}

/// How many rows are read into one batch.
pub const BATCH_ROWS: usize = 1024;

/// Whether an array of a type holds its values one by one, whatever their texts add up to.
pub open spec fn is_roomy(t: DataType) -> bool {
    match t {
        DataType::Plain(p) => p != PlainType::Utf8,
        DataType::Other(hint) => {
            ||| name_of_type(*hint) == Some("Date32"@)
            ||| name_of_type(*hint) == Some("Date64"@)
            ||| name_of_type(*hint) == Some("Time32"@)
            ||| name_of_type(*hint) == Some("Time64"@)
            ||| name_of_type(*hint) == Some("Timestamp"@)
            ||| name_of_type(*hint) == Some("Duration"@)
            ||| name_of_type(*hint) == Some("Float16"@)
            ||| name_of_type(*hint) == Some("LargeBinary"@)
            ||| kind(*hint) is Decimal
        },
    }
}

/// Whether no value is an array or an object.
pub open spec fn all_scalar(items: Seq<JsonValue>) -> bool {
    forall|i: int|
        0 <= i < items.len() ==> !((#[trigger] items[i]) is Array || items[i] is Object)
}

/// Whether these values, in a text of `bytes` bytes, can be read as rows of this type, or an
/// error be given. What stands in a row is counted in 32 bits, and so are the offsets of many
/// arrays. Short run ends are put together from more than one batch, and must not overflow.
pub open spec fn readable(t: DataType, items: Seq<JsonValue>, bytes: nat) -> bool {
    &&& bytes <= i32::MAX || (is_roomy(t) && all_scalar(items))
    &&& match t {
        DataType::Plain(_) => true,
        DataType::Other(hint) => {
            &&& sound(*hint, false)
            &&& all_safe(*hint, items)
            &&& total_room(Count::Places, *hint, items) <= i32::MAX
            &&& items.len() > BATCH_ROWS ==> total_room(Count::ShortRuns, *hint, items) <= i16::MAX
        },
    }
}

/// Rows of a plain type can be read if their text is at most 2147483647 bytes long. A longer one
/// can be if no value is an array or an object and the type is not `Utf8`, and only then.
pub proof fn plain_rows_are_readable(p: PlainType, items: Seq<JsonValue>, bytes: nat)
    ensures
        bytes <= 2147483647 ==> readable(DataType::Plain(p), items, bytes),
        bytes > 2147483647 ==> (readable(DataType::Plain(p), items, bytes) <==> p
            != PlainType::Utf8 && forall|i: int|
            0 <= i < items.len() ==> !((#[trigger] items[i]) is Array || items[i] is Object)),
{
}

/// Values can be read with a type if and only if each of them can.
pub proof fn values_are_safe_one_by_one(t: JsonValue, items: Seq<JsonValue>)
    ensures
        all_safe(t, items) <==> forall|i: int| 0 <= i < items.len() ==> safe(t, #[trigger] items[i]),
    decreases items.len(),
{
    if items.len() > 0 {
        let before = items.drop_last();
        values_are_safe_one_by_one(t, before);
        if all_safe(t, items) {
            assert forall|i: int| 0 <= i < items.len() implies safe(t, #[trigger] items[i]) by {
                if i < before.len() {
                    assert(before[i] == items[i]);
                }
            }
        }
        if forall|i: int| 0 <= i < items.len() ==> safe(t, #[trigger] items[i]) {
            assert forall|i: int| 0 <= i < before.len() implies safe(t, #[trigger] before[i]) by {
                assert(before[i] == items[i]);
            }
            assert(safe(t, items[items.len() - 1]));
        }
    }
}

/// What values count is the sum of what each of their portions counts.
pub proof fn room_adds_up(count: Count, t: JsonValue, first: Seq<JsonValue>, second: Seq<JsonValue>)
    ensures
        total_room(count, t, first + second) == total_room(count, t, first) + total_room(
            count,
            t,
            second,
        ),
        second.len() == 1 ==> total_room(count, t, second) == room(count, t, second[0]),
    decreases second.len(),
{
    if second.len() == 0 {
        assert(first + second =~= first);
    } else {
        assert((first + second).drop_last() =~= first + second.drop_last());
        room_adds_up(count, t, first, second.drop_last());
        if second.len() == 1 {
            assert(second.drop_last() =~= Seq::<JsonValue>::empty());
            assert(total_room(count, t, Seq::<JsonValue>::empty()) == 0);
        }
    }
}

/// The fields of structures can be read with if and only if each of their types can, and in runs
/// if none of them hides its nulls.
pub proof fn fields_are_sound_one_by_one(fields: Seq<JsonValue>, in_runs: bool)
    ensures
        fields_sound(fields, in_runs) <==> forall|k: int|
            0 <= k < fields.len() ==> {
                &&& !(in_runs && hides_nulls(#[trigger] fields[k]))
                &&& field_type(fields[k]) matches Some(t) ==> sound(t, in_runs)
            },
    decreases fields.len(),
{
    if fields.len() > 0 {
        let before = fields.drop_last();
        fields_are_sound_one_by_one(before, in_runs);
        let n = fields.len() - 1;
        if field_type(fields[n]) is Some {
            assert(sound(field_type(fields[n])->Some_0, in_runs) == sound(
                field_type(fields.last())->Some_0,
                in_runs,
            ));
        }
        if fields_sound(fields, in_runs) {
            assert forall|k: int| 0 <= k < fields.len() implies {
                &&& !(in_runs && hides_nulls(#[trigger] fields[k]))
                &&& field_type(fields[k]) matches Some(t) ==> sound(t, in_runs)
            } by {
                if k < n {
                    assert(before[k] == fields[k]);
                }
            }
        } else {
            if fields_sound(before, in_runs) {
                assert((in_runs && hides_nulls(fields[n])) || (field_type(fields[n]) is Some
                    && !sound(field_type(fields[n])->Some_0, in_runs)));
            } else {
                let k = choose|k: int|
                    0 <= k < before.len() && !({
                        &&& !(in_runs && hides_nulls(#[trigger] before[k]))
                        &&& field_type(before[k]) matches Some(t) ==> sound(t, in_runs)
                    });
                assert(fields[k] == before[k]);
            }
        }
    }
}

/// A type that is described by a name alone can always be read with, and every value can be read
/// with it. A type of sized bytes or lists can be read with if its size is above zero, or zero
/// outside of runs; one of lists or sized lists if its items' can; runs if their ends can be run
/// ends and their values' can.
pub proof fn what_types_can_be_read_with(t: JsonValue, v: JsonValue, in_runs: bool)
    ensures
        t is String ==> sound(t, in_runs) && safe(t, v),
        kind(t) matches Kind::Bytes(width) ==> {
            &&& sound(t, in_runs) <==> width > 0 || (width == 0 && !in_runs)
            &&& safe(t, v) <==> v is String || v is Null
        },
        kind(t) matches Kind::List(item) ==> {
            &&& sound(t, in_runs) <==> sound(item, in_runs)
            &&& !(v is Array) ==> safe(t, v)
        },
        kind(t) matches Kind::SizedList { item, size } ==> {
            &&& sound(t, in_runs) <==> sound(item, in_runs) && (size > 0 || (size == 0 && !in_runs))
            &&& !(v is Array) ==> safe(t, v)
        },
        kind(t) matches Kind::Entries { key, value } ==> (sound(t, in_runs) <==> sound(
            key,
            in_runs,
        ) && sound(value, in_runs)),
        kind(t) matches Kind::Runs { short, values } ==> {
            &&& sound(t, in_runs) <==> sound(values, true)
            &&& safe(t, v) <==> safe(values, v)
        },
        kind(t) is BadRuns ==> !sound(t, in_runs) && !safe(t, v),
        kind(t) is Decimal ==> sound(t, in_runs) && (v is Null || v is Bool || v is Array
            || v is Object ==> safe(t, v)),
        kind(t) is Struct && !(v is Object) ==> safe(t, v),
{
}

/// Whether the type of each field is described by a name alone.
pub open spec fn all_named(fields: Seq<JsonValue>) -> bool {
    forall|k: int|
        0 <= k < fields.len() ==> (field_type(#[trigger] fields[k]) matches Some(t) && t is String)
}

/// Whether each of these values is an object of at most `most` members.
pub open spec fn small_objects(items: Seq<JsonValue>, most: nat) -> bool {
    forall|i: int|
        0 <= i < items.len() ==> ((#[trigger] items[i]) matches JsonValue::Object(members)
            && members@.len() <= most)
}

/// Objects can be read as structures whose fields are of types that are described by a name
/// alone, whatever their members are, as long as their text and their places are few enough to be
/// counted in 32 bits.
pub proof fn objects_are_readable_as_structures(
    t: JsonValue,
    fields: Seq<JsonValue>,
    items: Seq<JsonValue>,
    most: nat,
    bytes: nat,
)
    requires
        kind(t) == Kind::Struct(fields),
        all_named(fields),
        small_objects(items, most),
        most >= 1,
        bytes <= 2147483647,
        items.len() * (1 + fields.len() * most) <= 2147483647,
    ensures
        readable(DataType::Other(&t), items, bytes),
{
    named_fields_are_sound(fields);
    objects_are_safe_and_small(t, fields, items, most);
}

proof fn named_fields_are_sound(fields: Seq<JsonValue>)
    requires
        all_named(fields),
    ensures
        fields_sound(fields, false),
    decreases fields.len(),
{
    if fields.len() > 0 {
        let before = fields.drop_last();
        assert forall|k: int| 0 <= k < before.len() implies (field_type(
            #[trigger] before[k],
        ) matches Some(t) && t is String) by {
            assert(before[k] == fields[k]);
        }
        named_fields_are_sound(before);
        assert(field_type(fields[fields.len() - 1]) is Some);
        assert(sound(field_type(fields.last())->Some_0, false));
    }
}

proof fn named_types_are_safe_and_small(t: JsonValue, v: JsonValue)
    requires
        t is String,
    ensures
        safe(t, v),
        room(Count::Places, t, v) == 1,
        room(Count::ShortRuns, t, v) == 0,
        null_room(Count::Places, t) == 1,
        null_room(Count::ShortRuns, t) == 0,
{
    assert(kind(t) == Kind::Leaf);
    assert(null_room(Count::Places, t) == 1);
    assert(null_room(Count::ShortRuns, t) == 0);
}

proof fn named_members_are_safe_and_small(
    t: JsonValue,
    name: Seq<char>,
    members: Seq<(String, JsonValue)>,
)
    requires
        t is String,
    ensures
        named_safe(t, name, members),
        named_room(Count::Places, t, name, members) <= members.len(),
        named_room(Count::ShortRuns, t, name, members) == 0,
    decreases members.len(),
{
    if members.len() > 0 {
        named_members_are_safe_and_small(t, name, members.drop_last());
        named_types_are_safe_and_small(t, members.last().1);
    }
}

proof fn members_are_safe_and_small(
    fields: Seq<JsonValue>,
    members: Seq<(String, JsonValue)>,
    most: nat,
)
    requires
        all_named(fields),
        members.len() <= most,
        most >= 1,
    ensures
        fields_safe(fields, members),
        fields_room(Count::Places, fields, members) <= fields.len() * most,
        fields_room(Count::ShortRuns, fields, members) == 0,
    decreases fields.len(),
{
    if fields.len() > 0 {
        let before = fields.drop_last();
        assert forall|k: int| 0 <= k < before.len() implies (field_type(
            #[trigger] before[k],
        ) matches Some(t) && t is String) by {
            assert(before[k] == fields[k]);
        }
        members_are_safe_and_small(before, members, most);
        assert(field_type(fields[fields.len() - 1]) is Some);
        let t = field_type(fields.last())->Some_0;
        named_types_are_safe_and_small(t, JsonValue::Null);
        match field_name(fields.last()) {
            Some(name) => {
                named_members_are_safe_and_small(t, name, members);
            },
            None => {},
        }
        let n = before.len();
        assert(fields.len() * most == n * most + most) by (nonlinear_arith)
            requires
                fields.len() == n + 1,
        ;
    }
}

proof fn objects_are_safe_and_small(
    t: JsonValue,
    fields: Seq<JsonValue>,
    items: Seq<JsonValue>,
    most: nat,
)
    requires
        kind(t) == Kind::Struct(fields),
        all_named(fields),
        small_objects(items, most),
        most >= 1,
    ensures
        all_safe(t, items),
        total_room(Count::Places, t, items) <= items.len() * (1 + fields.len() * most),
        total_room(Count::ShortRuns, t, items) == 0,
    decreases items.len(),
{
    if items.len() > 0 {
        let before = items.drop_last();
        assert forall|i: int| 0 <= i < before.len() implies ((
        #[trigger] before[i]) matches JsonValue::Object(members) && members@.len() <= most) by {
            assert(before[i] == items[i]);
        }
        objects_are_safe_and_small(t, fields, before, most);
        assert(items[items.len() - 1] is Object);
        members_are_safe_and_small(fields, items.last()->Object_0@, most);
        assert(safe(t, items.last()));
        assert(room(Count::Places, t, items.last()) <= 1 + fields.len() * most);
        assert(room(Count::ShortRuns, t, items.last()) == 0);
        let n = before.len();
        let each = 1 + fields.len() * most;
        assert(items.len() * each == n * each + each) by (nonlinear_arith)
            requires
                items.len() == n + 1,
        ;
    }
}

/// Whether the nulls of a field that may not be null go unseen.
fn does_hide_nulls(f: &JsonValue) -> (r: bool)
    ensures
        r == hides_nulls(*f),
{
    !is_field_nullable(f) && match read_field_type(f) {
        Some(t) => is_unit(t, "Null") || match read_kind(t) {
            KindRef::Runs { .. } => true,
            _ => false,
        },
        None => false,
    }
}

/// Whether a type can be read with.
fn is_sound(t: &JsonValue, in_runs: bool) -> (r: bool)
    ensures
        r == sound(*t, in_runs),
    decreases t,
{
    proof {
        parts_decrease(*t);
    }
    match read_kind(t) {
        KindRef::Leaf => true,
        KindRef::Decimal { .. } => true,
        KindRef::Bytes(width) => width > 0 || (width == 0 && !in_runs),
        KindRef::List(item) => is_sound(item, in_runs),
        KindRef::SizedList { item, size } => (size > 0 || (size == 0 && !in_runs)) && is_sound(
            item,
            in_runs,
        ),
        KindRef::Struct(fields) => {
            let mut all = true;
            let mut i: usize = 0;
            while i < fields.len()
                invariant
                    i <= fields.len(),
                    decreases_to!(*t => fields@),
                    all == fields_sound(fields@.take(i as int), in_runs),
                decreases fields.len() - i,
            {
                proof {
                    field_type_decreases(fields@[i as int]);
                    assert(decreases_to!(fields@ => fields@[i as int]));
                    assert(fields@.take(i + 1).drop_last() =~= fields@.take(i as int));
                }
                let one = match read_field_type(&fields[i]) {
                    Some(part) => is_sound(part, in_runs),
                    None => true,
                };
                let hidden = in_runs && does_hide_nulls(&fields[i]);
                all = all && one && !hidden;
                i = i + 1;
            }
            assert(fields@.take(i as int) =~= fields@);
            all
        },
        KindRef::Entries { key, value } => is_sound(key, in_runs) && is_sound(value, in_runs),
        KindRef::Runs { short: _, values } => is_sound(values, true),
        KindRef::BadRuns => false,
    }
}

/// Whether a text can be read with a type.
fn is_safe_text(t: &JsonValue, s: &str) -> (r: bool)
    ensures
        r == safe_text(*t, s@),
    decreases t,
{
    proof {
        parts_decrease(*t);
    }
    match read_kind(t) {
        KindRef::Decimal { bits, precision, scale } => is_decimal_readable(
            bits,
            precision,
            scale,
            s,
        ),
        KindRef::Runs { short: _, values } => is_safe_text(values, s),
        KindRef::BadRuns => false,
        _ => true,
    }
}

/// Whether a value can be read with a type, or an error be given.
fn is_safe(t: &JsonValue, v: &JsonValue) -> (r: bool)
    ensures
        r == safe(*t, *v),
    decreases t, 0nat,
{
    proof {
        parts_decrease(*t);
    }
    match read_kind(t) {
        KindRef::Leaf => true,
        KindRef::Bytes(_) => match v {
            JsonValue::String(_) => true,
            JsonValue::Null => true,
            _ => false,
        },
        KindRef::Decimal { bits, precision, scale } => match v {
            JsonValue::String(s) => is_decimal_readable(bits, precision, scale, s.as_str()),
            JsonValue::Number(n) => {
                let text = number_text(n);
                is_decimal_readable(bits, precision, scale, text.as_str())
            },
            _ => true,
        },
        KindRef::List(item) => match v {
            JsonValue::Array(items) => are_safe(item, Rows::Many(items)),
            _ => true,
        },
        KindRef::SizedList { item, size: _ } => match v {
            JsonValue::Array(items) => are_safe(item, Rows::Many(items)),
            _ => true,
        },
        KindRef::Struct(fields) => match v {
            JsonValue::Object(members) => are_fields_safe(fields, members),
            _ => true,
        },
        KindRef::Entries { key, value } => match v {
            JsonValue::Object(members) => are_keys_safe(key, members) && are_values_safe(
                value,
                members,
            ),
            _ => true,
        },
        KindRef::Runs { short: _, values } => is_safe(values, v),
        KindRef::BadRuns => false,
    }
}

/// Whether each of the values can be read with a type.
fn are_safe(t: &JsonValue, rows: Rows) -> (r: bool)
    ensures
        r == all_safe(*t, rows.items()),
    decreases t, 1nat,
{
    let mut all = true;
    let mut i: usize = 0;
    while i < rows.count()
        invariant
            i <= rows.items().len(),
            all == all_safe(*t, rows.items().take(i as int)),
        decreases rows.items().len() - i,
    {
        assert(rows.items().take(i + 1).drop_last() =~= rows.items().take(i as int));
        all = all && is_safe(t, rows.at(i));
        i = i + 1;
    }
    assert(rows.items().take(i as int) =~= rows.items());
    all
}

/// Whether each field can be read from the members of its name.
fn are_fields_safe(fields: &Vec<JsonValue>, members: &Vec<(String, JsonValue)>) -> (r: bool)
    ensures
        r == fields_safe(fields@, members@),
    decreases fields@, 0nat,
{
    let mut all = true;
    let mut i: usize = 0;
    while i < fields.len()
        invariant
            i <= fields.len(),
            all == fields_safe(fields@.take(i as int), members@),
        decreases fields.len() - i,
    {
        proof {
            field_type_decreases(fields@[i as int]);
            assert(decreases_to!(fields@ => fields@[i as int]));
            assert(fields@.take(i + 1).drop_last() =~= fields@.take(i as int));
        }
        let one = match (read_field_type(&fields[i]), read_field_name(&fields[i])) {
            (Some(t), Some(name)) => are_named_safe(t, name, members),
            _ => true,
        };
        all = all && one;
        i = i + 1;
    }
    assert(fields@.take(i as int) =~= fields@);
    all
}

/// Whether each member of this name can be read with a type.
fn are_named_safe(t: &JsonValue, name: &String, members: &Vec<(String, JsonValue)>) -> (r: bool)
    ensures
        r == named_safe(*t, name@, members@),
    decreases t, 1nat,
{
    let mut all = true;
    let mut i: usize = 0;
    while i < members.len()
        invariant
            i <= members.len(),
            all == named_safe(*t, name@, members@.take(i as int)),
        decreases members.len() - i,
    {
        assert(members@.take(i + 1).drop_last() =~= members@.take(i as int));
        let one = members[i].0 != *name || is_safe(t, &members[i].1);
        all = all && one;
        i = i + 1;
    }
    assert(members@.take(i as int) =~= members@);
    all
}

/// Whether each name can be read with a type.
fn are_keys_safe(t: &JsonValue, members: &Vec<(String, JsonValue)>) -> (r: bool)
    ensures
        r == keys_safe(*t, members@),
{
    let mut all = true;
    let mut i: usize = 0;
    while i < members.len()
        invariant
            i <= members.len(),
            all == keys_safe(*t, members@.take(i as int)),
        decreases members.len() - i,
    {
        assert(members@.take(i + 1).drop_last() =~= members@.take(i as int));
        all = all && is_safe_text(t, members[i].0.as_str());
        i = i + 1;
    }
    assert(members@.take(i as int) =~= members@);
    all
}

/// Whether the value of each member can be read with a type.
fn are_values_safe(t: &JsonValue, members: &Vec<(String, JsonValue)>) -> (r: bool)
    ensures
        r == values_safe(*t, members@),
    decreases t, 1nat,
{
    let mut all = true;
    let mut i: usize = 0;
    while i < members.len()
        invariant
            i <= members.len(),
            all == values_safe(*t, members@.take(i as int)),
        decreases members.len() - i,
    {
        assert(members@.take(i + 1).drop_last() =~= members@.take(i as int));
        all = all && is_safe(t, &members[i].1);
        i = i + 1;
    }
    assert(members@.take(i as int) =~= members@);
    all
}

/// A number above every room that [`readable`] allows.
const ROOM_CAP: u64 = 0x8000_0000;

/// The smaller of a number and [`ROOM_CAP`].
spec fn capped(n: nat) -> nat {
    if n < ROOM_CAP {
        n
    } else {
        ROOM_CAP as nat
    }
}

/// A sum of at most [`ROOM_CAP`].
fn capped_sum(x: u64, y: u64, Ghost(a): Ghost<nat>, Ghost(b): Ghost<nat>) -> (r: u64)
    requires
        x == capped(a),
        y == capped(b),
    ensures
        r == capped(a + b),
{
    if x + y < ROOM_CAP {
        x + y
    } else {
        ROOM_CAP
    }
}

/// A product of at most [`ROOM_CAP`].
fn capped_product(x: u64, y: u64, Ghost(a): Ghost<nat>, Ghost(b): Ghost<nat>) -> (r: u64)
    requires
        x == capped(a),
        y == capped(b),
    ensures
        r == capped(a * b),
{
    proof {
        assert(x * y <= 0x4000_0000_0000_0000) by (nonlinear_arith)
            requires
                x <= 0x8000_0000,
                y <= 0x8000_0000,
        ;
        if a >= 1 && b >= 1 {
            assert(a * b >= a && a * b >= b && x * y >= x && x * y >= y) by (nonlinear_arith)
                requires
                    a >= 1,
                    b >= 1,
                    x >= 1,
                    y >= 1,
            ;
        } else {
            assert(a * b == 0 && x * y == 0) by (nonlinear_arith)
                requires
                    (a == 0 && x == 0) || (b == 0 && y == 0),
            ;
        }
    }
    let product: u64 = x * y;
    if product < ROOM_CAP {
        product
    } else {
        ROOM_CAP
    }
}

/// A size, where it is not negative, up to the cap.
fn capped_size(n: i128) -> (r: u64)
    ensures
        r == capped(size_of(n as int)),
{
    if n <= 0 {
        0
    } else if n < ROOM_CAP as i128 {
        n as u64
    } else {
        ROOM_CAP
    }
}

/// What two arrays of one row count together, up to the cap.
fn capped_joined(
    count: Count,
    x: u64,
    y: u64,
    Ghost(a): Ghost<nat>,
    Ghost(b): Ghost<nat>,
) -> (r: u64)
    requires
        x == capped(a),
        y == capped(b),
    ensures
        r == capped(joined(count, a, b)),
{
    match count {
        Count::Places => capped_sum(x, y, Ghost(a), Ghost(b)),
        Count::ShortRuns => if x > y {
            x
        } else {
            y
        },
    }
}

/// What one place of an array counts by itself, up to the cap.
fn capped_own_room(count: Count, k: &KindRef) -> (r: u64)
    ensures
        r == capped(own_room(count, k.view())),
{
    match count {
        Count::Places => match k {
            KindRef::Bytes(width) => capped_sum(
                1,
                capped_size(*width),
                Ghost(1),
                Ghost(size_of(*width as int)),
            ),
            KindRef::SizedList { item: _, size } => capped_sum(
                1,
                capped_size(*size),
                Ghost(1),
                Ghost(size_of(*size as int)),
            ),
            _ => 1,
        },
        Count::ShortRuns => match k {
            KindRef::Runs { short, values: _ } => if *short {
                1
            } else {
                0
            },
            _ => 0,
        },
    }
}

/// What a null counts in an array of a type, up to the cap.
fn capped_null_room(count: Count, t: &JsonValue) -> (r: u64)
    ensures
        r == capped(null_room(count, *t)),
    decreases t,
{
    proof {
        parts_decrease(*t);
    }
    let k = read_kind(t);
    let own: u64 = capped_own_room(count, &k);
    let mut more: u64 = 0;
    let ghost mut full: nat = 0;
    match k {
        KindRef::SizedList { item, size } => {
            let each: u64 = capped_null_room(count, item);
            let times: u64 = capped_size(size);
            more =
            capped_product(
                times,
                each,
                Ghost(size_of(size as int)),
                Ghost(null_room(count, *item)),
            );
            proof {
                full = size_of(size as int) * null_room(count, *item);
            }
        },
        KindRef::Struct(fields) => {
            let mut i: usize = 0;
            while i < fields.len()
                invariant
                    i <= fields.len(),
                    decreases_to!(*t => fields@),
                    full == fields_null_room(count, fields@.take(i as int)),
                    more == capped(full),
                decreases fields.len() - i,
            {
                proof {
                    field_type_decreases(fields@[i as int]);
                    assert(decreases_to!(fields@ => fields@[i as int]));
                    assert(fields@.take(i + 1).drop_last() =~= fields@.take(i as int));
                }
                match read_field_type(&fields[i]) {
                    Some(part) => {
                        let one: u64 = capped_null_room(count, part);
                        let ghost here = null_room(count, *part);
                        more = capped_joined(count, more, one, Ghost(full), Ghost(here));
                        proof {
                            full = joined(count, full, here);
                        }
                    },
                    None => {},
                }
                i = i + 1;
            }
            assert(fields@.take(i as int) =~= fields@);
        },
        KindRef::Runs { short: _, values } => {
            more = capped_null_room(count, values);
            proof {
                full = null_room(count, *values);
            }
        },
        _ => {},
    }
    capped_joined(count, own, more, Ghost(own_room(count, kind(*t))), Ghost(full))
}

/// What a value counts in an array of a type, up to the cap.
fn capped_room(count: Count, t: &JsonValue, v: &JsonValue) -> (r: u64)
    ensures
        r == capped(room(count, *t, *v)),
    decreases t, 0nat,
{
    proof {
        parts_decrease(*t);
    }
    let k = read_kind(t);
    let own: u64 = capped_own_room(count, &k);
    let ghost base = own_room(count, kind(*t));
    match (k, v) {
        (KindRef::List(item), JsonValue::Array(items)) => {
            let more: u64 = capped_total_room(count, item, Rows::Many(items));
            capped_joined(count, own, more, Ghost(base), Ghost(total_room(count, *item, items@)))
        },
        (KindRef::SizedList { item, size: _ }, JsonValue::Array(items)) => {
            let more: u64 = capped_total_room(count, item, Rows::Many(items));
            capped_joined(count, own, more, Ghost(base), Ghost(total_room(count, *item, items@)))
        },
        (KindRef::Struct(fields), JsonValue::Object(members)) => {
            let more: u64 = capped_fields_room(count, fields, members);
            let ghost parts = fields_room(count, fields@, members@);
            capped_joined(count, own, more, Ghost(base), Ghost(parts))
        },
        (KindRef::Entries { key, value }, JsonValue::Object(members)) => {
            let more: u64 = capped_entries_room(count, key, value, members);
            let ghost parts = entries_room(count, *key, *value, members@);
            capped_joined(count, own, more, Ghost(base), Ghost(parts))
        },
        (KindRef::Runs { short: _, values }, _) => {
            let more: u64 = capped_room(count, values, v);
            capped_joined(count, own, more, Ghost(base), Ghost(room(count, *values, *v)))
        },
        _ => capped_null_room(count, t),
    }
}

/// What the values count, up to the cap.
fn capped_total_room(count: Count, t: &JsonValue, rows: Rows) -> (r: u64)
    ensures
        r == capped(total_room(count, *t, rows.items())),
    decreases t, 1nat,
{
    let mut sum: u64 = 0;
    let mut i: usize = 0;
    while i < rows.count()
        invariant
            i <= rows.items().len(),
            sum == capped(total_room(count, *t, rows.items().take(i as int))),
        decreases rows.items().len() - i,
    {
        assert(rows.items().take(i + 1).drop_last() =~= rows.items().take(i as int));
        let one: u64 = capped_room(count, t, rows.at(i));
        let ghost before = total_room(count, *t, rows.items().take(i as int));
        let ghost here = room(count, *t, rows.items()[i as int]);
        sum = capped_sum(sum, one, Ghost(before), Ghost(here));
        i = i + 1;
    }
    assert(rows.items().take(i as int) =~= rows.items());
    sum
}

/// Whether one of the members is of this name.
fn is_among(members: &Vec<(String, JsonValue)>, name: &String) -> (r: bool)
    ensures
        r == has_member(members@, name@),
{
    let mut i: usize = 0;
    while i < members.len()
        invariant
            i <= members.len(),
            forall|j: int| 0 <= j < i ==> (#[trigger] members@[j]).0@ != name@,
        decreases members.len() - i,
    {
        if members[i].0 == *name {
            assert(members@[i as int].0@ == name@);
            return true;
        }
        i = i + 1;
    }
    false
}

/// What the members count in the fields of their names, up to the cap.
fn capped_fields_room(
    count: Count,
    fields: &Vec<JsonValue>,
    members: &Vec<(String, JsonValue)>,
) -> (r: u64)
    ensures
        r == capped(fields_room(count, fields@, members@)),
    decreases fields@, 0nat,
{
    let mut sum: u64 = 0;
    let mut i: usize = 0;
    while i < fields.len()
        invariant
            i <= fields.len(),
            sum == capped(fields_room(count, fields@.take(i as int), members@)),
        decreases fields.len() - i,
    {
        proof {
            field_type_decreases(fields@[i as int]);
            assert(decreases_to!(fields@ => fields@[i as int]));
            assert(fields@.take(i + 1).drop_last() =~= fields@.take(i as int));
        }
        match (read_field_type(&fields[i]), read_field_name(&fields[i])) {
            (Some(t), Some(name)) => {
                let ghost before = fields_room(count, fields@.take(i as int), members@);
                if is_among(members, name) {
                    let one: u64 = capped_named_room(count, t, name, members);
                    let ghost here = named_room(count, *t, name@, members@);
                    sum = capped_joined(count, sum, one, Ghost(before), Ghost(here));
                } else {
                    let one: u64 = capped_null_room(count, t);
                    let ghost here = null_room(count, *t);
                    sum = capped_joined(count, sum, one, Ghost(before), Ghost(here));
                }
            },
            _ => {},
        }
        i = i + 1;
    }
    assert(fields@.take(i as int) =~= fields@);
    sum
}

/// What the members of this name count, up to the cap.
fn capped_named_room(
    count: Count,
    t: &JsonValue,
    name: &String,
    members: &Vec<(String, JsonValue)>,
) -> (r: u64)
    ensures
        r == capped(named_room(count, *t, name@, members@)),
    decreases t, 1nat,
{
    let mut sum: u64 = 0;
    let mut i: usize = 0;
    while i < members.len()
        invariant
            i <= members.len(),
            sum == capped(named_room(count, *t, name@, members@.take(i as int))),
        decreases members.len() - i,
    {
        assert(members@.take(i + 1).drop_last() =~= members@.take(i as int));
        if members[i].0 == *name {
            let one: u64 = capped_room(count, t, &members[i].1);
            let ghost before = named_room(count, *t, name@, members@.take(i as int));
            let ghost here = room(count, *t, members@[i as int].1);
            sum = capped_sum(sum, one, Ghost(before), Ghost(here));
        }
        i = i + 1;
    }
    assert(members@.take(i as int) =~= members@);
    sum
}

/// What the entries of a map count, up to the cap.
fn capped_entries_room(
    count: Count,
    key: &JsonValue,
    value: &JsonValue,
    members: &Vec<(String, JsonValue)>,
) -> (r: u64)
    ensures
        r == capped(entries_room(count, *key, *value, members@)),
    decreases value, 1nat,
{
    let each: u64 = capped_null_room(count, key);
    let mut sum: u64 = 0;
    let mut i: usize = 0;
    while i < members.len()
        invariant
            i <= members.len(),
            each == capped(null_room(count, *key)),
            sum == capped(entries_room(count, *key, *value, members@.take(i as int))),
        decreases members.len() - i,
    {
        assert(members@.take(i + 1).drop_last() =~= members@.take(i as int));
        let one: u64 = capped_room(count, value, &members[i].1);
        let ghost before = entries_room(count, *key, *value, members@.take(i as int));
        let ghost here = room(count, *value, members@[i as int].1);
        let ghost of_key = null_room(count, *key);
        let both: u64 = capped_joined(count, each, one, Ghost(of_key), Ghost(here));
        sum = capped_sum(sum, both, Ghost(before), Ghost(joined(count, of_key, here)));
        i = i + 1;
    }
    assert(members@.take(i as int) =~= members@);
    sum
}

/// The values that rows are made of.
#[derive(Clone, Copy, Debug)]
pub enum Rows<'a> {
    Many(&'a Vec<JsonValue>),
    One(&'a JsonValue),
}

impl<'a> Rows<'a> {
    /// The values, in order.
    pub open spec fn items(self) -> Seq<JsonValue> {
        match self {
            Rows::Many(items) => items@,
            Rows::One(v) => seq![*v],
        }
    }

    /// How many values there are.
    fn count(&self) -> (r: usize)
        ensures
            r == self.items().len(),
    {
        match self {
            Rows::Many(items) => items.len(),
            Rows::One(_) => 1,
        }
    }

    /// One of the values.
    fn at(&self, i: usize) -> (r: &'a JsonValue)
        requires
            i < self.items().len(),
        ensures
            *r == self.items()[i as int],
    {
        match self {
            Rows::Many(items) => &items[i],
            Rows::One(v) => v,
        }
    }
}

/// Whether an array of a type holds its values one by one.
fn has_room(t: &DataType) -> (r: bool)
    ensures
        r == is_roomy(*t),
{
    match t {
        DataType::Plain(p) => *p != PlainType::Utf8,
        DataType::Other(hint) => {
            let dates = is_named(hint, "Date32") || is_named(hint, "Date64");
            let times = is_named(hint, "Time32") || is_named(hint, "Time64");
            let spans = is_named(hint, "Timestamp") || is_named(hint, "Duration");
            let others = is_named(hint, "Float16") || is_named(hint, "LargeBinary");
            dates || times || spans || others || match read_kind(hint) {
                KindRef::Decimal { .. } => true,
                _ => false,
            }
        },
    }
}

/// Whether no value is an array or an object.
fn are_scalar(rows: Rows) -> (r: bool)
    ensures
        r == all_scalar(rows.items()),
{
    let mut i: usize = 0;
    while i < rows.count()
        invariant
            i <= rows.items().len(),
            forall|j: int|
                0 <= j < i ==> !((#[trigger] rows.items()[j]) is Array
                    || rows.items()[j] is Object),
        decreases rows.items().len() - i,
    {
        let scalar = match rows.at(i) {
            JsonValue::Array(_) | JsonValue::Object(_) => false,
            _ => true,
        };
        if !scalar {
            assert(rows.items()[i as int] is Array || rows.items()[i as int] is Object);
            return false;
        }
        i = i + 1;
    }
    true
}

/// Whether values, in a text of `bytes` bytes, can be read as rows of a type, or an error be
/// given.
pub(crate) fn is_readable(t: &DataType, rows: Rows, bytes: usize) -> (r: bool)
    ensures
        r == readable(*t, rows.items(), bytes as nat),
{
    if bytes > i32::MAX as usize && !(has_room(t) && are_scalar(rows)) {
        return false;
    }
    match t {
        DataType::Plain(_) => true,
        DataType::Other(hint) => {
            is_sound(hint, false) && are_safe(hint, rows) && capped_total_room(
                Count::Places,
                hint,
                rows,
            ) <= i32::MAX as u64 && (rows.count() <= BATCH_ROWS || capped_total_room(
                Count::ShortRuns,
                hint,
                rows,
            ) <= i16::MAX as u64)
        },
    }
}

} // verus!
