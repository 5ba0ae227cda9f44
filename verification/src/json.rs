//! JSON values and their compact text.

use crate::numerals::{signed_value, unsigned_value};
use crate::text::{
    decimal_digits, decimal_text, digits_are_unbroken, integers_are_read_back, line_adds_no_break,
    line_breaks, natural_digits, natural_text, naturals_are_read_back, unbroken,
};
use arrow::array::Float64Array;
use arrow::buffer::Buffer;
use vstd::prelude::*;
use vstd::string::*;

verus! {

/// Whether the IEEE-754 double with these bits is finite: its exponent is not all ones.
pub open spec fn finite_bits(bits: u64) -> bool {
    (bits / 0x0010_0000_0000_0000) % 0x800 != 0x7ff
}

/// A double is finite if and only if not all of the eleven bits of its exponent are set,
/// whatever its sign and its fraction are.
pub proof fn finite_doubles_have_an_exponent(bits: u64)
    ensures
        finite_bits(bits) <==> bits & 0x7ff0_0000_0000_0000 != 0x7ff0_0000_0000_0000,
{
    assert((bits / 0x0010_0000_0000_0000) % 0x800 != 0x7ff <==> bits & 0x7ff0_0000_0000_0000
        != 0x7ff0_0000_0000_0000) by (bit_vector);
}

/// A finite IEEE-754 double, held by its bits.
#[derive(Clone, Copy, Debug)]
pub struct FiniteDouble {
    bits: u64,
}

impl FiniteDouble {
    #[verifier::type_invariant]
    spec fn holds_finite_bits(self) -> bool {
        finite_bits(self.bits)
    }

    /// The bits of the double.
    pub closed spec fn spec_bits(self) -> u64 {
        self.bits
    }

    /// The double with these bits, or `None` where it is infinite or not a number.
    pub fn from_bits(bits: u64) -> (r: Option<FiniteDouble>)
        ensures
            r is Some <==> finite_bits(bits),
            r matches Some(d) ==> d.spec_bits() == bits,
    {
        if (bits / 0x0010_0000_0000_0000) % 0x800 != 0x7ff {
            Some(FiniteDouble { bits })
        } else {
            None
        }
    }

    /// The bits of the double.
    pub fn bits(&self) -> (r: u64)
        ensures
            r == self.spec_bits(),
            finite_bits(r),
    {
        proof {
            use_type_invariant(self);
        }
        self.bits
    }
}

/// A JSON number: an integer of 64 bits, or else a finite double.
#[derive(Clone, Copy, Debug)]
pub enum Number {
    PosInt(u64),
    NegInt(i64),
    Float(FiniteDouble),
}

impl Number {
    /// The value, where the number is an integer.
    pub open spec fn integer(self) -> Option<int> {
        match self {
            Number::PosInt(u) => Some(u as int),
            Number::NegInt(i) => Some(i as int),
            Number::Float(_) => None,
        }
    }

    /// Whether the number is held as a double.
    pub fn is_f64(&self) -> (r: bool)
        ensures
            r == (self is Float),
            !r <==> self is PosInt || self is NegInt,
    {
        match self {
            Number::Float(_) => true,
            _ => false,
        }
    }

    /// The number as an `i64`, where it is an integer in that range.
    pub fn as_i64(&self) -> (r: Option<i64>)
        ensures
            r is Some <==> (self.integer() matches Some(n) && i64::MIN <= n <= i64::MAX),
            r matches Some(i) ==> self.integer() == Some(i as int),
            *self matches Number::PosInt(u) ==> (if u < 0x8000_0000_0000_0000 {
                r == Some(u as i64)
            } else {
                r is None
            }),
            *self matches Number::NegInt(k) ==> r == Some(k),
            *self is Float ==> r is None,
    {
        match self {
            Number::PosInt(u) => if *u <= i64::MAX as u64 {
                Some(*u as i64)
            } else {
                None
            },
            Number::NegInt(i) => Some(*i),
            Number::Float(_) => None,
        }
    }

    /// The number as a `u64`, where it is an integer in that range.
    pub fn as_u64(&self) -> (r: Option<u64>)
        ensures
            r is Some <==> (self.integer() matches Some(n) && 0 <= n <= u64::MAX),
            r matches Some(u) ==> self.integer() == Some(u as int),
            *self matches Number::PosInt(u) ==> r == Some(u),
            *self matches Number::NegInt(k) ==> (if k >= 0 {
                r == Some(k as u64)
            } else {
                r is None
            }),
            *self is Float ==> r is None,
    {
        match self {
            Number::PosInt(u) => Some(*u),
            Number::NegInt(i) => if *i >= 0 {
                Some(*i as u64)
            } else {
                None
            },
            Number::Float(_) => None,
        }
    }
}

/// A JSON value. An object keeps its members in order.
#[derive(Debug)]
pub enum JsonValue {
    Null,
    Bool(bool),
    Number(Number),
    String(String),
    Array(Vec<JsonValue>),
    Object(Vec<(String, JsonValue)>),
}

/// What a [`JsonValue`] holds.
pub ghost enum JsonView {
    Null,
    Bool(bool),
    Number(Number),
    String(Seq<char>),
    Array(Seq<JsonView>),
    Object(Seq<(Seq<char>, JsonView)>),
}

/// What a value holds.
pub open spec fn json_view(v: JsonValue) -> JsonView
    decreases v,
{
    match v {
        JsonValue::Null => JsonView::Null,
        JsonValue::Bool(b) => JsonView::Bool(b),
        JsonValue::Number(n) => JsonView::Number(n),
        JsonValue::String(s) => JsonView::String(s@),
        JsonValue::Array(items) => JsonView::Array(items_view(items@)),
        JsonValue::Object(members) => JsonView::Object(members_view(members@)),
    }
}

/// What each value holds.
pub open spec fn items_view(items: Seq<JsonValue>) -> Seq<JsonView>
    decreases items,
{
    if items.len() == 0 {
        seq![]
    } else {
        items_view(items.drop_last()).push(json_view(items.last()))
    }
}

/// What each member holds.
pub open spec fn members_view(members: Seq<(String, JsonValue)>) -> Seq<(Seq<char>, JsonView)>
    decreases members,
{
    if members.len() == 0 {
        seq![]
    } else {
        members_view(members.drop_last()).push(
            (members.last().0@, json_view(members.last().1)),
        )
    }
}

/// Values that hold the same are of one kind, and so are what they are made of: the same
/// boolean, number or text, or as many values or members, pair by pair.
pub proof fn values_are_told_apart(a: JsonValue, b: JsonValue)
    requires
        json_view(a) == json_view(b),
    ensures
        a is Null <==> b is Null,
        a matches JsonValue::Bool(x) ==> b == JsonValue::Bool(x),
        a matches JsonValue::Number(x) ==> b == JsonValue::Number(x),
        a matches JsonValue::String(x) ==> (b matches JsonValue::String(y) && x@ == y@),
        a matches JsonValue::Array(x) ==> (b matches JsonValue::Array(y) && x@.len() == y@.len()
            && forall|i: int|
            0 <= i < x@.len() ==> json_view(#[trigger] x@[i]) == json_view(y@[i])),
        a matches JsonValue::Object(x) ==> (b matches JsonValue::Object(y) && x@.len() == y@.len()
            && forall|i: int|
            0 <= i < x@.len() ==> (#[trigger] x@[i]).0@ == y@[i].0@ && json_view(x@[i].1)
                == json_view(y@[i].1)),
{
    match (a, b) {
        (JsonValue::Array(x), JsonValue::Array(y)) => {
            items_are_viewed_in_order(x@);
            items_are_viewed_in_order(y@);
            assert forall|i: int| 0 <= i < x@.len() implies json_view(#[trigger] x@[i])
                == json_view(y@[i]) by {
                assert(items_view(x@)[i] == items_view(y@)[i]);
            }
        },
        (JsonValue::Object(x), JsonValue::Object(y)) => {
            members_are_viewed_in_order(x@);
            members_are_viewed_in_order(y@);
            assert forall|i: int| 0 <= i < x@.len() implies (#[trigger] x@[i]).0@ == y@[i].0@
                && json_view(x@[i].1) == json_view(y@[i].1) by {
                assert(members_view(x@)[i] == members_view(y@)[i]);
            }
        },
        _ => {},
    }
}

proof fn items_are_viewed_in_order(items: Seq<JsonValue>)
    ensures
        items_view(items).len() == items.len(),
        forall|i: int|
            0 <= i < items.len() ==> #[trigger] items_view(items)[i] == json_view(items[i]),
    decreases items,
{
    if items.len() > 0 {
        items_are_viewed_in_order(items.drop_last());
    }
}

proof fn members_are_viewed_in_order(members: Seq<(String, JsonValue)>)
    ensures
        members_view(members).len() == members.len(),
        forall|i: int|
            0 <= i < members.len() ==> #[trigger] members_view(members)[i] == (
                members[i].0@,
                json_view(members[i].1),
            ),
    decreases members,
{
    if members.len() > 0 {
        members_are_viewed_in_order(members.drop_last());
    }
}

/// The lower-case hexadecimal digit `d`.
pub open spec fn hex_digit(d: int) -> char {
    if d < 10 {
        (('0' as int + d) as u8) as char
    } else {
        (('a' as int + d - 10) as u8) as char
    }
}

/// How one character stands inside a JSON string.
pub open spec fn escaped_char(c: char) -> Seq<char> {
    if c == '"' {
        seq!['\\', '"']
    } else if c == '\\' {
        seq!['\\', '\\']
    } else if c as int == 8 {
        seq!['\\', 'b']
    } else if c as int == 9 {
        seq!['\\', 't']
    } else if c as int == 10 {
        seq!['\\', 'n']
    } else if c as int == 12 {
        seq!['\\', 'f']
    } else if c as int == 13 {
        seq!['\\', 'r']
    } else if (c as int) < 32 {
        seq!['\\', 'u', '0', '0', hex_digit(c as int / 16), hex_digit(c as int % 16)]
    } else {
        seq![c]
    }
}

/// How text stands inside a JSON string, character by character.
pub open spec fn escaped(s: Seq<char>) -> Seq<char>
    decreases s.len(),
{
    if s.len() == 0 {
        seq![]
    } else {
        escaped(s.drop_last()) + escaped_char(s.last())
    }
}

/// The JSON string that holds `s`.
pub open spec fn quoted(s: Seq<char>) -> Seq<char> {
    seq!['"'] + escaped(s) + seq!['"']
}

/// The text that `serde_json` writes for the finite double with these bits.
pub uninterp spec fn double_digits(bits: u64) -> Seq<char>;

/// The JSON text of a number.
pub open spec fn number_digits(n: Number) -> Seq<char> {
    match n {
        Number::PosInt(u) => natural_digits(u as nat),
        Number::NegInt(i) => decimal_digits(i as int),
        Number::Float(d) => double_digits(d.spec_bits()),
    }
}

/// The compact JSON text of a value.
pub open spec fn json_text(v: JsonValue) -> Seq<char>
    decreases v,
{
    match v {
        JsonValue::Null => "null"@,
        JsonValue::Bool(b) => if b {
            "true"@
        } else {
            "false"@
        },
        JsonValue::Number(n) => number_digits(n),
        JsonValue::String(s) => quoted(s@),
        JsonValue::Array(items) => seq!['['] + items_text(items@) + seq![']'],
        JsonValue::Object(members) => seq!['{'] + members_text(members@) + seq!['}'],
    }
}

/// The texts of the values, with a comma between each two.
pub open spec fn items_text(items: Seq<JsonValue>) -> Seq<char>
    decreases items,
{
    if items.len() == 0 {
        seq![]
    } else if items.len() == 1 {
        json_text(items[0])
    } else {
        items_text(items.drop_last()) + seq![','] + json_text(items.last())
    }
}

/// The members `"key":value`, with a comma between each two.
pub open spec fn members_text(members: Seq<(String, JsonValue)>) -> Seq<char>
    decreases members,
{
    if members.len() == 0 {
        seq![]
    } else if members.len() == 1 {
        quoted(members[0].0@) + seq![':'] + json_text(members[0].1)
    } else {
        members_text(members.drop_last()) + seq![','] + (quoted(members.last().0@) + seq![':']
            + json_text(members.last().1))
    }
}

/// The object with one member, `field`, that holds `v`.
pub open spec fn row_text(field: Seq<char>, v: JsonValue) -> Seq<char> {
    seq!['{'] + (quoted(field) + seq![':'] + json_text(v)) + seq!['}']
}

/// One object of [`row_text`] for each value, on a line of its own.
pub open spec fn rows_text(field: Seq<char>, items: Seq<JsonValue>) -> Seq<char>
    decreases items.len(),
{
    if items.len() == 0 {
        seq![]
    } else if items.len() == 1 {
        row_text(field, items[0])
    } else {
        rows_text(field, items.drop_last()) + seq!['\n'] + row_text(field, items.last())
    }
}

/// The value of the first member of this name.
pub open spec fn member(members: Seq<(String, JsonValue)>, key: Seq<char>) -> Option<JsonValue>
    decreases members.len(),
{
    if members.len() == 0 {
        None
    } else if members[0].0@ == key {
        Some(members[0].1)
    } else {
        member(members.drop_first(), key)
    }
}

/// The value that an object has under this name. Other values have none.
pub open spec fn field_of(v: JsonValue, key: Seq<char>) -> Option<JsonValue> {
    match v {
        JsonValue::Object(members) => member(members@, key),
        _ => None,
    }
}

/// The member of a name is the first that has it, and there is none where no member has it.
pub proof fn first_member_counts(members: Seq<(String, JsonValue)>, key: Seq<char>)
    ensures
        match member(members, key) {
            Some(v) => exists|i: int|
                0 <= i < members.len() && (#[trigger] members[i]).0@ == key && members[i].1 == v
                    && forall|j: int| 0 <= j < i ==> (#[trigger] members[j]).0@ != key,
            None => forall|i: int| 0 <= i < members.len() ==> (#[trigger] members[i]).0@ != key,
        },
    decreases members.len(),
{
    if members.len() > 0 && members[0].0@ != key {
        let rest = members.drop_first();
        first_member_counts(rest, key);
        match member(rest, key) {
            Some(v) => {
                let i = choose|i: int|
                    0 <= i < rest.len() && (#[trigger] rest[i]).0@ == key && rest[i].1 == v
                        && forall|j: int| 0 <= j < i ==> (#[trigger] rest[j]).0@ != key;
                assert(members[i + 1] == rest[i]);
                assert forall|j: int| 0 <= j < i + 1 implies (#[trigger] members[j]).0@ != key by {
                    if j > 0 {
                        assert(rest[j - 1] == members[j]);
                    }
                }
            },
            None => {
                assert forall|i: int| 0 <= i < members.len() implies (
                #[trigger] members[i]).0@ != key by {
                    if i > 0 {
                        assert(rest[i - 1] == members[i]);
                    }
                }
            },
        }
    }
}

/// Only objects have values under names, and those are their members'.
pub proof fn only_objects_have_members(v: JsonValue, key: Seq<char>)
    ensures
        field_of(v, key) is Some ==> v is Object,
        v matches JsonValue::Object(members) ==> field_of(v, key) == member(members@, key),
{
}

/// The texts of values stand in order, with a comma between: those of one part, a comma and
/// those of the other, where neither is empty.
pub proof fn items_are_separated_by_commas(first: Seq<JsonValue>, second: Seq<JsonValue>)
    requires
        first.len() > 0,
        second.len() > 0,
    ensures
        items_text(first + second) == items_text(first) + seq![','] + items_text(second),
        items_text(seq![first[0]]) == json_text(first[0]),
    decreases second.len(),
{
    assert((first + second).drop_last() =~= first + second.drop_last());
    if second.len() == 1 {
        assert(first + second.drop_last() =~= first);
    } else {
        items_are_separated_by_commas(first, second.drop_last());
        assert(items_text(first + second) =~= items_text(first) + seq![','] + items_text(second));
    }
}

/// The texts of members stand in order, with a comma between; that of one is its name as a
/// string, a colon and the text of its value.
pub proof fn members_are_separated_by_commas(
    first: Seq<(String, JsonValue)>,
    second: Seq<(String, JsonValue)>,
)
    requires
        first.len() > 0,
        second.len() > 0,
    ensures
        members_text(first + second) == members_text(first) + seq![','] + members_text(second),
        members_text(seq![first[0]]) == quoted(first[0].0@) + seq![':'] + json_text(first[0].1),
    decreases second.len(),
{
    assert((first + second).drop_last() =~= first + second.drop_last());
    if second.len() == 1 {
        assert(first + second.drop_last() =~= first);
        assert(members_text(first + second) =~= members_text(first) + seq![','] + members_text(
            second,
        ));
    } else {
        members_are_separated_by_commas(first, second.drop_last());
        assert(members_text(first + second) =~= members_text(first) + seq![','] + members_text(
            second,
        ));
    }
}

/// The rows of values stand in order, with a line break between; that of one is an object of the
/// one member `field`.
pub proof fn rows_are_separated_by_line_breaks(
    field: Seq<char>,
    first: Seq<JsonValue>,
    second: Seq<JsonValue>,
)
    requires
        first.len() > 0,
        second.len() > 0,
    ensures
        rows_text(field, first + second) == rows_text(field, first) + seq!['\n'] + rows_text(
            field,
            second,
        ),
        rows_text(field, seq![first[0]]) == seq!['{'] + quoted(field) + seq![':'] + json_text(
            first[0],
        ) + seq!['}'],
    decreases second.len(),
{
    assert(rows_text(field, seq![first[0]]) =~= seq!['{'] + quoted(field) + seq![':'] + json_text(
        first[0],
    ) + seq!['}']);
    assert((first + second).drop_last() =~= first + second.drop_last());
    if second.len() == 1 {
        assert(first + second.drop_last() =~= first);
    } else {
        rows_are_separated_by_line_breaks(field, first, second.drop_last());
        assert(rows_text(field, first + second) =~= rows_text(field, first) + seq!['\n']
            + rows_text(field, second));
    }
}

/// The kind of a value shows in its text: `null`, `true` and `false` are written out, numbers by
/// their digits, strings between quotes, arrays between brackets and objects between braces.
pub proof fn texts_show_the_kind(v: JsonValue)
    ensures
        v is Null ==> json_text(v) == "null"@,
        v == JsonValue::Bool(true) ==> json_text(v) == "true"@,
        v == JsonValue::Bool(false) ==> json_text(v) == "false"@,
        v matches JsonValue::Number(Number::PosInt(u)) ==> unsigned_value(json_text(v)) == Some(
            u as int,
        ),
        v matches JsonValue::Number(Number::NegInt(k)) ==> signed_value(json_text(v)) == Some(
            k as int,
        ),
        v matches JsonValue::Number(Number::Float(d)) ==> json_text(v) == double_digits(
            d.spec_bits(),
        ),
        v matches JsonValue::String(s) ==> json_text(v) == quoted(s@),
        v matches JsonValue::Array(items) ==> json_text(v).first() == '[' && json_text(v).last()
            == ']' && json_text(v).subrange(1, json_text(v).len() - 1) == items_text(items@),
        v matches JsonValue::Object(members) ==> json_text(v).first() == '{' && json_text(v).last()
            == '}' && json_text(v).subrange(1, json_text(v).len() - 1) == members_text(members@),
{
    match v {
        JsonValue::Number(Number::PosInt(u)) => {
            naturals_are_read_back(u as nat);
        },
        JsonValue::Number(Number::NegInt(k)) => {
            integers_are_read_back(k as int);
        },
        JsonValue::Array(items) => {
            assert(json_text(v).subrange(1, json_text(v).len() - 1) =~= items_text(items@));
        },
        JsonValue::Object(members) => {
            assert(json_text(v).subrange(1, json_text(v).len() - 1) =~= members_text(members@));
        },
        _ => {},
    }
}

/// Calls `serde_json::to_string` on a string: the text between quotes, with quotes,
/// backslashes and control characters below space escaped, and nothing else changed.
#[verifier::external_body]
fn string_text(s: &str) -> (r: String)
    ensures
        r@ == quoted(s@),
{
    serde_json::to_string(s).expect("a string always has a JSON text")
}

/// Calls `serde_json::to_string` on the double with these bits. What digits it writes is
/// given a name; no line break is among them.
#[verifier::external_body]
fn double_text(bits: u64) -> (r: String)
    requires
        finite_bits(bits),
    ensures
        r@ == double_digits(bits),
        unbroken(r@),
{
    let held = Float64Array::new(Buffer::from_vec(vec![bits]).into(), None);
    serde_json::to_string(&held.value(0)).expect("a double always has a JSON text")
}

proof fn escapes_are_unbroken(c: char)
    ensures
        unbroken(escaped_char(c)),
{
    if (c as int) < 32 {
        assert(0 <= c as int / 16 < 16 && 0 <= c as int % 16 < 16);
        assert(hex_digit(c as int / 16) as int >= 48);
        assert(hex_digit(c as int % 16) as int >= 48);
    }
}

proof fn strings_are_unbroken(s: Seq<char>)
    ensures
        unbroken(escaped(s)),
        unbroken(quoted(s)),
    decreases s.len(),
{
    if s.len() > 0 {
        strings_are_unbroken(s.drop_last());
        escapes_are_unbroken(s.last());
    }
}

/// The JSON text of a number.
pub fn number_text(n: &Number) -> (r: String)
    ensures
        r@ == number_digits(*n),
        unbroken(r@),
        *n matches Number::PosInt(u) ==> unsigned_value(r@) == Some(u as int),
        *n matches Number::NegInt(k) ==> signed_value(r@) == Some(k as int),
{
    match n {
        Number::PosInt(u) => {
            proof {
                digits_are_unbroken(*u as nat);
                naturals_are_read_back(*u as nat);
            }
            natural_text(*u)
        },
        Number::NegInt(i) => {
            proof {
                digits_are_unbroken(*i as nat);
                digits_are_unbroken((-*i) as nat);
                integers_are_read_back(*i as int);
            }
            decimal_text(*i)
        },
        Number::Float(d) => double_text(d.bits()),
    }
}

impl JsonValue {
    /// The compact JSON text of the value, which stands on one line.
    pub fn to_text(&self) -> (r: String)
        ensures
            r@ == json_text(*self),
            unbroken(r@),
            *self is Null ==> r@ == "null"@,
            *self == JsonValue::Bool(true) ==> r@ == "true"@,
            *self == JsonValue::Bool(false) ==> r@ == "false"@,
            *self matches JsonValue::Number(Number::PosInt(u)) ==> unsigned_value(r@) == Some(
                u as int,
            ),
            *self matches JsonValue::Number(Number::NegInt(k)) ==> signed_value(r@) == Some(
                k as int,
            ),
        decreases self,
    {
        proof {
            texts_show_the_kind(*self);
            reveal_strlit("null");
            reveal_strlit("true");
            reveal_strlit("false");
        }
        match self {
            JsonValue::Null => "null".to_owned(),
            JsonValue::Bool(b) => if *b {
                "true".to_owned()
            } else {
                "false".to_owned()
            },
            JsonValue::Number(n) => number_text(n),
            JsonValue::String(s) => {
                proof {
                    strings_are_unbroken(s@);
                }
                string_text(s.as_str())
            },
            JsonValue::Array(items) => {
                proof {
                    reveal_strlit("[");
                    reveal_strlit(",");
                    reveal_strlit("]");
                }
                let mut text = "[".to_owned();
                let mut i: usize = 0;
                while i < items.len()
                    invariant
                        i <= items.len(),
                        ","@ =~= seq![','],
                        *self == JsonValue::Array(*items),
                        text@ =~= seq!['['] + items_text(items@.take(i as int)),
                        unbroken(text@),
                    decreases items.len() - i,
                {
                    if i > 0 {
                        text.append(",");
                    }
                    assert(decreases_to!(*self => self->Array_0@));
                    assert(decreases_to!(items@ => items@[i as int]));
                    text.append(items[i].to_text().as_str());
                    assert(items@.take(i + 1).drop_last() =~= items@.take(i as int));
                    i = i + 1;
                }
                assert(items@.take(i as int) =~= items@);
                text.append("]");
                text
            },
            JsonValue::Object(members) => {
                proof {
                    reveal_strlit("{");
                    reveal_strlit(",");
                    reveal_strlit(":");
                    reveal_strlit("}");
                }
                let mut text = "{".to_owned();
                let mut i: usize = 0;
                while i < members.len()
                    invariant
                        i <= members.len(),
                        ","@ =~= seq![','],
                        ":"@ =~= seq![':'],
                        *self == JsonValue::Object(*members),
                        text@ =~= seq!['{'] + members_text(members@.take(i as int)),
                        unbroken(text@),
                    decreases members.len() - i,
                {
                    if i > 0 {
                        text.append(",");
                    }
                    assert(decreases_to!(*self => self->Object_0@));
                    assert(decreases_to!(members@ => members@[i as int]));
                    assert(decreases_to!(members@[i as int] => members@[i as int].1));
                    proof {
                        strings_are_unbroken(members@[i as int].0@);
                    }
                    text.append(string_text(members[i].0.as_str()).as_str());
                    text.append(":");
                    text.append(members[i].1.to_text().as_str());
                    assert(members@.take(i + 1).drop_last() =~= members@.take(i as int));
                    i = i + 1;
                }
                assert(members@.take(i as int) =~= members@);
                text.append("}");
                text
            },
        }
    }
}

/// Values that hold the same have the same text.
pub proof fn text_follows_from_contents(a: JsonValue, b: JsonValue)
    requires
        json_view(a) == json_view(b),
    ensures
        json_text(a) == json_text(b),
    decreases a,
{
    match (a, b) {
        (JsonValue::Array(x), JsonValue::Array(y)) => {
            assert(decreases_to!(a => a->Array_0@));
            items_text_follows(x@, y@);
        },
        (JsonValue::Object(x), JsonValue::Object(y)) => {
            assert(decreases_to!(a => a->Object_0@));
            members_text_follows(x@, y@);
        },
        _ => {},
    }
}

proof fn items_text_follows(x: Seq<JsonValue>, y: Seq<JsonValue>)
    requires
        items_view(x) == items_view(y),
    ensures
        x.len() == y.len(),
        items_text(x) == items_text(y),
    decreases x,
{
    if x.len() > 0 {
        assert(items_view(x).len() > 0);
        assert(y.len() > 0);
        assert(items_view(x).drop_last() =~= items_view(x.drop_last()));
        assert(items_view(y).drop_last() =~= items_view(y.drop_last()));
        assert(items_view(x).last() == json_view(x.last()));
        assert(items_view(y).last() == json_view(y.last()));
        items_text_follows(x.drop_last(), y.drop_last());
        text_follows_from_contents(x.last(), y.last());
    } else if y.len() > 0 {
        assert(items_view(y).len() > 0);
    }
}

proof fn members_text_follows(x: Seq<(String, JsonValue)>, y: Seq<(String, JsonValue)>)
    requires
        members_view(x) == members_view(y),
    ensures
        x.len() == y.len(),
        members_text(x) == members_text(y),
    decreases x,
{
    if x.len() > 0 {
        assert(members_view(x).len() > 0);
        assert(y.len() > 0);
        assert(members_view(x).drop_last() =~= members_view(x.drop_last()));
        assert(members_view(y).drop_last() =~= members_view(y.drop_last()));
        assert(members_view(x).last() == (x.last().0@, json_view(x.last().1)));
        assert(members_view(y).last() == (y.last().0@, json_view(y.last().1)));
        members_text_follows(x.drop_last(), y.drop_last());
        assert(decreases_to!(x => x[x.len() - 1]));
        assert(decreases_to!(x[x.len() - 1] => x[x.len() - 1].1));
        text_follows_from_contents(x.last().1, y.last().1);
    } else if y.len() > 0 {
        assert(members_view(y).len() > 0);
    }
}

impl Clone for JsonValue {
    fn clone(&self) -> (r: Self)
        ensures
            json_view(r) == json_view(*self),
        decreases self,
    {
        match self {
            JsonValue::Null => JsonValue::Null,
            JsonValue::Bool(b) => JsonValue::Bool(*b),
            JsonValue::Number(n) => JsonValue::Number(*n),
            JsonValue::String(s) => JsonValue::String(s.clone()),
            JsonValue::Array(items) => {
                let mut copies: Vec<JsonValue> = Vec::new();
                let mut i: usize = 0;
                assert(copies@ =~= seq![] && items@.take(0) =~= seq![]);
                while i < items.len()
                    invariant
                        i <= items.len(),
                        copies@.len() == i,
                        *self == JsonValue::Array(*items),
                        items_view(copies@) == items_view(items@.take(i as int)),
                    decreases items.len() - i,
                {
                    assert(decreases_to!(*self => self->Array_0@));
                    assert(decreases_to!(items@ => items@[i as int]));
                    let ghost before = copies@;
                    copies.push(items[i].clone());
                    assert(copies@.drop_last() =~= before);
                    assert(items@.take(i + 1).drop_last() =~= items@.take(i as int));
                    i = i + 1;
                }
                assert(items@.take(i as int) =~= items@);
                JsonValue::Array(copies)
            },
            JsonValue::Object(members) => {
                let mut copies: Vec<(String, JsonValue)> = Vec::new();
                let mut i: usize = 0;
                assert(copies@ =~= seq![] && members@.take(0) =~= seq![]);
                while i < members.len()
                    invariant
                        i <= members.len(),
                        copies@.len() == i,
                        *self == JsonValue::Object(*members),
                        members_view(copies@) == members_view(members@.take(i as int)),
                    decreases members.len() - i,
                {
                    assert(decreases_to!(*self => self->Object_0@));
                    assert(decreases_to!(members@ => members@[i as int]));
                    assert(decreases_to!(members@[i as int] => members@[i as int].1));
                    let ghost before = copies@;
                    copies.push((members[i].0.clone(), members[i].1.clone()));
                    assert(copies@.drop_last() =~= before);
                    assert(members@.take(i + 1).drop_last() =~= members@.take(i as int));
                    i = i + 1;
                }
                assert(members@.take(i as int) =~= members@);
                JsonValue::Object(copies)
            },
        }
    }
}

/// The value of the first member of this name.
pub fn find_member<'a>(members: &'a Vec<(String, JsonValue)>, key: &str) -> (r: Option<
    &'a JsonValue,
>)
    ensures
        match r {
            Some(v) => member(members@, key@) == Some(*v),
            None => member(members@, key@) is None,
        },
        match r {
            Some(v) => exists|i: int|
                0 <= i < members@.len() && (#[trigger] members@[i]).0@ == key@ && members@[i].1
                    == *v && forall|j: int| 0 <= j < i ==> (#[trigger] members@[j]).0@ != key@,
            None => forall|i: int| 0 <= i < members@.len() ==> (#[trigger] members@[i]).0@ != key@,
        },
{
    let wanted = key.to_owned();
    let mut i: usize = 0;
    assert(members@.skip(0) =~= members@);
    while i < members.len()
        invariant
            i <= members.len(),
            wanted@ == key@,
            member(members@, key@) == member(members@.skip(i as int), key@),
            forall|j: int| 0 <= j < i ==> (#[trigger] members@[j]).0@ != key@,
        decreases members.len() - i,
    {
        if members[i].0 == wanted {
            return Some(&members[i].1);
        }
        assert(members@.skip(i as int).drop_first() =~= members@.skip(i + 1));
        i = i + 1;
    }
    None
}

/// The rows of [`rows_text`]: as many lines as there are values.
pub fn to_rows(field: &str, items: &Vec<JsonValue>) -> (r: String)
    ensures
        r@ == rows_text(field@, items@),
        items@.len() > 0 ==> line_breaks(r@) + 1 == items@.len(),
{
    let mut text = String::new();
    let mut i: usize = 0;
    assert(text@ =~= rows_text(field@, items@.take(0)));
    while i < items.len()
        invariant
            i <= items.len(),
            text@ == rows_text(field@, items@.take(i as int)),
            i > 0 ==> line_breaks(text@) + 1 == i,
            i == 0 ==> text@.len() == 0,
        decreases items.len() - i,
    {
        let row = to_row(field, &items[i]);
        let ghost before = text@;
        assert(items@.take(i + 1).drop_last() =~= items@.take(i as int));
        if i > 0 {
            proof {
                reveal_strlit("\n");
            }
            assert("\n"@ =~= seq!['\n']);
            text.append("\n");
            assert(text@.drop_last() =~= before);
        }
        proof {
            line_adds_no_break(text@, row@);
        }
        text.append(row.as_str());
        assert(text@ =~= rows_text(field@, items@.take(i + 1)));
        i = i + 1;
    }
    assert(items@.take(i as int) =~= items@);
    text
}

/// The row of [`row_text`], which stands on one line.
pub fn to_row(field: &str, v: &JsonValue) -> (r: String)
    ensures
        r@ == row_text(field@, *v),
        unbroken(r@),
{
    proof {
        reveal_strlit("{");
        reveal_strlit(":");
        reveal_strlit("}");
    }
    proof {
        strings_are_unbroken(field@);
    }
    let mut text = "{".to_owned();
    text.append(string_text(field).as_str());
    text.append(":");
    text.append(v.to_text().as_str());
    text.append("}");
    assert(text@ =~= row_text(field@, *v));
    text
}

impl JsonValue {
    /// The value that an object has under this name. Other values have none.
    pub fn get(&self, key: &str) -> (r: Option<&JsonValue>)
        ensures
            match r {
                Some(v) => field_of(*self, key@) == Some(*v),
                None => field_of(*self, key@) is None,
            },
            match r {
                Some(v) => *self matches JsonValue::Object(members) && exists|i: int|
                    0 <= i < members@.len() && (#[trigger] members@[i]).0@ == key@ && members@[i].1
                        == *v && forall|j: int| 0 <= j < i ==> (#[trigger] members@[j]).0@ != key@,
                None => *self matches JsonValue::Object(members) ==> forall|i: int|
                    0 <= i < members@.len() ==> (#[trigger] members@[i]).0@ != key@,
            },
    {
        match self {
            JsonValue::Object(members) => find_member(members, key),
            _ => None,
        }
    }
}

} // verus!
