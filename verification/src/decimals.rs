//! Which texts a decimal can be read from. The Arrow parser counts digits in small integers,
//! and panics where they overflow or where it would divide by zero.

use vstd::prelude::*;
use vstd::string::*;

verus! {

/// Whether a character is a decimal digit.
pub open spec fn is_digit(c: char) -> bool {
    '0' <= c <= '9'
}

/// Where the number in a text begins, behind its sign.
pub open spec fn after_sign(s: Seq<char>) -> int {
    if s.len() > 0 && (s[0] == '+' || s[0] == '-') {
        1
    } else {
        0
    }
}

/// The first position from `i` on that holds no digit.
pub open spec fn digits_end(s: Seq<char>, i: int) -> int
    decreases s.len() - i,
{
    if 0 <= i < s.len() && is_digit(s[i]) {
        digits_end(s, i + 1)
    } else {
        i
    }
}

/// The first position from `i` on that does not hold the digit zero.
pub open spec fn zeros_end(s: Seq<char>, i: int) -> int
    decreases s.len() - i,
{
    if 0 <= i < s.len() && s[i] == '0' {
        zeros_end(s, i + 1)
    } else {
        i
    }
}

/// The exponent of a number, as far as it can be read.
pub ghost struct Exponent {
    /// The value, without its sign.
    pub value: int,
    /// Whether the sign is a minus.
    pub negative: bool,
    /// Whether there is nothing but digits and one sign.
    pub whole: bool,
}

/// The exponent that goes on at `i` after what is in `read`.
pub open spec fn exponent_from(s: Seq<char>, i: int, signed: bool, read: Exponent) -> Exponent
    decreases s.len() - i,
{
    if i < 0 || i >= s.len() {
        read
    } else if is_digit(s[i]) {
        exponent_from(
            s,
            i + 1,
            signed,
            Exponent { value: 10 * read.value + (s[i] as int - '0' as int), ..read },
        )
    } else if (s[i] == '-' || s[i] == '+') && !signed {
        exponent_from(s, i + 1, true, Exponent { negative: s[i] == '-', ..read })
    } else {
        Exponent { whole: false, ..read }
    }
}

/// The exponent that begins at `i`.
pub open spec fn exponent_at(s: Seq<char>, i: int) -> Exponent {
    exponent_from(s, i, false, Exponent { value: 0, negative: false, whole: true })
}

/// Whether a number is one of 16 bits.
pub open spec fn fits16(n: int) -> bool {
    i16::MIN <= n <= i16::MAX
}

/// Whether the digits of a decimal can be shifted: to the right they are divided by a power of
/// ten, which must not be cut to zero, unless they are too many after that.
pub open spec fn shift_readable(bits: int, precision: int, digits: int, shift: int) -> bool {
    shift < 0 && 0 <= digits + shift <= precision ==> -shift < bits
}

/// Whether a decimal with an exponent can be read, where `whole` and `fraction` are how many
/// digits stand before and behind the point: what the parser counts stays within 16 bits.
pub open spec fn exponent_readable(
    bits: int,
    precision: int,
    scale: int,
    whole: int,
    fraction: int,
    e: Exponent,
) -> bool {
    let digits = whole + fraction;
    &&& fits16(digits)
    &&& fits16(e.value)
    &&& e.whole && e.negative ==> {
        let places = fraction + e.value;
        &&& fits16(digits + scale)
        &&& fits16(e.value - (digits + scale))
        &&& e.value <= digits + scale ==> fits16(places) && fits16(scale - places)
            && shift_readable(
            bits,
            precision,
            if places > digits {
                places
            } else {
                digits
            },
            scale - places,
        )
    }
    &&& e.whole && !e.negative ==> {
        let shift = scale - (fraction - e.value);
        &&& fits16(shift)
        &&& fits16(digits + shift)
        &&& shift_readable(bits, precision, digits, shift)
    }
}

/// Whether a decimal can be read from this text, or an error be given. A text that ends in
/// neither a digit nor a point is refused at once. Else what the parser counts stays within
/// the integers that it counts in: the digits before the point, but for leading zeros, and
/// those behind it, up to the scale.
pub open spec fn decimal_readable(bits: int, precision: int, scale: int, s: Seq<char>) -> bool {
    let start = after_sign(s);
    let point = digits_end(s, start);
    let whole = point - zeros_end(s, start);
    let end = if point < s.len() && s[point] == '.' {
        digits_end(s, point + 1)
    } else {
        point
    };
    let fraction = if end > point {
        end - point - 1
    } else {
        0
    };
    let counted = if 0 <= scale < fraction {
        scale
    } else {
        fraction
    };
    s.len() > 0 && (is_digit(s.last()) || (s.last() == '.' && s.len() > 1)) ==> {
        &&& whole + counted <= u8::MAX
        &&& counted <= i8::MAX
        &&& end >= s.len() && counted < scale ==> whole + scale <= u8::MAX
        &&& end < s.len() && (s[end] == 'e' || s[end] == 'E') ==> exponent_readable(
            bits,
            precision,
            scale,
            whole,
            fraction,
            exponent_at(s, end + 1),
        )
    }
}

/// The digits from a position on end at the first character that is none, or with the text; the
/// zeros among them end no later, at the first that is another digit.
pub proof fn digits_end_at_the_first_other(s: Seq<char>, i: int)
    requires
        0 <= i <= s.len(),
    ensures
        i <= zeros_end(s, i) <= digits_end(s, i) <= s.len(),
        forall|j: int| i <= j < digits_end(s, i) ==> '0' <= #[trigger] s[j] <= '9',
        digits_end(s, i) < s.len() ==> !('0' <= s[digits_end(s, i)] <= '9'),
        forall|j: int| i <= j < zeros_end(s, i) ==> #[trigger] s[j] == '0',
        zeros_end(s, i) < s.len() ==> s[zeros_end(s, i)] != '0',
    decreases s.len() - i,
{
    if i < s.len() && is_digit(s[i]) {
        digits_end_at_the_first_other(s, i + 1);
    }
}

/// A decimal of a scale from 0 to 127 can be read from every text of digits, with or without a
/// sign in front, that has no more than 255 of them with those behind the point added, whatever
/// the bits and the precision are.
pub proof fn short_integers_are_readable(bits: int, precision: int, scale: int, s: Seq<char>)
    requires
        0 <= scale <= 127,
        s.len() + scale <= 255,
        forall|j: int|
            0 <= j < s.len() ==> '0' <= #[trigger] s[j] <= '9' || (j == 0 && (s[j] == '+' || s[j]
                == '-')),
    ensures
        decimal_readable(bits, precision, scale, s),
{
    digits_end_at_the_first_other(s, after_sign(s));
    let point = digits_end(s, after_sign(s));
    if point < s.len() {
        assert('0' <= s[point] <= '9');
    }
}

/// A text that ends in neither a digit nor a point, and a lone point, are refused at once, and so
/// nothing is counted.
pub proof fn other_texts_are_refused_at_once(bits: int, precision: int, scale: int, s: Seq<char>)
    requires
        s.len() == 0 || s == seq!['.'] || !('0' <= s.last() <= '9' || s.last() == '.'),
    ensures
        decimal_readable(bits, precision, scale, s),
{
}

/// The first position from `from` on that holds no digit.
fn find_digits_end(chars: &Vec<char>, from: usize) -> (r: usize)
    requires
        from <= chars@.len(),
    ensures
        r == digits_end(chars@, from as int),
        from <= r <= chars@.len(),
{
    let mut i: usize = from;
    while i < chars.len() && '0' <= chars[i] && chars[i] <= '9'
        invariant
            from <= i <= chars@.len(),
            digits_end(chars@, from as int) == digits_end(chars@, i as int),
        decreases chars.len() - i,
    {
        i = i + 1;
    }
    i
}

/// The first position from `from` on that does not hold the digit zero.
fn find_zeros_end(chars: &Vec<char>, from: usize) -> (r: usize)
    requires
        from <= chars@.len(),
    ensures
        r == zeros_end(chars@, from as int),
        from <= r <= digits_end(chars@, from as int),
{
    let mut i: usize = from;
    while i < chars.len() && chars[i] == '0'
        invariant
            from <= i <= chars@.len(),
            zeros_end(chars@, from as int) == zeros_end(chars@, i as int),
            digits_end(chars@, from as int) == digits_end(chars@, i as int),
        decreases chars.len() - i,
    {
        i = i + 1;
    }
    proof {
        digits_end_is_behind(chars@, i as int);
    }
    i
}

proof fn digits_end_is_behind(s: Seq<char>, i: int)
    ensures
        digits_end(s, i) >= i,
    decreases s.len() - i,
{
    if 0 <= i < s.len() && is_digit(s[i]) {
        digits_end_is_behind(s, i + 1);
    }
}

/// What is read of an exponent does not get smaller.
proof fn exponent_grows(s: Seq<char>, i: int, signed: bool, read: Exponent)
    requires
        read.value >= 0,
    ensures
        exponent_from(s, i, signed, read).value >= read.value,
    decreases s.len() - i,
{
    if 0 <= i < s.len() {
        if is_digit(s[i]) {
            exponent_grows(
                s,
                i + 1,
                signed,
                Exponent { value: 10 * read.value + (s[i] as int - '0' as int), ..read },
            );
        } else if (s[i] == '-' || s[i] == '+') && !signed {
            exponent_grows(s, i + 1, true, Exponent { negative: s[i] == '-', ..read });
        }
    }
}

/// The exponent that begins at a position: its value, whether its sign is a minus, and whether
/// there is nothing else. `None` if the value has more than 16 bits.
fn read_exponent(chars: &Vec<char>, from: usize) -> (r: Option<(i64, bool, bool)>)
    requires
        from <= chars@.len(),
    ensures
        match r {
            Some((value, negative, whole)) => exponent_at(chars@, from as int) == (Exponent {
                value: value as int,
                negative,
                whole,
            }) && 0 <= value <= i16::MAX,
            None => exponent_at(chars@, from as int).value > i16::MAX,
        },
{
    let mut value: i64 = 0;
    let mut negative = false;
    let mut signed = false;
    let mut i: usize = from;
    while i < chars.len()
        invariant
            from <= i <= chars@.len(),
            0 <= value <= i16::MAX,
            exponent_at(chars@, from as int) == exponent_from(
                chars@,
                i as int,
                signed,
                (Exponent { value: value as int, negative, whole: true }),
            ),
        decreases chars.len() - i,
    {
        let c = chars[i];
        if '0' <= c && c <= '9' {
            value = 10 * value + (c as i64 - '0' as i64);
            if value > i16::MAX as i64 {
                proof {
                    exponent_grows(
                        chars@,
                        i + 1,
                        signed,
                        Exponent { value: value as int, negative, whole: true },
                    );
                }
                return None;
            }
        } else if (c == '-' || c == '+') && !signed {
            negative = c == '-';
            signed = true;
        } else {
            return Some((value, negative, false));
        }
        i = i + 1;
    }
    Some((value, negative, true))
}

/// Whether a number is one of 16 bits.
fn is_16_bit(n: i128) -> (r: bool)
    ensures
        r == fits16(n as int),
{
    i16::MIN as i128 <= n && n <= i16::MAX as i128
}

/// Whether the digits of a decimal can be shifted.
fn is_shift_readable(bits: i128, precision: i128, digits: i128, shift: i128) -> (r: bool)
    requires
        -0x1_0000 <= digits <= 0x1_0000,
        -0x1_0000 <= shift <= 0x1_0000,
    ensures
        r == shift_readable(bits as int, precision as int, digits as int, shift as int),
{
    !(shift < 0 && 0 <= digits + shift && digits + shift <= precision) || -shift < bits
}

/// Whether a decimal with an exponent that begins at a position can be read.
fn is_exponent_readable(
    bits: i128,
    precision: i128,
    scale: i128,
    whole: usize,
    fraction: usize,
    chars: &Vec<char>,
    from: usize,
) -> (r: bool)
    requires
        i64::MIN <= scale <= u64::MAX,
        from <= chars@.len(),
        whole + fraction <= usize::MAX,
    ensures
        r == exponent_readable(
            bits as int,
            precision as int,
            scale as int,
            whole as int,
            fraction as int,
            exponent_at(chars@, from as int),
        ),
{
    let digits: i128 = (whole + fraction) as i128;
    let fraction: i128 = fraction as i128;
    if !is_16_bit(digits) {
        return false;
    }
    match read_exponent(chars, from) {
        None => false,
        Some((value, negative, complete)) => {
            let value: i128 = value as i128;
            if !complete {
                true
            } else if negative {
                let places: i128 = fraction + value;
                is_16_bit(digits + scale) && is_16_bit(value - (digits + scale)) && (value > digits
                    + scale || (is_16_bit(places) && is_16_bit(scale - places)
                    && is_shift_readable(
                    bits,
                    precision,
                    if places > digits {
                        places
                    } else {
                        digits
                    },
                    scale - places,
                )))
            } else {
                let shift: i128 = scale - (fraction - value);
                is_16_bit(shift) && is_16_bit(digits + shift) && is_shift_readable(
                    bits,
                    precision,
                    digits,
                    shift,
                )
            }
        },
    }
}

/// Whether a decimal can be read from a text, or an error be given.
pub(crate) fn is_decimal_readable(bits: i128, precision: i128, scale: i128, s: &str) -> (r: bool)
    requires
        i64::MIN <= scale <= u64::MAX,
    ensures
        r == decimal_readable(bits as int, precision as int, scale as int, s@),
{
    let mut chars: Vec<char> = Vec::new();
    for c in it: s.chars()
        invariant
            it.seq() == s@,
            chars@ == s@.take(it.index()),
    {
        chars.push(c);
        assert(s@.take(it.index() + 1) =~= s@.take(it.index()).push(c));
    }
    assert(s@.take(s@.len() as int) =~= s@);
    let n: usize = chars.len();
    if n == 0 {
        return true;
    }
    let last = chars[n - 1];
    if !(('0' <= last && last <= '9') || (last == '.' && n > 1)) {
        return true;
    }
    let start: usize = if chars[0] == '+' || chars[0] == '-' {
        1
    } else {
        0
    };
    let point: usize = find_digits_end(&chars, start);
    let whole: usize = point - find_zeros_end(&chars, start);
    let end: usize = if point < n && chars[point] == '.' {
        find_digits_end(&chars, point + 1)
    } else {
        point
    };
    let fraction: usize = if end > point {
        end - point - 1
    } else {
        0
    };
    let counted: i128 = if 0 <= scale && scale < fraction as i128 {
        scale
    } else {
        fraction as i128
    };
    if whole as i128 + counted > u8::MAX as i128 || counted > i8::MAX as i128 {
        return false;
    }
    if end >= n {
        counted >= scale || whole as i128 + scale <= u8::MAX as i128
    } else if chars[end] == 'e' || chars[end] == 'E' {
        is_exponent_readable(bits, precision, scale, whole, fraction, &chars, end + 1)
    } else {
        true
    }
}

} // verus!
