//! Decimal text of integers.

use crate::numerals::{all_digits, digits_value, signed_value, unsigned_value};
use vstd::prelude::*;
use vstd::string::*;

verus! {

/// The decimal digit `d`, as one character.
pub open spec fn digit_char(d: nat) -> char {
    (('0' as nat + d) as u8) as char
}

/// The decimal digits of `n`, most significant first, with no leading zero.
pub open spec fn natural_digits(n: nat) -> Seq<char>
    decreases n,
{
    if n < 10 {
        seq![digit_char(n)]
    } else {
        natural_digits(n / 10).push(digit_char(n % 10))
    }
}

/// The decimal text of `n`: its digits, after a minus sign where it is negative.
pub open spec fn decimal_digits(n: int) -> Seq<char> {
    if n < 0 {
        seq!['-'] + natural_digits((-n) as nat)
    } else {
        natural_digits(n as nat)
    }
}

/// The decimal text of a natural number is read back as that number: it is made of digits, has
/// no zero in front but for zero itself, and stands for the number.
pub proof fn naturals_are_read_back(n: nat)
    ensures
        all_digits(natural_digits(n)),
        digits_value(natural_digits(n)) == n,
        unsigned_value(natural_digits(n)) == Some(n as int),
        natural_digits(n)[0] == '0' <==> n == 0,
    decreases n,
{
    let d = (n % 10) as nat;
    assert(digit_char(d) as nat == '0' as nat + d);
    assert('0' <= digit_char(d) <= '9');
    assert(digits_value(Seq::<char>::empty()) == 0);
    if n < 10 {
        let text = natural_digits(n);
        assert(text.drop_last() =~= Seq::<char>::empty());
        assert(text.last() == digit_char(d));
    } else {
        naturals_are_read_back(n / 10);
        let text = natural_digits(n);
        let front = natural_digits(n / 10);
        assert(text.drop_last() =~= front);
        assert(text.last() == digit_char(d));
        assert(text[0] == front[0]);
        assert forall|i: int| 0 <= i < text.len() implies '0' <= #[trigger] text[i] <= '9' by {
            if i < front.len() {
                assert(text[i] == front[i]);
            }
        }
    }
}

/// The decimal text of an integer is read back as that integer, and starts with a minus sign if
/// and only if it is negative.
pub proof fn integers_are_read_back(n: int)
    ensures
        signed_value(decimal_digits(n)) == Some(n),
        decimal_digits(n)[0] == '-' <==> n < 0,
{
    let magnitude = if n < 0 {
        (-n) as nat
    } else {
        n as nat
    };
    naturals_are_read_back(magnitude);
    assert((seq!['-'] + natural_digits(magnitude)).drop_first() =~= natural_digits(magnitude));
}

fn digit_str(d: u64) -> (r: &'static str)
    requires
        d < 10,
    ensures
        r@ == seq![digit_char(d as nat)],
{
    proof {
        reveal_strlit("0");
        reveal_strlit("1");
        reveal_strlit("2");
        reveal_strlit("3");
        reveal_strlit("4");
        reveal_strlit("5");
        reveal_strlit("6");
        reveal_strlit("7");
        reveal_strlit("8");
        reveal_strlit("9");
    }
    if d == 0 {
        "0"
    } else if d == 1 {
        "1"
    } else if d == 2 {
        "2"
    } else if d == 3 {
        "3"
    } else if d == 4 {
        "4"
    } else if d == 5 {
        "5"
    } else if d == 6 {
        "6"
    } else if d == 7 {
        "7"
    } else if d == 8 {
        "8"
    } else {
        "9"
    }
}

/// The decimal text of an unsigned integer.
pub fn natural_text(n: u64) -> (r: String)
    ensures
        r@ == natural_digits(n as nat),
        all_digits(r@),
        digits_value(r@) == n,
    decreases n,
{
    proof {
        naturals_are_read_back(n as nat);
    }
    if n < 10 {
        digit_str(n).to_owned()
    } else {
        let mut text = natural_text(n / 10);
        text.append(digit_str(n % 10));
        text
    }
}

/// The decimal text of a signed integer.
pub fn decimal_text(n: i64) -> (r: String)
    ensures
        r@ == decimal_digits(n as int),
        signed_value(r@) == Some(n as int),
{
    proof {
        integers_are_read_back(n as int);
    }
    if n < 0 {
        proof {
            reveal_strlit("-");
        }
        let magnitude: u64 = (-(n as i128)) as u64;
        let mut text = "-".to_owned();
        text.append(natural_text(magnitude).as_str());
        text
    } else {
        natural_text(n as u64)
    }
}

/// Whether a text stands on one line.
pub open spec fn unbroken(s: Seq<char>) -> bool {
    forall|i: int| 0 <= i < s.len() ==> #[trigger] s[i] != '\n'
}

/// How many line breaks a text holds.
pub open spec fn line_breaks(s: Seq<char>) -> nat
    decreases s.len(),
{
    if s.len() == 0 {
        0
    } else if s.last() == '\n' {
        line_breaks(s.drop_last()) + 1
    } else {
        line_breaks(s.drop_last())
    }
}

/// Line breaks are counted one by one: two texts together have those of each, a line break is
/// one, and a text without any stands on one line.
pub proof fn line_breaks_add_up(a: Seq<char>, b: Seq<char>)
    ensures
        line_breaks(a + b) == line_breaks(a) + line_breaks(b),
        line_breaks(seq!['\n']) == 1,
        line_breaks(b) == 0 <==> unbroken(b),
    decreases b.len(),
{
    assert(seq!['\n'].drop_last() =~= Seq::<char>::empty());
    assert(line_breaks(Seq::<char>::empty()) == 0);
    if b.len() == 0 {
        assert(a + b =~= a);
    } else {
        assert((a + b).drop_last() =~= a + b.drop_last());
        line_breaks_add_up(a, b.drop_last());
        let front = b.drop_last();
        if unbroken(front) && b.last() != '\n' {
            assert forall|i: int| 0 <= i < b.len() implies #[trigger] b[i] != '\n' by {
                if i < front.len() {
                    assert(front[i] == b[i]);
                }
            }
        }
        if unbroken(b) {
            assert forall|i: int| 0 <= i < front.len() implies #[trigger] front[i] != '\n' by {
                assert(front[i] == b[i]);
            }
        }
    }
}

/// A text that ends in one line has the line breaks that it has without it.
pub(crate) proof fn line_adds_no_break(s: Seq<char>, line: Seq<char>)
    requires
        unbroken(line),
    ensures
        line_breaks(s + line) == line_breaks(s),
    decreases line.len(),
{
    if line.len() == 0 {
        assert(s + line =~= s);
    } else {
        assert((s + line).drop_last() =~= s + line.drop_last());
        assert((s + line).last() == line[line.len() - 1]);
        line_adds_no_break(s, line.drop_last());
    }
}

pub(crate) proof fn digits_are_unbroken(n: nat)
    ensures
        unbroken(natural_digits(n)),
    decreases n,
{
    if n >= 10 {
        digits_are_unbroken(n / 10);
    }
}

} // verus!
