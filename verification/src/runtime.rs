//! The decisions of the run-time support of compiled programs: reading the
//! input argument, writing the result, and the message of a run-time error.
use vstd::prelude::*;
use crate::tagging::{TRUE_VAL, FALSE_VAL};
use crate::text::{decimal, nat_decimal, digit_char, push_decimal, str_eq};

verus! {

/// Whether a character is an ASCII decimal digit.
pub open spec fn is_digit(c: char) -> bool {
    '0' <= c <= '9'
}

/// The value of a sequence of decimal digits.
pub open spec fn digits_value(s: Seq<char>) -> int
    decreases s.len(),
{
    if s.len() == 0 {
        0
    } else {
        digits_value(s.drop_last()) * 10 + (s.last() as int - '0' as int)
    }
}

/// Whether a sequence is one or more decimal digits.
pub open spec fn all_digits(s: Seq<char>) -> bool {
    s.len() > 0 && forall|i: int| 0 <= i < s.len() ==> is_digit(#[trigger] s[i])
}

/// The integer that a text writes in decimal: an optional `+` or `-` and one
/// or more digits, nothing else.
pub open spec fn decimal_value(s: Seq<char>) -> Option<int> {
    if s.len() > 0 && (s[0] == '-' || s[0] == '+') {
        let d = s.subrange(1, s.len() as int);
        if all_digits(d) {
            Some(if s[0] == '-' { -digits_value(d) } else { digits_value(d) })
        } else {
            None
        }
    } else if all_digits(s) {
        Some(digits_value(s))
    } else {
        None
    }
}

/// What `i32::from_str` accepts: a decimal integer within 32 bits.
pub open spec fn i32_reading(s: Seq<char>) -> Option<i32> {
    match decimal_value(s) {
        Some(v) => if i32::MIN <= v <= i32::MAX {
            Some(v as i32)
        } else {
            None
        },
        None => None,
    }
}

/// Calls `str::parse::<i32>`.  As its documentation states, the text is
/// accepted exactly when it is an optional `+` or `-` followed by one or more
/// ASCII digits, with no other character, and the value fits in 32 bits; the
/// result is that value.
#[verifier::external_body]
fn parse_i32(s: &str) -> (r: Option<i32>)
    ensures
        r == i32_reading(s@),
{
    s.parse::<i32>().ok()
}

/// The encoded value that the input argument denotes: `true`, `false`, or a
/// 32-bit decimal integer; `None` for any other text.
pub open spec fn input_value(s: Seq<char>) -> Option<i64> {
    if s == "true"@ {
        Some(TRUE_VAL)
    } else if s == "false"@ {
        Some(FALSE_VAL)
    } else {
        match i32_reading(s) {
            Some(n) => Some((2 * n) as i64),
            None => None,
        }
    }
}

/// Reads the input argument of a compiled program; `None` when it is
/// invalid.
pub fn parse_input(input: &str) -> (r: Option<i64>)
    ensures
        r == input_value(input@),
{
    if str_eq(input, "true") {
        Some(TRUE_VAL)
    } else if str_eq(input, "false") {
        Some(FALSE_VAL)
    } else {
        match parse_i32(input) {
            Some(value) => Some(crate::tagging::encode_num(value)),
            None => None,
        }
    }
}

/// The text that a result value prints as: `true`, `false`, or the number an
/// even value encodes; `None` for any other value.
pub open spec fn value_text(v: i64) -> Option<Seq<char>> {
    if v == TRUE_VAL {
        Some("true"@)
    } else if v == FALSE_VAL {
        Some("false"@)
    } else if v % 2 == 0 {
        Some(decimal(v / 2))
    } else {
        None
    }
}

/// The text that a result value prints as; `None` when the value is
/// invalid.
pub fn print_value(value: i64) -> (r: Option<String>)
    ensures
        match value_text(value) {
            Some(t) => r is Some && r->0@ == t,
            None => r is None,
        },
{
    if value == TRUE_VAL {
        Some("true".to_owned())
    } else if value == FALSE_VAL {
        Some("false".to_owned())
    } else if value & 1 == 0 {
        assert((value & 1 == 0) ==> (value >> 1) * 2 == value) by (bit_vector);
        assert((value >> 1) * 2 == value);
        let mut s = String::new();
        push_decimal(&mut s, value >> 1);
        proof {
            assert(s@ =~= decimal(value / 2));
        }
        Some(s)
    } else {
        assert((value & 1 != 0) ==> (value % 2 != 0)) by (bit_vector);
        None
    }
}

/// The message that a run-time error code reports.
pub open spec fn error_text(errcode: i64) -> Seq<char> {
    if errcode == 1 {
        "invalid argument"@
    } else {
        "an error occurred"@
    }
}

/// The message that a run-time error code reports.
pub fn snek_error(errcode: i64) -> (s: &'static str)
    ensures
        s@ == error_text(errcode),
{
    if errcode == 1 {
        "invalid argument"
    } else {
        "an error occurred"
    }
}


/// The digit characters are the ASCII digits in order.
proof fn lemma_digit_char(d: nat)
    requires
        d < 10,
    ensures
        is_digit(digit_char(d)),
        digit_char(d) as int - '0' as int == d,
{
}

/// A decimal numeral is made of digits and reads back as its number.
pub proof fn lemma_nat_decimal_value(m: nat)
    ensures
        all_digits(nat_decimal(m)),
        digits_value(nat_decimal(m)) == m,
    decreases m,
{
    if m < 10 {
        lemma_digit_char(m);
        assert(nat_decimal(m).drop_last() =~= Seq::<char>::empty());
        assert(digits_value(Seq::<char>::empty()) == 0);
        assert(digits_value(nat_decimal(m)) == digits_value(nat_decimal(m).drop_last()) * 10 + (
        digit_char(m) as int - '0' as int));
    } else {
        lemma_nat_decimal_value(m / 10);
        lemma_digit_char(m % 10);
        let s = nat_decimal(m);
        assert(s.drop_last() == nat_decimal(m / 10));
        assert(s.last() == digit_char(m % 10));
        assert(m == (m / 10) * 10 + m % 10);
        assert(digits_value(s) == digits_value(s.drop_last()) * 10 + (digit_char(m % 10) as int
            - '0' as int));
        assert forall|i: int| 0 <= i < s.len() implies is_digit(#[trigger] s[i]) by {
            if i < s.len() - 1 {
                assert(s[i] == nat_decimal(m / 10)[i]);
            }
        }
    }
}

/// The decimal numeral of an integer reads back as that integer.
pub proof fn lemma_decimal_value(n: int)
    ensures
        decimal_value(decimal(n)) == Some(n),
        decimal(n).len() > 0,
        decimal(n)[0] == '-' || is_digit(decimal(n)[0]),
{
    if n < 0 {
        let m = (-n) as nat;
        lemma_nat_decimal_value(m);
        assert(decimal(n).subrange(1, decimal(n).len() as int) =~= nat_decimal(m));
        assert(decimal(n)[0] == '-');
    } else {
        lemma_nat_decimal_value(n as nat);
        assert(nat_decimal(n as nat)[0] != '-');
        assert(nat_decimal(n as nat)[0] != '+');
    }
}

/// The run-time support reads back what it writes: the text that a result
/// prints as is an input argument that denotes the same value, for every
/// number and both booleans.
pub proof fn lemma_print_then_read(v: i64)
    requires
        v == TRUE_VAL || v == FALSE_VAL || (v % 2 == 0 && i32::MIN <= v / 2 <= i32::MAX),
    ensures
        value_text(v) is Some,
        input_value(value_text(v)->0) == Some(v),
{
    reveal_strlit("true");
    reveal_strlit("false");
    assert("false"@ != "true"@) by {
        assert("true"@[0] == 't');
    }
    if v != TRUE_VAL && v != FALSE_VAL {
        let n = v / 2;
        lemma_decimal_value(n);
        assert(v == 2 * n);
        assert(decimal(n) != "true"@) by {
            assert("true"@[0] == 't');
        }
        assert(decimal(n) != "false"@) by {
            assert("false"@[0] == 'f');
        }
    }
}

/// Every 32-bit number passes from argument to result unchanged: its decimal
/// text is read as its encoding, and that encoding prints as the same text.
pub proof fn lemma_number_roundtrip(n: i32)
    ensures
        input_value(decimal(n as int)) == Some((2 * n) as i64),
        value_text((2 * n) as i64) == Some(decimal(n as int)),
{
    lemma_decimal_value(n as int);
    reveal_strlit("true");
    reveal_strlit("false");
    assert(decimal(n as int) != "true"@) by {
        assert("true"@[0] == 't');
    }
    assert(decimal(n as int) != "false"@) by {
        assert("false"@[0] == 'f');
    }
    let v = (2 * n) as i64;
    assert(v != TRUE_VAL && v != FALSE_VAL);
    assert(v / 2 == n);
}

} // verus!
