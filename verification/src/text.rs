//! Text helpers shared by the compilers: equality of names, decimal
//! numerals and generated label names.
use vstd::prelude::*;

verus! {

/// Compares two string slices with `<str as PartialEq>::eq`.  The result is
/// claimed to be whether the two slices hold the same characters.
#[verifier::external_body]
pub(crate) fn str_eq(a: &str, b: &str) -> (r: bool)
    ensures
        r == (a@ == b@),
{
    a == b
}

/// Appends one character with `String::push`.  The string is claimed to
/// gain exactly that character at its end.
#[verifier::external_body]
pub(crate) fn push_char(s: &mut String, c: char)
    ensures
        final(s)@ == old(s)@.push(c),
{
    s.push(c);
}

/// The character of a decimal digit.
pub open spec fn digit_char(d: nat) -> char {
    if d == 0 {
        '0'
    } else if d == 1 {
        '1'
    } else if d == 2 {
        '2'
    } else if d == 3 {
        '3'
    } else if d == 4 {
        '4'
    } else if d == 5 {
        '5'
    } else if d == 6 {
        '6'
    } else if d == 7 {
        '7'
    } else if d == 8 {
        '8'
    } else {
        '9'
    }
}

/// The decimal numeral of a natural number, without leading zeros.
pub open spec fn nat_decimal(n: nat) -> Seq<char>
    decreases n,
{
    if n < 10 {
        seq![digit_char(n)]
    } else {
        nat_decimal(n / 10).push(digit_char(n % 10))
    }
}

/// The decimal numeral of an integer, with a leading `-` when negative.
pub open spec fn decimal(n: int) -> Seq<char> {
    if n < 0 {
        seq!['-'] + nat_decimal((-n) as nat)
    } else {
        nat_decimal(n as nat)
    }
}

/// The parts joined, with `sep` between each two of them.
pub open spec fn join(parts: Seq<Seq<char>>, sep: Seq<char>) -> Seq<char>
    decreases parts.len(),
{
    if parts.len() == 0 {
        Seq::empty()
    } else if parts.len() == 1 {
        parts[0]
    } else {
        join(parts.drop_last(), sep) + sep + parts.last()
    }
}

/// The name of the label made from `prefix` and counter value `n`.
pub open spec fn label_text(prefix: Seq<char>, n: int) -> Seq<char> {
    prefix + seq!['_'] + decimal(n)
}

fn digit_str(d: u64) -> (s: &'static str)
    requires
        d < 10,
    ensures
        s@ == seq![digit_char(d as nat)],
{
    if d == 0 {
        proof { reveal_strlit("0"); }
        "0"
    } else if d == 1 {
        proof { reveal_strlit("1"); }
        "1"
    } else if d == 2 {
        proof { reveal_strlit("2"); }
        "2"
    } else if d == 3 {
        proof { reveal_strlit("3"); }
        "3"
    } else if d == 4 {
        proof { reveal_strlit("4"); }
        "4"
    } else if d == 5 {
        proof { reveal_strlit("5"); }
        "5"
    } else if d == 6 {
        proof { reveal_strlit("6"); }
        "6"
    } else if d == 7 {
        proof { reveal_strlit("7"); }
        "7"
    } else if d == 8 {
        proof { reveal_strlit("8"); }
        "8"
    } else {
        proof { reveal_strlit("9"); }
        "9"
    }
}

/// Appends the decimal numeral of `m`.
pub fn push_nat_decimal(out: &mut String, m: u64)
    ensures
        final(out)@ == old(out)@ + nat_decimal(m as nat),
    decreases m,
{
    if m >= 10 {
        push_nat_decimal(out, m / 10);
    }
    out.append(digit_str(m % 10));
    proof {
        assert(final(out)@ =~= old(out)@ + nat_decimal(m as nat));
    }
}

/// Appends the decimal numeral of `n`, as `{n}` formats it.
pub fn push_decimal(out: &mut String, n: i64)
    ensures
        final(out)@ == old(out)@ + decimal(n as int),
{
    if n < 0 {
        proof { reveal_strlit("-"); }
        out.append("-");
        let m: u64 = if n == i64::MIN {
            0x8000_0000_0000_0000u64
        } else {
            (-n) as u64
        };
        push_nat_decimal(out, m);
        proof {
            assert(final(out)@ =~= old(out)@ + decimal(n as int));
        }
    } else {
        push_nat_decimal(out, n as u64);
    }
}

/// Makes a fresh label name `{prefix}_{counter}` and advances the counter.
pub fn new_label(counter: &mut i32, prefix: &str) -> (label: String)
    requires
        *old(counter) < i32::MAX,
    ensures
        *final(counter) == *old(counter) + 1,
        label@ == label_text(prefix@, *old(counter) as int),
{
    let current = *counter;
    *counter += 1;
    let mut label = prefix.to_owned();
    proof { reveal_strlit("_"); }
    label.append("_");
    push_decimal(&mut label, current as i64);
    proof {
        assert(label@ =~= label_text(prefix@, current as int));
    }
    label
}


/// No decimal numeral holds an underscore.
pub proof fn lemma_decimal_no_underscore(n: int, i: int)
    requires
        0 <= i < decimal(n).len(),
    ensures
        decimal(n)[i] != '_',
{
    crate::runtime::lemma_decimal_value(n);
    if n < 0 {
        crate::runtime::lemma_nat_decimal_value((-n) as nat);
        if i > 0 {
            assert(decimal(n)[i] == nat_decimal((-n) as nat)[i - 1]);
        }
    } else {
        crate::runtime::lemma_nat_decimal_value(n as nat);
    }
}

/// Labels made from different counter values differ, whatever their
/// prefixes.
pub proof fn lemma_label_text_injective(p: Seq<char>, n: int, q: Seq<char>, m: int)
    requires
        label_text(p, n) == label_text(q, m),
    ensures
        n == m,
{
    let s = label_text(p, n);
    let t = label_text(q, m);
    let ps = p + seq!['_'];
    let qs = q + seq!['_'];
    assert(s == ps + decimal(n));
    assert(t == qs + decimal(m));
    assert(s.len() == t.len());
    if p.len() < q.len() {
        let idx = q.len() as int;
        assert(t[idx] == qs[idx]);
        assert(qs[idx] == '_');
        assert(s[idx] == decimal(n)[idx - ps.len()]);
        lemma_decimal_no_underscore(n, idx - ps.len());
    } else if q.len() < p.len() {
        let idx = p.len() as int;
        assert(s[idx] == ps[idx]);
        assert(ps[idx] == '_');
        assert(t[idx] == decimal(m)[idx - qs.len()]);
        lemma_decimal_no_underscore(m, idx - qs.len());
    } else {
        assert(decimal(n) =~= s.subrange(p.len() as int + 1, s.len() as int));
        assert(decimal(m) =~= t.subrange(q.len() as int + 1, t.len() as int));
        crate::runtime::lemma_decimal_value(n);
        crate::runtime::lemma_decimal_value(m);
    }
}

/// A generated label name ends in a digit.
pub proof fn lemma_label_ends_in_digit(p: Seq<char>, n: int)
    ensures
        label_text(p, n).len() > 0,
        crate::runtime::is_digit(label_text(p, n).last()),
{
    let m = if n < 0 { (-n) as nat } else { n as nat };
    crate::runtime::lemma_nat_decimal_value(m);
    let d = nat_decimal(m);
    assert(crate::runtime::is_digit(d[d.len() - 1]));
    assert(decimal(n).last() == d.last());
    assert(label_text(p, n).last() == decimal(n).last());
}

} // verus!
