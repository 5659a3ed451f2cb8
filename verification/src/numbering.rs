//! Decimal numbers padded with zeros, as they stand at the start of a new
//! file name.

use vstd::prelude::*;
use vstd::string::StringExecFns;

verus! {

/// The character that stands for the decimal digit `d`.
pub open spec fn digit_char(d: nat) -> char
    recommends
        d < 10,
{
    if d == 0 {
        '0'
    } else if d == 1 {
        '1'
    } else if d == 2 {
        '2'
    } else if d == 3 {
        '3'
    } else if d == 4 {
        '4'
    } else if d == 5 {
        '5'
    } else if d == 6 {
        '6'
    } else if d == 7 {
        '7'
    } else if d == 8 {
        '8'
    } else {
        '9'
    }
}

/// Whether `c` is one of the ASCII digits `0` to `9`.
pub open spec fn is_ascii_digit(c: char) -> bool {
    '0' <= c && c <= '9'
}

/// The decimal digits of `v`, most significant first, without leading zeros.
pub open spec fn decimal_digits(v: nat) -> Seq<char>
    decreases v,
{
    if v < 10 {
        seq![digit_char(v)]
    } else {
        decimal_digits(v / 10).push(digit_char(v % 10))
    }
}

/// The decimal digits of `v`, with zeros in front up to `width` characters.
/// A number with more digits than `width` keeps all of them.
pub open spec fn zero_padded(v: nat, width: nat) -> Seq<char> {
    let digits = decimal_digits(v);
    if digits.len() >= width {
        digits
    } else {
        Seq::new((width - digits.len()) as nat, |i: int| '0') + digits
    }
}

fn digit_str(d: usize) -> (s: &'static str)
    requires
        d < 10,
    ensures
        s@ == seq![digit_char(d as nat)],
{
    proof {
        reveal_strlit("0");
        reveal_strlit("1");
        reveal_strlit("2");
        reveal_strlit("3");
        reveal_strlit("4");
        reveal_strlit("5");
        reveal_strlit("6");
        reveal_strlit("7");
        reveal_strlit("8");
        reveal_strlit("9");
    }
    let s = if d == 0 {
        "0"
    } else if d == 1 {
        "1"
    } else if d == 2 {
        "2"
    } else if d == 3 {
        "3"
    } else if d == 4 {
        "4"
    } else if d == 5 {
        "5"
    } else if d == 6 {
        "6"
    } else if d == 7 {
        "7"
    } else if d == 8 {
        "8"
    } else {
        "9"
    };
    assert(s@ =~= seq![digit_char(d as nat)]);
    s
}

/// The decimal digits of `v` as a string, together with their count.
fn decimal_string(v: usize) -> (r: (String, usize))
    ensures
        r.0@ == decimal_digits(v as nat),
        r.1 == r.0@.len(),
        r.1 >= 1,
        r.1 <= v + 1,
    decreases v,
{
    if v < 10 {
        (String::from_str(digit_str(v)), 1)
    } else {
        let (mut s, n) = decimal_string(v / 10);
        s.append(digit_str(v % 10));
        (s, n + 1)
    }
}

/// Writes `v` in decimal, with zeros in front up to `width` characters.
pub fn zero_padded_number(v: usize, width: usize) -> (s: String)
    ensures
        s@ == zero_padded(v as nat, width as nat),
{
    let (digits, n) = decimal_string(v);
    let mut s = String::new();
    let mut k: usize = n;
    while k < width
        invariant
            n <= k,
            k <= width || k == n,
            s@ == Seq::new((k - n) as nat, |i: int| '0'),
        decreases width - k,
    {
        proof {
            reveal_strlit("0");
        }
        s.append("0");
        k = k + 1;
        assert(s@ =~= Seq::new((k - n) as nat, |i: int| '0'));
    }
    s.append(digits.as_str());
    assert(s@ =~= zero_padded(v as nat, width as nat));
    s
}

/// The number that a string of decimal digits stands for.
pub open spec fn decimal_value(s: Seq<char>) -> nat
    decreases s.len(),
{
    if s.len() == 0 {
        0
    } else {
        decimal_value(s.drop_last()) * 10 + digit_value(s.last())
    }
}

/// The value of one digit character; 0 for any other character.
pub open spec fn digit_value(c: char) -> nat {
    if is_ascii_digit(c) {
        (c as nat - '0' as nat) as nat
    } else {
        0
    }
}

/// Whether every character of `s` is an ASCII digit.
pub open spec fn all_ascii_digits(s: Seq<char>) -> bool {
    forall|i: int| 0 <= i < s.len() ==> is_ascii_digit(#[trigger] s[i])
}

/// The digits of a number are ASCII digits and read back as that number.
pub proof fn lemma_decimal_digits(v: nat)
    ensures
        decimal_digits(v).len() >= 1,
        all_ascii_digits(decimal_digits(v)),
        decimal_value(decimal_digits(v)) == v,
        v < 10 ==> decimal_digits(v).len() == 1,
        10 <= v < 100 ==> decimal_digits(v).len() == 2,
        100 <= v < 1000 ==> decimal_digits(v).len() == 3,
    decreases v,
{
    if v < 10 {
        assert(decimal_digits(v).drop_last() =~= Seq::<char>::empty());
        assert(decimal_value(decimal_digits(v).drop_last()) == 0);
    } else {
        lemma_decimal_digits(v / 10);
        assert(decimal_digits(v).drop_last() =~= decimal_digits(v / 10));
    }
}

/// Zeros in front of a string of digits do not change its value.
proof fn lemma_leading_zeros(k: nat, s: Seq<char>)
    ensures
        decimal_value(Seq::new(k, |i: int| '0') + s) == decimal_value(s),
    decreases s.len(), k,
{
    let zeros = Seq::new(k, |i: int| '0');
    if s.len() == 0 {
        assert(zeros + s =~= zeros);
        if k > 0 {
            let fewer = Seq::new((k - 1) as nat, |i: int| '0');
            assert(zeros.drop_last() =~= fewer + s);
            lemma_leading_zeros((k - 1) as nat, s);
        }
    } else {
        assert((zeros + s).drop_last() =~= zeros + s.drop_last());
        lemma_leading_zeros(k, s.drop_last());
    }
}

/// A zero-padded number is made of ASCII digits, is at least `width` long,
/// exactly so when the number has no more digits than that, and reads back
/// as the number.
pub proof fn lemma_zero_padded(v: nat, width: nat)
    ensures
        all_ascii_digits(zero_padded(v, width)),
        zero_padded(v, width).len() >= width,
        decimal_digits(v).len() <= width ==> zero_padded(v, width).len() == width,
        decimal_value(zero_padded(v, width)) == v,
{
    lemma_decimal_digits(v);
    let digits = decimal_digits(v);
    if digits.len() < width {
        lemma_leading_zeros((width - digits.len()) as nat, digits);
    }
}

} // verus!
