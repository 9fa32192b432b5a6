use vstd::prelude::*;
use vstd::string::StringExecFns;
use vstd::arithmetic::div_mod::lemma_div_is_strictly_smaller;

verus! {

/// The decimal digit character for `d` in `0..=9`.
pub open spec fn spec_digit_char(d: int) -> char {
    if d == 0 {
        '0'
    } else if d == 1 {
        '1'
    } else if d == 2 {
        '2'
    } else if d == 3 {
        '3'
    } else if d == 4 {
        '4'
    } else if d == 5 {
        '5'
    } else if d == 6 {
        '6'
    } else if d == 7 {
        '7'
    } else if d == 8 {
        '8'
    } else {
        '9'
    }
}

/// The plain decimal digits of `n`, most significant first, with no
/// leading zeros (a single `'0'` for zero).
pub open spec fn spec_digits(n: int) -> Seq<char>
    decreases n,
{
    if n < 10 {
        seq![spec_digit_char(n)]
    } else {
        spec_digits(n / 10).push(spec_digit_char(n % 10))
    }
}

/// `n` as exactly three decimal digits, zero padded.
pub open spec fn spec_pad3(n: int) -> Seq<char> {
    if n < 10 {
        seq!['0', '0'] + spec_digits(n)
    } else if n < 100 {
        seq!['0'] + spec_digits(n)
    } else {
        spec_digits(n)
    }
}

/// The decimal digits of `n` with a space between every group of three,
/// counted from the right.
pub open spec fn spec_grouped(n: int) -> Seq<char>
    decreases n,
{
    if n < 1000 {
        spec_digits(n)
    } else {
        spec_grouped(n / 1000) + seq![' '] + spec_pad3(n % 1000)
    }
}

/// An amount of `v` minor currency units rendered as major units: the
/// grouped integer part, a comma, and exactly two fractional digits.
pub open spec fn spec_format_currency(v: int) -> Seq<char> {
    spec_grouped(v / 100) + seq![','] + seq![
        spec_digit_char(v % 100 / 10),
        spec_digit_char(v % 100 % 10),
    ]
}

fn digit_str(d: u64) -> (s: &'static str)
    requires
        d < 10,
    ensures
        s@ == seq![spec_digit_char(d as int)],
{
    let s: &'static str = match d {
        0 => "0",
        1 => "1",
        2 => "2",
        3 => "3",
        4 => "4",
        5 => "5",
        6 => "6",
        7 => "7",
        8 => "8",
        _ => "9",
    };
    proof {
        reveal_strlit("0");
        reveal_strlit("1");
        reveal_strlit("2");
        reveal_strlit("3");
        reveal_strlit("4");
        reveal_strlit("5");
        reveal_strlit("6");
        reveal_strlit("7");
        reveal_strlit("8");
        reveal_strlit("9");
        assert(s@ =~= seq![spec_digit_char(d as int)]);
    }
    s
}

fn digits_str(n: u64) -> (s: String)
    ensures
        s@ == spec_digits(n as int),
    decreases n,
{
    if n < 10 {
        digit_str(n).to_owned()
    } else {
        proof {
            lemma_div_is_strictly_smaller(n as int, 10);
        }
        let mut s = digits_str(n / 10);
        s.append(digit_str(n % 10));
        proof {
            assert(s@ =~= spec_digits(n as int));
        }
        s
    }
}

fn pad3_str(m: u64) -> (s: String)
    requires
        m < 1000,
    ensures
        s@ == spec_pad3(m as int),
{
    if m < 10 {
        let mut s = String::from_str("00");
        s.append(digit_str(m));
        proof {
            reveal_strlit("00");
            assert(s@ =~= spec_pad3(m as int));
        }
        s
    } else if m < 100 {
        let mut s = String::from_str("0");
        let rest = digits_str(m);
        s.append(rest.as_str());
        proof {
            reveal_strlit("0");
            assert(s@ =~= spec_pad3(m as int));
        }
        s
    } else {
        digits_str(m)
    }
}

fn grouped_str(n: u64) -> (s: String)
    ensures
        s@ == spec_grouped(n as int),
    decreases n,
{
    if n < 1000 {
        digits_str(n)
    } else {
        proof {
            lemma_div_is_strictly_smaller(n as int, 1000);
        }
        let mut s = grouped_str(n / 1000);
        s.append(" ");
        let tail = pad3_str(n % 1000);
        s.append(tail.as_str());
        proof {
            reveal_strlit(" ");
            assert(s@ =~= spec_grouped(n as int));
        }
        s
    }
}

/// Renders an amount of minor currency units for display: thousands
/// groups of the major-unit part separated by spaces, then a decimal
/// comma and exactly two fractional digits (`107600012` becomes
/// `"1 076 000,12"`).
pub fn format_currency(value: u64) -> (s: String)
    ensures
        s@ == spec_format_currency(value as int),
{
    let mut s = grouped_str(value / 100);
    s.append(",");
    let frac = value % 100;
    s.append(digit_str(frac / 10));
    s.append(digit_str(frac % 10));
    proof {
        reveal_strlit(",");
        assert(s@ =~= spec_format_currency(value as int));
    }
    s
}

} // verus!
