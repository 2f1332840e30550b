//! Number formatting for the view layer: a counter shown in at most four
//! cells, scaled with a suffix when it grows large.

use vstd::prelude::*;
use vstd::string::StringExecFns;

verus! {

/// The character of one decimal digit.
pub open spec fn digit_char(d: nat) -> char
    recommends
        d < 10,
{
    ((48 + d) as u8) as char
}

/// The decimal digit characters of `n`, most significant first.
pub open spec fn decimal_digits(n: nat) -> Seq<char>
    decreases n,
{
    if n < 10 {
        seq![digit_char(n)]
    } else {
        decimal_digits(n / 10).push(digit_char(n % 10))
    }
}

/// The character of one decimal digit, as a string slice.
fn digit_str(d: u64) -> (r: &'static str)
    requires
        d < 10,
    ensures
        r@ =~= seq![digit_char(d as nat)],
{
    proof {
        reveal_strlit("0");
        reveal_strlit("1");
        reveal_strlit("2");
        reveal_strlit("3");
        reveal_strlit("4");
        reveal_strlit("5");
        reveal_strlit("6");
        reveal_strlit("7");
        reveal_strlit("8");
        reveal_strlit("9");
    }
    if d == 0 {
        "0"
    } else if d == 1 {
        "1"
    } else if d == 2 {
        "2"
    } else if d == 3 {
        "3"
    } else if d == 4 {
        "4"
    } else if d == 5 {
        "5"
    } else if d == 6 {
        "6"
    } else if d == 7 {
        "7"
    } else if d == 8 {
        "8"
    } else {
        "9"
    }
}

/// The decimal digits of a number, most significant first.
pub(crate) fn u64_digits(n: u64) -> (r: String)
    ensures
        r@ == decimal_digits(n as nat),
    decreases n,
{
    if n < 10 {
        let s = digit_str(n).to_owned();
        proof {
            assert(s@ =~= decimal_digits(n as nat));
        }
        s
    } else {
        let mut s = u64_digits(n / 10);
        s.append(digit_str(n % 10));
        proof {
            assert(s@ =~= decimal_digits(n as nat));
        }
        s
    }
}

/// The simplified display of a counter: numbers below ten thousand are
/// written out; larger ones are scaled down by thousands with a scale
/// suffix.
pub open spec fn simplified_number(n: nat) -> Seq<char> {
    if n < 10000 {
        decimal_digits(n)
    } else if n < 1000000 {
        decimal_digits(n / 1000).push('k')
    } else if n < 1000000000 {
        decimal_digits(n / 1000000).push('M')
    } else if n < 1000000000000 {
        decimal_digits(n / 1000000000).push('T')
    } else {
        decimal_digits(n / 1000000000000).push('E')
    }
}

/// Format a counter to at most four cells.
pub fn simplify_number(n: u64) -> (r: String)
    ensures
        r@ == simplified_number(n as nat),
{
    if n < 10000 {
        u64_digits(n)
    } else if n < 1000000 {
        let mut s = u64_digits(n / 1000);
        s.append("k");
        proof {
            reveal_strlit("k");
            assert(s@ =~= simplified_number(n as nat));
        }
        s
    } else if n < 1000000000 {
        let mut s = u64_digits(n / 1000000);
        s.append("M");
        proof {
            reveal_strlit("M");
            assert(s@ =~= simplified_number(n as nat));
        }
        s
    } else if n < 1000000000000 {
        let mut s = u64_digits(n / 1000000000);
        s.append("T");
        proof {
            reveal_strlit("T");
            assert(s@ =~= simplified_number(n as nat));
        }
        s
    } else {
        let mut s = u64_digits(n / 1000000000000);
        s.append("E");
        proof {
            reveal_strlit("E");
            assert(s@ =~= simplified_number(n as nat));
        }
        s
    }
}

} // verus!
