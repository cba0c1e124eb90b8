use vstd::prelude::*;
use vstd::string::StringExecFns;

verus! {

/// The character of a decimal digit.
pub open spec fn digit_char(d: int) -> char {
    (d + 48) as char
}

/// Decimal representation of `n`, without leading zeros.
pub open spec fn decimal_spec(n: nat) -> Seq<char>
    decreases n,
{
    if n < 10 {
        seq![digit_char(n as int)]
    } else {
        decimal_spec(n / 10) + seq![digit_char((n % 10) as int)]
    }
}

/// Decimal representation of `n`, left-padded with zeros to three digits.
pub open spec fn decimal3_spec(n: nat) -> Seq<char> {
    if n < 10 {
        seq!['0', '0'] + decimal_spec(n)
    } else if n < 100 {
        seq!['0'] + decimal_spec(n)
    } else {
        decimal_spec(n)
    }
}

fn digit(d: u128) -> (r: &'static str)
    requires
        d < 10,
    ensures
        r@ == seq![digit_char(d as int)],
{
        if d == 0 {
            proof { reveal_strlit("0"); }
            "0"
        } else if d == 1 {
            proof { reveal_strlit("1"); }
            "1"
        } else if d == 2 {
            proof { reveal_strlit("2"); }
            "2"
        } else if d == 3 {
            proof { reveal_strlit("3"); }
            "3"
        } else if d == 4 {
            proof { reveal_strlit("4"); }
            "4"
        } else if d == 5 {
            proof { reveal_strlit("5"); }
            "5"
        } else if d == 6 {
            proof { reveal_strlit("6"); }
            "6"
        } else if d == 7 {
            proof { reveal_strlit("7"); }
            "7"
        } else if d == 8 {
            proof { reveal_strlit("8"); }
            "8"
        } else {
            proof { reveal_strlit("9"); }
            "9"
        }
}

/// Decimal representation of `n`.
pub fn decimal(n: u128) -> (r: String)
    ensures
        r@ == decimal_spec(n as nat),
    decreases n,
{
    if n < 10 {
        String::from_str(digit(n))
    } else {
        let mut s = decimal(n / 10);
        s.append(digit(n % 10));
        s
    }
}

/// Decimal representation of `n`, zero-padded to at least three digits.
pub fn decimal3(n: u128) -> (r: String)
    ensures
        r@ == decimal3_spec(n as nat),
{
    proof {
        reveal_strlit("00");
        reveal_strlit("0");
    }
    let d = decimal(n);
    if n < 10 {
        String::from_str("00").concat(d.as_str())
    } else if n < 100 {
        String::from_str("0").concat(d.as_str())
    } else {
        d
    }
}

} // verus!
