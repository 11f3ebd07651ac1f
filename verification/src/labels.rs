//! Labels made of a prefix and a number written in decimal.

use vstd::prelude::*;

verus! {

/// The decimal digit `d` as a character.
pub open spec fn digit_char(d: nat) -> char {
    seq!['0', '1', '2', '3', '4', '5', '6', '7', '8', '9'][d as int]
}

/// `n` written in decimal, without leading zeros.
pub open spec fn decimal(n: nat) -> Seq<char>
    decreases n,
{
    if n < 10 {
        seq![digit_char(n)]
    } else {
        decimal(n / 10).push(digit_char(n % 10))
    }
}

/// `n` written in decimal.
pub fn decimal_string(n: usize) -> (s: String)
    ensures
        s@ == decimal(n as nat),
    decreases n,
{
    let digits = "0123456789";
    proof {
        reveal_strlit("0123456789");
    }
    if n < 10 {
        let mut s = String::new();
        s.append(digits.substring_char(n, n + 1));
        proof {
            assert(s@ =~= seq![digit_char(n as nat)]);
        }
        s
    } else {
        let mut s = decimal_string(n / 10);
        let d = n % 10;
        s.append(digits.substring_char(d, d + 1));
        proof {
            assert(s@ =~= decimal((n / 10) as nat).push(digit_char(d as nat)));
        }
        s
    }
}

/// The label `prefix` followed by `n` in decimal.
pub fn numbered_label(prefix: &str, n: usize) -> (s: String)
    ensures
        s@ == prefix@ + decimal(n as nat),
{
    let mut s = prefix.to_owned();
    let digits = decimal_string(n);
    s.append(digits.as_str());
    s
}

} // verus!
