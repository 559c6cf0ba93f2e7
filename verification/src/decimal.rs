//! Decimal rendering of unsigned integers, used by the canonical
//! serializations that feed the content hash.

use vstd::prelude::*;

verus! {

/// The decimal digit character for a value below 10.
pub open spec fn dec_digit(d: int) -> char {
    if d == 0 {
        '0'
    } else if d == 1 {
        '1'
    } else if d == 2 {
        '2'
    } else if d == 3 {
        '3'
    } else if d == 4 {
        '4'
    } else if d == 5 {
        '5'
    } else if d == 6 {
        '6'
    } else if d == 7 {
        '7'
    } else if d == 8 {
        '8'
    } else {
        '9'
    }
}

/// The usual decimal rendering of a natural number, without leading zeros
/// (a single '0' for zero).
pub open spec fn dec_of(n: nat) -> Seq<char>
    decreases n,
{
    if n < 10 {
        seq![dec_digit(n as int)]
    } else {
        dec_of(n / 10).push(dec_digit((n % 10) as int))
    }
}

/// A one-character string for a single decimal digit.
fn dec_digit_str(d: u64) -> (r: &'static str)
    requires
        d < 10,
    ensures
        r@ == seq![dec_digit(d as int)],
{
    let r: &'static str = if d == 0 {
        "0"
    } else if d == 1 {
        "1"
    } else if d == 2 {
        "2"
    } else if d == 3 {
        "3"
    } else if d == 4 {
        "4"
    } else if d == 5 {
        "5"
    } else if d == 6 {
        "6"
    } else if d == 7 {
        "7"
    } else if d == 8 {
        "8"
    } else {
        "9"
    };
    proof {
        reveal_strlit("0");
        reveal_strlit("1");
        reveal_strlit("2");
        reveal_strlit("3");
        reveal_strlit("4");
        reveal_strlit("5");
        reveal_strlit("6");
        reveal_strlit("7");
        reveal_strlit("8");
        reveal_strlit("9");
        assert(r@ =~= seq![dec_digit(d as int)]);
    }
    r
}

/// Renders `n` in decimal, matching `dec_of`.
pub fn u64_to_dec(n: u64) -> (r: String)
    ensures
        r@ == dec_of(n as nat),
{
    let mut m: u64 = n;
    let mut r = String::new();
    if n == 0 {
        let d = dec_digit_str(0);
        r.append(d);
        return r;
    }
    while m > 0
        invariant
            dec_of(n as nat) == if m > 0 {
                dec_of(m as nat) + r@
            } else {
                r@
            },
        decreases m,
    {
        let d: u64 = m % 10;
        let ds = dec_digit_str(d);
        let r2 = String::from_str(ds).concat(r.as_str());
        proof {
            if m >= 10 {
                assert(dec_of(m as nat) == dec_of((m as nat) / 10).push(dec_digit(
                    ((m as nat) % 10) as int,
                )));
                assert(dec_of((m as nat) / 10).push(dec_digit(d as int)) =~= dec_of(
                    (m as nat) / 10,
                ) + ds@);
                assert(dec_of(m as nat) + r@ =~= dec_of((m as nat) / 10) + (ds@ + r@));
            } else {
                assert(dec_of(m as nat) =~= ds@);
            }
        }
        r = r2;
        m = m / 10;
    }
    r
}

} // verus!
