//! Decimal rendering of line numbers and match counts.
use vstd::prelude::*;

use crate::text::from_chars;

verus! {

/// The ASCII digit for a value below ten.
pub open spec fn digit_char(d: int) -> char
    recommends
        0 <= d < 10,
{
    (48 + d) as u8 as char
}

/// The decimal digits of `n`, most significant first, with no leading zeros
/// (`0` itself renders as `"0"`).
pub open spec fn dec_digits(n: int) -> Seq<char>
    recommends
        n >= 0,
    decreases n,
{
    if n < 10 {
        seq![digit_char(n)]
    } else {
        dec_digits(n / 10).push(digit_char(n % 10))
    }
}

/// Renders `n` in decimal.
#[verifier::loop_isolation(false)]
pub fn usize_to_string(n: usize) -> (r: String)
    ensures
        r@ == dec_digits(n as int),
{
    let mut digits: Vec<char> = Vec::new();
    let mut m: usize = n;
    if m < 10 {
        digits.push((48 + (m as u8)) as char);
        assert(digits@ =~= seq![digit_char(n as int)]);
        return from_chars(&digits);
    }
    while m >= 10
        invariant
            dec_digits(n as int) == dec_digits(m as int) + digits@.reverse(),
        decreases m,
    {
        let d: u8 = (m % 10) as u8;
        let ghost old_digits = digits@;
        let ghost old_m = m as int;
        digits.push((48 + d) as char);
        m = m / 10;
        proof {
            assert(digits@.reverse() =~= seq![digit_char(old_m % 10)] + old_digits.reverse());
            assert(dec_digits(old_m) == dec_digits(old_m / 10).push(digit_char(old_m % 10)));
            assert(dec_digits(old_m / 10).push(digit_char(old_m % 10)) + old_digits.reverse()
                =~= dec_digits(old_m / 10) + digits@.reverse());
        }
    }
    let ghost final_m = m as int;
    let ghost rev = digits@;
    let mut out: Vec<char> = Vec::new();
    out.push((48 + (m as u8)) as char);
    proof {
        assert(dec_digits(final_m) =~= seq![digit_char(final_m)]);
        assert(out@ =~= dec_digits(final_m) + rev.reverse().take(0));
    }
    let mut k: usize = digits.len();
    while k > 0
        invariant
            k <= rev.len(),
            digits@ == rev,
            out@ == dec_digits(final_m) + rev.reverse().take(rev.len() - k),
        decreases k,
    {
        k = k - 1;
        out.push(digits[k]);
        proof {
            assert(rev.reverse()[rev.len() - k - 1] == rev[k as int]);
            assert(out@ =~= dec_digits(final_m) + rev.reverse().take(rev.len() - k));
        }
    }
    proof {
        assert(rev.reverse().take(rev.len() as int) =~= rev.reverse());
        assert(out@ == dec_digits(n as int));
    }
    from_chars(&out)
}

} // verus!
