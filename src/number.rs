//! Exact decimal numbers with up to eighteen digits on either side of the point.
use crate::bytes::{
    copy_range, digit_run, digits_to_u64, digits_value, lemma_digit_run_bounds,
    lemma_digits_value_bound, lemma_pow10_small, pow10, scan_digits, scan_space, scan_space_back,
    trimmed,
};
use vstd::prelude::*;

verus! {

/// Units in one: a number is held as a whole count of 10^-18.
pub const ONE: i128 = 1_000_000_000_000_000_000;

/// A decimal number, held exactly as `units` times 10^-18.
#[derive(Clone, Copy, Debug, PartialEq, Eq, Structural)]
pub struct Number {
    pub units: i128,
}

/// The value in units of `t[f..]`, read as `digits`, `digits.`, `.digits` or
/// `digits.digits`, with at most 18 digits on each side of the point.
pub open spec fn unsigned_units(t: Seq<u8>, f: int) -> Option<int> {
    let i = digit_run(t, f);
    let int_len = i - f;
    if i == t.len() {
        if 1 <= int_len <= 18 {
            Some(digits_value(t.subrange(f, i)) * pow10(18))
        } else {
            None
        }
    } else if t[i] == 46 {
        let j = digit_run(t, i + 1);
        let frac_len = j - i - 1;
        if j == t.len() && int_len <= 18 && frac_len <= 18 && int_len + frac_len >= 1 {
            Some(
                digits_value(t.subrange(f, i)) * pow10(18) + digits_value(t.subrange(i + 1, j))
                    * pow10((18 - frac_len) as nat),
            )
        } else {
            None
        }
    } else {
        None
    }
}

/// The value in units of a text that, once trimmed of white space, is a decimal number
/// with an optional sign; `None` for any other text.
pub open spec fn decimal_units(s: Seq<u8>) -> Option<int> {
    let t = trimmed(s);
    if t.len() > 0 && t[0] == 45 {
        match unsigned_units(t, 1) {
            Some(v) => Some(-v),
            None => None,
        }
    } else if t.len() > 0 && t[0] == 43 {
        unsigned_units(t, 1)
    } else {
        unsigned_units(t, 0)
    }
}

proof fn lemma_pow10_add(a: nat, b: nat)
    ensures
        pow10(a + b) == pow10(a) * pow10(b),
    decreases a,
{
    if a > 0 {
        lemma_pow10_add((a - 1) as nat, b);
        assert(pow10(a + b) == 10 * pow10((a - 1 + b) as nat));
        assert(10 * (pow10((a - 1) as nat) * pow10(b)) == (10 * pow10((a - 1) as nat)) * pow10(b))
            by (nonlinear_arith);
    }
}

fn pow10_u64(n: usize) -> (r: u64)
    requires
        n <= 18,
    ensures
        r == pow10(n as nat),
{
    let mut r: u64 = 1;
    let mut i: usize = 0;
    while i < n
        invariant
            i <= n <= 18,
            r == pow10(i as nat),
        decreases n - i,
    {
        proof {
            lemma_pow10_small(i as nat);
        }
        r = r * 10;
        i = i + 1;
    }
    r
}

fn unsigned_from(t: &[u8], f: usize) -> (r: Option<i128>)
    requires
        f <= t@.len(),
    ensures
        r matches Some(v) ==> unsigned_units(t@, f as int) == Some(v as int),
        r is None ==> unsigned_units(t@, f as int) is None,
        r matches Some(v) ==> 0 <= v < 2 * ONE * ONE,
{
    let i = scan_digits(t, f);
    proof {
        lemma_digit_run_bounds(t@, f as int);
    }
    let int_len = i - f;
    if i == t.len() {
        if 1 <= int_len && int_len <= 18 {
            let iv = digits_to_u64(t, f, i);
            proof {
                lemma_digits_value_bound(t@.subrange(f as int, i as int));
                lemma_pow10_small(int_len as nat);
                reveal_with_fuel(pow10, 19);
            }
            Some(iv as i128 * ONE)
        } else {
            None
        }
    } else if t[i] == 46 {
        let j = scan_digits(t, i + 1);
        proof {
            lemma_digit_run_bounds(t@, i + 1);
        }
        let frac_len = j - i - 1;
        if j == t.len() && int_len <= 18 && frac_len <= 18 && int_len + frac_len >= 1 {
            let iv = digits_to_u64(t, f, i);
            let fv = digits_to_u64(t, i + 1, j);
            let scale = pow10_u64(18 - frac_len);
            proof {
                lemma_digits_value_bound(t@.subrange(f as int, i as int));
                lemma_digits_value_bound(t@.subrange(i + 1, j as int));
                lemma_pow10_small(int_len as nat);
                lemma_pow10_small(frac_len as nat);
                lemma_pow10_add(frac_len as nat, (18 - frac_len) as nat);
                reveal_with_fuel(pow10, 19);
                assert(fv * scale < pow10(frac_len as nat) * scale) by (nonlinear_arith)
                    requires
                        fv < pow10(frac_len as nat),
                        scale >= 1,
                ;
            }
            let fs = fv * scale;
            Some(iv as i128 * ONE + fs as i128)
        } else {
            None
        }
    } else {
        None
    }
}

impl Number {
    /// The number that `text` spells, if it spells one (see `decimal_units`).
    pub fn parse(text: &[u8]) -> (r: Option<Number>)
        ensures
            r is Some <==> decimal_units(text@) is Some,
            r matches Some(n) ==> decimal_units(text@) == Some(n.units as int),
    {
        let a = scan_space(text, 0);
        let b = scan_space_back(text, a, text.len());
        let t = copy_range(text, a, b);
        assert(t@ == trimmed(text@));
        let ts = t.as_slice();
        if t.len() > 0 && t[0] == 45 {
            match unsigned_from(ts, 1) {
                Some(v) => Some(Number { units: -v }),
                None => None,
            }
        } else if t.len() > 0 && t[0] == 43 {
            match unsigned_from(ts, 1) {
                Some(v) => Some(Number { units: v }),
                None => None,
            }
        } else {
            match unsigned_from(ts, 0) {
                Some(v) => Some(Number { units: v }),
                None => None,
            }
        }
    }
}

} // verus!
