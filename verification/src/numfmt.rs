//! Verified decimal rendering of unsigned integers, used wherever a
//! header or status line carries a number.

use vstd::prelude::*;

verus! {

use vstd::string::StringExecFns;

/// The character of one decimal digit.
pub open spec fn digit_chars(d: int) -> Seq<char> {
    if d == 0 {
        "0"@
    } else if d == 1 {
        "1"@
    } else if d == 2 {
        "2"@
    } else if d == 3 {
        "3"@
    } else if d == 4 {
        "4"@
    } else if d == 5 {
        "5"@
    } else if d == 6 {
        "6"@
    } else if d == 7 {
        "7"@
    } else if d == 8 {
        "8"@
    } else {
        "9"@
    }
}

/// The decimal rendering of a non-negative integer, without leading
/// zeros (except for zero itself).
pub open spec fn spec_dec_chars(n: int) -> Seq<char>
    decreases n,
{
    if n < 10 {
        digit_chars(n)
    } else {
        spec_dec_chars(n / 10) + digit_chars(n % 10)
    }
}

fn digit_str(d: u64) -> (r: &'static str)
    requires
        d < 10,
    ensures
        r@ == digit_chars(d as int),
{
    if d == 0 {
        "0"
    } else if d == 1 {
        "1"
    } else if d == 2 {
        "2"
    } else if d == 3 {
        "3"
    } else if d == 4 {
        "4"
    } else if d == 5 {
        "5"
    } else if d == 6 {
        "6"
    } else if d == 7 {
        "7"
    } else if d == 8 {
        "8"
    } else {
        "9"
    }
}

/// Render `n` in decimal.
pub fn u64_to_dec(n: u64) -> (s: String)
    ensures
        s@ == spec_dec_chars(n as int),
    decreases n,
{
    if n < 10 {
        return digit_str(n).to_owned();
    }
    proof {
        assert(n / 10 < n) by (nonlinear_arith)
            requires
                n >= 10,
        ;
        assert(n % 10 < 10) by (nonlinear_arith);
    }
    let mut s = u64_to_dec(n / 10);
    s.append(digit_str(n % 10));
    s
}

/// Render a `usize` in decimal.
pub fn usize_to_dec(n: usize) -> (s: String)
    ensures
        s@ == spec_dec_chars(n as int),
{
    u64_to_dec(n as u64)
}

/// ASCII decimal digit.
pub open spec fn is_digit(b: u8) -> bool {
    48 <= b <= 57
}

/// Every byte is an ASCII decimal digit.
pub open spec fn all_digits(s: Seq<u8>) -> bool {
    forall|i: int| 0 <= i < s.len() ==> is_digit(#[trigger] s[i])
}

/// The numeric value of a digit string.
pub open spec fn spec_dec_value(s: Seq<u8>) -> int
    decreases s.len(),
{
    if s.len() == 0 {
        0
    } else {
        spec_dec_value(s.drop_last()) * 10 + (s.last() - 48)
    }
}

/// Outcome of reading a bounded decimal field.
#[derive(Debug, Clone, Copy, PartialEq, Eq, Structural)]
pub enum BoundedDec {
    /// Empty or not all digits.
    NotNumeric,
    /// A digit string whose value exceeds the bound.
    TooLarge,
    /// The value, within the bound.
    Value(usize),
}

/// Parse a decimal field against an inclusive bound: `NotNumeric` when
/// empty or holding a non-digit, `TooLarge` when the value exceeds the
/// bound, else the value.
pub fn parse_dec_bounded(s: &[u8], bound: usize) -> (r: BoundedDec)
    ensures
        r == (if s@.len() == 0 || !all_digits(s@) {
            BoundedDec::NotNumeric
        } else if spec_dec_value(s@) > bound {
            BoundedDec::TooLarge
        } else {
            BoundedDec::Value(spec_dec_value(s@) as usize)
        }),
{
    if s.len() == 0 {
        return BoundedDec::NotNumeric;
    }
    let bound64: u128 = bound as u128;
    let mut val: u128 = 0;
    let mut over: bool = false;
    let mut i: usize = 0;
    while i < s.len()
        invariant
            i <= s@.len(),
            bound64 == bound,
            all_digits(s@.take(i as int)),
            over == (spec_dec_value(s@.take(i as int)) > bound),
            !over ==> val == spec_dec_value(s@.take(i as int)),
            val <= bound64,
        decreases s@.len() - i,
    {
        let b = s[i];
        if b < 48 || b > 57 {
            return BoundedDec::NotNumeric;
        }
        let d: u128 = (b - 48) as u128;
        let ghost prefix = s@.take(i as int);
        proof {
            assert(s@.take(i + 1).drop_last() =~= prefix);
            assert(s@.take(i + 1).last() == s@[i as int]);
        }
        if over {
            proof {
                assert(spec_dec_value(prefix) * 10 + (s@[i as int] - 48) > bound)
                    by (nonlinear_arith)
                    requires
                        spec_dec_value(prefix) > bound,
                        bound >= 0,
                        s@[i as int] >= 48,
                ;
            }
        } else {
            let next = val * 10 + d;
            if next > bound64 {
                over = true;
            } else {
                val = next;
            }
        }
        i += 1;
    }
    proof {
        assert(s@.take(s@.len() as int) =~= s@);
    }
    if over {
        BoundedDec::TooLarge
    } else {
        BoundedDec::Value(val as usize)
    }
}

/// ASCII hexadecimal digit.
pub open spec fn is_hex_digit(b: u8) -> bool {
    (48 <= b <= 57) || (97 <= b <= 102) || (65 <= b <= 70)
}

/// Value of one hexadecimal digit.
pub open spec fn hex_digit_value(b: u8) -> int {
    if 48 <= b <= 57 {
        b - 48
    } else if 97 <= b <= 102 {
        b - 87
    } else {
        b - 55
    }
}

/// Every byte is an ASCII hexadecimal digit.
pub open spec fn all_hex(s: Seq<u8>) -> bool {
    forall|i: int| 0 <= i < s.len() ==> is_hex_digit(#[trigger] s[i])
}

/// The numeric value of a hexadecimal digit string.
pub open spec fn spec_hex_value(s: Seq<u8>) -> int
    decreases s.len(),
{
    if s.len() == 0 {
        0
    } else {
        spec_hex_value(s.drop_last()) * 16 + hex_digit_value(s.last())
    }
}

/// A hexadecimal digit string's value is non-negative.
pub proof fn lemma_hex_value_nonneg(s: Seq<u8>)
    requires
        all_hex(s),
    ensures
        spec_hex_value(s) >= 0,
    decreases s.len(),
{
    if s.len() > 0 {
        assert(all_hex(s.drop_last())) by {
            assert(forall|i: int|
                0 <= i < s.len() - 1 ==> #[trigger] s.drop_last()[i] == s[i]);
        }
        lemma_hex_value_nonneg(s.drop_last());
    }
}

/// Parse a hexadecimal field against an inclusive bound.
pub fn parse_hex_bounded(s: &[u8], bound: usize) -> (r: BoundedDec)
    ensures
        r == (if s@.len() == 0 || !all_hex(s@) {
            BoundedDec::NotNumeric
        } else if spec_hex_value(s@) > bound {
            BoundedDec::TooLarge
        } else {
            BoundedDec::Value(spec_hex_value(s@) as usize)
        }),
{
    if s.len() == 0 {
        return BoundedDec::NotNumeric;
    }
    let bound128: u128 = bound as u128;
    let mut val: u128 = 0;
    let mut over: bool = false;
    let mut i: usize = 0;
    while i < s.len()
        invariant
            i <= s@.len(),
            bound128 == bound,
            all_hex(s@.take(i as int)),
            over == (spec_hex_value(s@.take(i as int)) > bound),
            !over ==> val == spec_hex_value(s@.take(i as int)),
            val <= bound128,
        decreases s@.len() - i,
    {
        let b = s[i];
        let d: u128 = if b >= 48 && b <= 57 {
            (b - 48) as u128
        } else if b >= 97 && b <= 102 {
            (b - 87) as u128
        } else if b >= 65 && b <= 70 {
            (b - 55) as u128
        } else {
            return BoundedDec::NotNumeric;
        };
        let ghost prefix = s@.take(i as int);
        proof {
            assert(s@.take(i + 1).drop_last() =~= prefix);
            assert(s@.take(i + 1).last() == s@[i as int]);
        }
        if over {
            proof {
                assert(spec_hex_value(prefix) * 16 + hex_digit_value(s@[i as int]) > bound)
                    by (nonlinear_arith)
                    requires
                        spec_hex_value(prefix) > bound,
                        bound >= 0,
                        hex_digit_value(s@[i as int]) >= 0,
                ;
            }
        } else {
            let next = val * 16 + d;
            if next > bound128 {
                over = true;
            } else {
                val = next;
            }
        }
        i += 1;
    }
    proof {
        assert(s@.take(s@.len() as int) =~= s@);
    }
    if over {
        BoundedDec::TooLarge
    } else {
        BoundedDec::Value(val as usize)
    }
}

} // verus!
