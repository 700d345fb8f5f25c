//! Numeric values of ASCII digit strings: the value of a digit run, and
//! a verified reimplementation of integer parsing as `str::parse` does it
//! (optional sign, one or more digits, in range).

use vstd::prelude::*;
use crate::scan::{is_digit, digit};

verus! {

/// The decimal value of a sequence of ASCII digits.
/// Meaningful only when every byte is a digit.
pub open spec fn dec_val(s: Seq<u8>) -> int
    decreases s.len(),
{
    if s.len() == 0 {
        0
    } else {
        dec_val(s.drop_last()) * 10 + s.last() - 48
    }
}

/// The value of a digit string is nonnegative.
pub proof fn lemma_dec_val_nonneg(s: Seq<u8>)
    requires
        forall|j: int| 0 <= j < s.len() ==> is_digit(#[trigger] s[j]),
    ensures
        dec_val(s) >= 0,
    decreases s.len(),
{
    if s.len() > 0 {
        lemma_dec_val_nonneg(s.drop_last());
    }
}

/// A nonempty, all-digit byte string.
pub open spec fn is_dec_digits(s: Seq<u8>) -> bool {
    s.len() > 0 && forall|j: int| 0 <= j < s.len() ==> is_digit(#[trigger] s[j])
}

/// The value of the digit run `s[lo..hi]` as an `i32`, or `None` when it
/// does not fit.
pub fn digits_to_i32(s: &[u8], lo: usize, hi: usize) -> (r: Option<i32>)
    requires
        lo <= hi <= s@.len(),
        forall|j: int| lo <= j < hi ==> is_digit(#[trigger] s@[j]),
    ensures
        r == if dec_val(s@.subrange(lo as int, hi as int)) <= i32::MAX {
            Some(dec_val(s@.subrange(lo as int, hi as int)) as i32)
        } else {
            None::<i32>
        },
{
    let ghost whole = s@.subrange(lo as int, hi as int);
    proof {
        lemma_dec_val_nonneg(whole);
    }
    let mut acc: u64 = 0;
    let mut big: bool = false;
    let mut i: usize = lo;
    while i < hi
        invariant
            lo <= i <= hi <= s@.len(),
            forall|j: int| lo <= j < hi ==> is_digit(#[trigger] s@[j]),
            !big ==> acc == dec_val(s@.subrange(lo as int, i as int)) && acc <= i32::MAX,
            big ==> dec_val(s@.subrange(lo as int, i as int)) > i32::MAX,
        decreases hi - i,
    {
        let d = s[i];
        proof {
            assert(s@.subrange(lo as int, i + 1).drop_last() =~= s@.subrange(lo as int, i as int));
            lemma_dec_val_nonneg(s@.subrange(lo as int, i as int));
        }
        if big {
            // the value only grows as digits are appended
        } else {
            let next = acc * 10 + (d - 48) as u64;
            if next > i32::MAX as u64 {
                big = true;
            } else {
                acc = next;
            }
        }
        i = i + 1;
    }
    proof {
        assert(s@.subrange(lo as int, hi as int) =~= whole);
    }
    if big {
        None
    } else {
        Some(acc as i32)
    }
}

/// What `str::parse::<i64>` accepts: an optional `+` or `-` sign, then one
/// or more digits, with the signed value in range; and the value it yields.
pub open spec fn spec_parse_i64(s: Seq<u8>) -> Option<i64> {
    if s.len() == 0 {
        None
    } else {
        let digits = if s[0] == 43 || s[0] == 45 {
            s.drop_first()
        } else {
            s
        };
        let signed = if s[0] == 45 {
            -dec_val(digits)
        } else {
            dec_val(digits)
        };
        if !is_dec_digits(digits) {
            None
        } else if i64::MIN <= signed <= i64::MAX {
            Some(signed as i64)
        } else {
            None
        }
    }
}

/// Parse a decimal integer as `str::parse::<i64>` does: an optional sign,
/// then digits; `None` on an empty or malformed string and on overflow.
pub fn parse_i64(s: &[u8]) -> (r: Option<i64>)
    ensures
        r == spec_parse_i64(s@),
{
    if s.len() == 0 {
        return None;
    }
    let neg = s[0] == 45;
    let start: usize = if s[0] == 43 || s[0] == 45 {
        1
    } else {
        0
    };
    let ghost digits = if s@[0] == 43 || s@[0] == 45 {
        s@.drop_first()
    } else {
        s@
    };
    proof {
        assert(digits =~= s@.subrange(start as int, s@.len() as int));
    }
    if s.len() == start {
        // a bare sign has no digits
        return None;
    }
    let mut acc: u128 = 0;
    let mut big: bool = false;
    let mut i: usize = start;
    while i < s.len()
        invariant
            start <= i <= s@.len(),
            s@.len() > 0,
            neg == (s@[0] == 45),
            start == if s@[0] == 43 || s@[0] == 45 { 1int } else { 0int },
            digits == s@.subrange(start as int, s@.len() as int),
            digits == if s@[0] == 43 || s@[0] == 45 { s@.drop_first() } else { s@ },
            forall|j: int| start <= j < i ==> is_digit(#[trigger] s@[j]),
            !big ==> acc == dec_val(s@.subrange(start as int, i as int)) && acc
                <= 0x8000_0000_0000_0000u128,
            big ==> dec_val(s@.subrange(start as int, i as int)) > 0x8000_0000_0000_0000,
        decreases s@.len() - i,
    {
        let d = s[i];
        if !digit(d) {
            proof {
                assert(digits[i - start] == s@[i as int]);
                assert(!is_dec_digits(digits));
            }
            return None;
        }
        proof {
            assert(s@.subrange(start as int, i + 1).drop_last() =~= s@.subrange(
                start as int,
                i as int,
            ));
            lemma_dec_val_nonneg(s@.subrange(start as int, i as int));
        }
        if big {
            // the value only grows as digits are appended
        } else {
            let next = acc * 10 + (d - 48) as u128;
            if next > 0x8000_0000_0000_0000u128 {
                big = true;
            } else {
                acc = next;
            }
        }
        i = i + 1;
    }
    proof {
        assert(s@.subrange(start as int, s@.len() as int) =~= digits);
        assert(is_dec_digits(digits));
    }
    if big {
        None
    } else if neg {
        if acc == 0x8000_0000_0000_0000u128 {
            Some(i64::MIN)
        } else {
            Some(-(acc as i64))
        }
    } else {
        if acc == 0x8000_0000_0000_0000u128 {
            None
        } else {
            Some(acc as i64)
        }
    }
}

} // verus!
