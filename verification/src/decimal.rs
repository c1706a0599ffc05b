//! Decimal text of the counts and lengths that frame the wire format.

use vstd::prelude::*;
use crate::ascii::{DIGIT_NINE, DIGIT_ZERO, MINUS, PLUS};

verus! {

/// Whether the byte is a decimal digit.
pub open spec fn is_digit(b: u8) -> bool {
    DIGIT_ZERO <= b <= DIGIT_NINE
}

/// A non-empty run of decimal digits.
pub open spec fn is_number(s: Seq<u8>) -> bool {
    s.len() > 0 && forall|i: int| 0 <= i < s.len() ==> is_digit(#[trigger] s[i])
}

/// The number that a run of decimal digits denotes, leading zeros allowed.
pub open spec fn digits_value(s: Seq<u8>) -> nat
    decreases s.len(),
{
    if s.len() == 0 {
        0
    } else {
        digits_value(s.drop_last()) * 10 + (s.last() - DIGIT_ZERO) as nat
    }
}

/// The shortest decimal text of `n`.
pub open spec fn decimal(n: nat) -> Seq<u8>
    decreases n,
{
    if n < 10 {
        seq![(DIGIT_ZERO + n) as u8]
    } else {
        decimal(n / 10).push((DIGIT_ZERO + n % 10) as u8)
    }
}

/// Reading of an unsigned number: an optional `+`, then digits.
pub open spec fn parse_unsigned(s: Seq<u8>) -> Option<nat> {
    let digits = if s.len() > 0 && s[0] == PLUS {
        s.skip(1)
    } else {
        s
    };
    if is_number(digits) {
        Some(digits_value(digits))
    } else {
        None
    }
}

/// Reading of a signed number: an optional `+` or `-`, then digits.
pub open spec fn parse_signed(s: Seq<u8>) -> Option<int> {
    if s.len() > 0 && s[0] == MINUS {
        if is_number(s.skip(1)) {
            Some(-(digits_value(s.skip(1)) as int))
        } else {
            None
        }
    } else {
        match parse_unsigned(s) {
            Some(n) => Some(n as int),
            None => None,
        }
    }
}

/// Appending a digit multiplies the value by ten and adds the digit.
pub proof fn lemma_digits_value_push(s: Seq<u8>, d: u8)
    ensures
        digits_value(s.push(d)) == digits_value(s) * 10 + (d - DIGIT_ZERO) as nat,
{
    assert(s.push(d).drop_last() =~= s);
}

/// The decimal text of a number is a run of digits that denotes it, and
/// reads back as that number with or without a sign in view.
pub proof fn lemma_decimal_reads_back(n: nat)
    ensures
        is_number(decimal(n)),
        digits_value(decimal(n)) == n,
        parse_unsigned(decimal(n)) == Some(n),
        parse_signed(decimal(n)) == Some(n as int),
    decreases n,
{
    if n < 10 {
        let s = seq![(DIGIT_ZERO + n) as u8];
        assert(digits_value(s.drop_last()) == 0);
    } else {
        lemma_decimal_reads_back(n / 10);
        lemma_digits_value_push(decimal(n / 10), (DIGIT_ZERO + n % 10) as u8);
    }
}

/// Reads a run of digits; `None` where the text is no such run or the
/// number does not fit in 64 bits.
pub fn read_digits(s: &[u8]) -> (r: Option<u64>)
    ensures
        r == (if is_number(s@) && digits_value(s@) <= u64::MAX {
            Some(digits_value(s@) as u64)
        } else {
            None
        }),
{
    if s.len() == 0 {
        return None;
    }
    let mut value: u64 = 0;
    let mut i: usize = 0;
    while i < s.len()
        invariant
            i <= s@.len(),
            forall|j: int| 0 <= j < i ==> is_digit(#[trigger] s@[j]),
            value == digits_value(s@.take(i as int)),
        decreases s@.len() - i,
    {
        let b = s[i];
        if b < DIGIT_ZERO || b > DIGIT_NINE {
            return None;
        }
        proof {
            assert(s@.take(i + 1).drop_last() =~= s@.take(i as int));
            lemma_digits_value_monotone(s@, i + 1);
        }
        let d: u64 = (b - DIGIT_ZERO) as u64;
        let next = match value.checked_mul(10) {
            Some(tens) => tens.checked_add(d),
            None => None,
        };
        match next {
            Some(v) => {
                value = v;
            },
            None => {
                return None;
            },
        }
        i += 1;
    }
    assert(s@.take(i as int) =~= s@);
    Some(value)
}

/// A prefix of a run of digits denotes no more than the whole run.
pub proof fn lemma_digits_value_monotone(s: Seq<u8>, k: int)
    requires
        0 <= k <= s.len(),
    ensures
        digits_value(s.take(k)) <= digits_value(s),
    decreases s.len() - k,
{
    if k == s.len() {
        assert(s.take(k) =~= s);
    } else {
        lemma_digits_value_monotone(s, k + 1);
        assert(s.take(k + 1).drop_last() =~= s.take(k));
    }
}

/// Reads an unsigned number that fits in 64 bits.
pub fn read_u64(s: &[u8]) -> (r: Option<u64>)
    ensures
        r == (match parse_unsigned(s@) {
            Some(n) if n <= u64::MAX => Some(n as u64),
            _ => None,
        }),
{
    if s.len() > 0 && s[0] == PLUS {
        let digits = vstd::slice::slice_subrange(s, 1, s.len());
        read_digits(digits)
    } else {
        read_digits(s)
    }
}

/// Reads an unsigned number that fits in a machine word.
pub fn read_usize(s: &[u8]) -> (r: Option<usize>)
    ensures
        r == (match parse_unsigned(s@) {
            Some(n) if n <= usize::MAX => Some(n as usize),
            _ => None,
        }),
{
    match read_u64(s) {
        Some(v) => {
            if v <= usize::MAX as u64 {
                Some(v as usize)
            } else {
                None
            }
        },
        None => None,
    }
}

/// Appends the decimal text of `n`.
pub fn write_decimal(n: usize, out: &mut Vec<u8>)
    ensures
        final(out)@ == old(out)@ + decimal(n as nat),
    decreases n,
{
    if n >= 10 {
        write_decimal(n / 10, out);
    }
    out.push(DIGIT_ZERO + (n % 10) as u8);
}

} // verus!
