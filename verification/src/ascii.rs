//! Byte-level vocabulary of the wire format: the punctuation bytes, and
//! comparison of byte strings with and without regard to ASCII case.

use vstd::prelude::*;

verus! {

/// Carriage return, the first byte of a line end.
pub const CR: u8 = '\r' as u8;

/// Line feed, the second byte of a line end.
pub const LF: u8 = '\n' as u8;

/// Tag of a simple string, and sign of a number.
pub const PLUS: u8 = '+' as u8;

/// Sign of a negative number.
pub const MINUS: u8 = '-' as u8;

/// Tag of an array.
pub const STAR: u8 = '*' as u8;

/// Tag of a bulk string.
pub const DOLLAR: u8 = '$' as u8;

/// The byte that parts a command word from its arguments.
pub const SPACE: u8 = ' ' as u8;

/// The digit `0`.
pub const DIGIT_ZERO: u8 = '0' as u8;

/// The digit `1`.
pub const DIGIT_ONE: u8 = '1' as u8;

/// The digit `9`.
pub const DIGIT_NINE: u8 = '9' as u8;

/// The first lower-case letter.
pub const LOWER_A: u8 = 'a' as u8;

/// The last lower-case letter.
pub const LOWER_Z: u8 = 'z' as u8;

/// Distance between a lower-case ASCII letter and its upper-case form.
pub const CASE_GAP: u8 = 32;

/// The byte with a lower-case ASCII letter replaced by its upper-case form.
pub open spec fn upper(b: u8) -> u8 {
    if LOWER_A <= b <= LOWER_Z {
        (b - CASE_GAP) as u8
    } else {
        b
    }
}

/// The byte string with every lower-case ASCII letter in upper case.
pub open spec fn upper_all(s: Seq<u8>) -> Seq<u8> {
    Seq::new(s.len(), |i: int| upper(s[i]))
}

/// Whether two byte strings are equal up to ASCII case.
pub open spec fn same_ignoring_case(a: Seq<u8>, b: Seq<u8>) -> bool {
    upper_all(a) == upper_all(b)
}

/// Puts a lower-case ASCII letter in upper case; any other byte stays.
pub fn to_upper(b: u8) -> (r: u8)
    ensures
        r == upper(b),
{
    if LOWER_A <= b && b <= LOWER_Z {
        b - CASE_GAP
    } else {
        b
    }
}

/// Compares two byte strings exactly.
pub fn bytes_eq(a: &[u8], b: &[u8]) -> (r: bool)
    ensures
        r == (a@ == b@),
{
    if a.len() != b.len() {
        return false;
    }
    let mut i: usize = 0;
    while i < a.len()
        invariant
            a@.len() == b@.len(),
            i <= a@.len(),
            forall|j: int| 0 <= j < i ==> a@[j] == b@[j],
        decreases a@.len() - i,
    {
        if a[i] != b[i] {
            return false;
        }
        i += 1;
    }
    assert(a@ =~= b@);
    true
}

/// Compares two byte strings up to ASCII case.
pub fn eq_ignore_case(a: &[u8], b: &[u8]) -> (r: bool)
    ensures
        r == same_ignoring_case(a@, b@),
{
    if a.len() != b.len() {
        assert(upper_all(a@).len() != upper_all(b@).len());
        return false;
    }
    let mut i: usize = 0;
    while i < a.len()
        invariant
            a@.len() == b@.len(),
            i <= a@.len(),
            forall|j: int| 0 <= j < i ==> upper(a@[j]) == upper(b@[j]),
        decreases a@.len() - i,
    {
        if to_upper(a[i]) != to_upper(b[i]) {
            assert(upper_all(a@)[i as int] != upper_all(b@)[i as int]);
            return false;
        }
        i += 1;
    }
    assert(upper_all(a@) =~= upper_all(b@));
    true
}

} // verus!
