//! Reading protocol values from wire bytes.

use vstd::prelude::*;
use vstd::slice::slice_subrange;
use crate::ascii::{CR, DOLLAR, LF, MINUS, STAR};
use crate::decimal::{parse_signed, parse_unsigned, read_digits, read_usize};
use crate::value::{views, DataType, Value};

verus! {

/// Why a buffer does not start with a frame.
#[derive(Debug, Clone, Copy, PartialEq, Eq, Structural)]
pub enum DecodeError {
    /// No line end closes the frame's first line.
    MissingDelimiter,
    /// The first line does not start with the tag of an array or of a
    /// bulk string.
    UnknownType,
    /// An array's count is no unsigned number that a machine word holds.
    InvalidCount,
    /// A bulk string's length is no number, is negative without being
    /// the null marker, or exceeds the bytes that follow.
    InvalidLength,
}

/// Whether a line end stands at index `i`.
pub open spec fn crlf_at(buf: Seq<u8>, i: int) -> bool {
    0 <= i && i + 1 < buf.len() && buf[i] == CR && buf[i + 1] == LF
}

/// Whether the first line end of the buffer stands at index `i`.
pub open spec fn is_first_crlf(buf: Seq<u8>, i: int) -> bool {
    crlf_at(buf, i) && forall|j: int| 0 <= j < i ==> !crlf_at(buf, j)
}

/// Index of the first line end, if there is one.
pub open spec fn first_crlf(buf: Seq<u8>) -> Option<int> {
    if exists|i: int| is_first_crlf(buf, i) {
        Some(choose|i: int| is_first_crlf(buf, i))
    } else {
        None
    }
}

/// What follows a payload of `len` bytes: the line end that closes the
/// payload is skipped where it is present.
pub open spec fn after_payload(tail: Seq<u8>, len: int) -> Seq<u8> {
    if crlf_at(tail, len) {
        tail.skip(len + 2)
    } else {
        tail.skip(len)
    }
}

/// The array of the values that were read.
pub open spec fn array_of(items: Result<(Seq<Value>, Seq<u8>), DecodeError>) -> Result<
    (Value, Seq<u8>),
    DecodeError,
> {
    match items {
        Ok((items, rest)) => Ok((Value::Array(items), rest)),
        Err(e) => Err(e),
    }
}

/// The value that a buffer starts with and the bytes that follow it.
///
/// The first line, up to the first line end, holds a tag and a number.
/// After `*` the number is a count, and that many values follow. After
/// `$` it is a length: `-1` stands for the null bulk string, and any
/// other length for that many payload bytes.
pub open spec fn decode_spec(buf: Seq<u8>) -> Result<(Value, Seq<u8>), DecodeError>
    decreases buf.len(), 0nat,
{
    match first_crlf(buf) {
        None => Err(DecodeError::MissingDelimiter),
        Some(i) => {
            let head = buf.take(i);
            let tail = buf.skip(i + 2);
            if head.len() > 0 && head[0] == STAR {
                match parse_unsigned(head.skip(1)) {
                    Some(n) if n <= usize::MAX => array_of(decode_items(tail, n)),
                    _ => Err(DecodeError::InvalidCount),
                }
            } else if head.len() > 0 && head[0] == DOLLAR {
                match parse_signed(head.skip(1)) {
                    Some(len) if len == -1 => Ok((Value::BulkString(None), tail)),
                    Some(len) if 0 <= len <= tail.len() => Ok(
                        (Value::BulkString(Some(tail.take(len))), after_payload(tail, len)),
                    ),
                    _ => Err(DecodeError::InvalidLength),
                }
            } else {
                Err(DecodeError::UnknownType)
            }
        },
    }
}

/// The `n` values that a buffer starts with, one after another, and the
/// bytes that follow the last; the error of the first that cannot be read.
///
/// A value that is read leaves fewer bytes than it was read from (see
/// `lemma_decode_shrinks`). The test of that never fails; it shows that
/// the definition ends.
pub open spec fn decode_items(buf: Seq<u8>, n: nat) -> Result<(Seq<Value>, Seq<u8>), DecodeError>
    decreases buf.len(), n + 1,
{
    if n == 0 {
        Ok((Seq::empty(), buf))
    } else {
        match decode_spec(buf) {
            Err(e) => Err(e),
            Ok((first, rest)) => if rest.len() <= buf.len() {
                prepend(seq![first], decode_items(rest, (n - 1) as nat))
            } else {
                Err(DecodeError::MissingDelimiter)
            },
        }
    }
}

/// The values read so far, followed by what the rest of the reading gives.
pub open spec fn prepend(
    done: Seq<Value>,
    more: Result<(Seq<Value>, Seq<u8>), DecodeError>,
) -> Result<(Seq<Value>, Seq<u8>), DecodeError> {
    match more {
        Ok((items, rest)) => Ok((done + items, rest)),
        Err(e) => Err(e),
    }
}

/// An index at which a line end stands, with none before it, is the
/// index of the first line end.
pub proof fn lemma_first_crlf(buf: Seq<u8>, i: int)
    requires
        is_first_crlf(buf, i),
    ensures
        first_crlf(buf) == Some(i),
{
}

/// A value that is read leaves fewer bytes than it was read from.
pub proof fn lemma_decode_shrinks(buf: Seq<u8>)
    ensures
        decode_spec(buf) matches Ok((_, rest)) ==> rest.len() < buf.len(),
    decreases buf.len(), 0nat,
{
    if let Some(i) = first_crlf(buf) {
        let head = buf.take(i);
        let tail = buf.skip(i + 2);
        if head.len() > 0 && head[0] == STAR {
            if let Some(n) = parse_unsigned(head.skip(1)) {
                lemma_items_shrink(tail, n);
            }
        }
    }
}

/// Values that are read leave no more bytes than they were read from.
pub proof fn lemma_items_shrink(buf: Seq<u8>, n: nat)
    ensures
        decode_items(buf, n) matches Ok((_, rest)) ==> rest.len() <= buf.len(),
    decreases buf.len(), n + 1,
{
    if n > 0 {
        lemma_decode_shrinks(buf);
        if let Ok((_, rest)) = decode_spec(buf) {
            lemma_items_shrink(rest, (n - 1) as nat);
        }
    }
}

/// Reading `n` values is reading one and then the others.
pub proof fn lemma_decode_items_step(buf: Seq<u8>, n: nat)
    requires
        n > 0,
    ensures
        decode_items(buf, n) == (match decode_spec(buf) {
            Ok((first, rest)) => prepend(seq![first], decode_items(rest, (n - 1) as nat)),
            Err(e) => Err(e),
        }),
{
    lemma_decode_shrinks(buf);
}

/// Finds the first line end.
pub fn find_crlf(buf: &[u8]) -> (r: Option<usize>)
    ensures
        match r {
            Some(i) => first_crlf(buf@) == Some(i as int),
            None => first_crlf(buf@) is None,
        },
{
    if buf.len() < 2 {
        return None;
    }
    let mut i: usize = 0;
    while i < buf.len() - 1
        invariant
            buf@.len() >= 2,
            i <= buf@.len() - 1,
            forall|j: int| 0 <= j < i ==> !crlf_at(buf@, j),
        decreases buf@.len() - i,
    {
        if buf[i] == CR && buf[i + 1] == LF {
            proof {
                lemma_first_crlf(buf@, i as int);
            }
            return Some(i);
        }
        i += 1;
    }
    None
}

impl<'a> DataType<'a> {
    /// Reads the value that the buffer starts with and returns it with the
    /// bytes that follow it.
    pub fn chainparse(s: &'a [u8]) -> (r: Result<(DataType<'a>, &'a [u8]), DecodeError>)
        ensures
            match r {
                Ok((value, rest)) => decode_spec(s@) == Ok::<(Value, Seq<u8>), DecodeError>(
                    (value@, rest@),
                ),
                Err(e) => decode_spec(s@) == Err::<(Value, Seq<u8>), DecodeError>(e),
            },
        decreases s@.len(),
    {
        let i = match find_crlf(s) {
            Some(i) => i,
            None => {
                return Err(DecodeError::MissingDelimiter);
            },
        };
        assert(i + 2 <= s.len());
        let head = slice_subrange(s, 0, i);
        let tail = slice_subrange(s, i + 2, s.len());
        if head.len() == 0 {
            return Err(DecodeError::UnknownType);
        }
        let digits = slice_subrange(head, 1, head.len());
        if head[0] == STAR {
            let n = match read_usize(digits) {
                Some(n) => n,
                None => {
                    return Err(DecodeError::InvalidCount);
                },
            };
            let mut items: Vec<DataType<'a>> = Vec::new();
            let mut rest = tail;
            let mut k: usize = 0;
            while k < n
                invariant
                    k <= n,
                    rest@.len() <= tail@.len(),
                    tail@.len() < s@.len(),
                    decode_spec(s@) == array_of(decode_items(tail@, n as nat)),
                    decode_items(tail@, n as nat) == prepend(
                        views(items@),
                        decode_items(rest@, (n - k) as nat),
                    ),
                decreases n - k,
            {
                proof {
                    lemma_decode_shrinks(rest@);
                }
                match Self::chainparse(rest) {
                    Ok((item, after)) => {
                        proof {
                            let more = decode_items(after@, (n - k - 1) as nat);
                            if let Ok((others, end)) = more {
                                assert(views(items@.push(item)) + others =~= views(items@) + (
                                seq![item@] + others));
                            }
                        }
                        items.push(item);
                        rest = after;
                    },
                    Err(e) => {
                        return Err(e);
                    },
                }
                k += 1;
            }
            proof {
                Self::lemma_view_array(items);
            }
            Ok((DataType::Array(items), rest))
        } else if head[0] == DOLLAR {
            if digits.len() > 0 && digits[0] == MINUS {
                let magnitude = slice_subrange(digits, 1, digits.len());
                match read_digits(magnitude) {
                    Some(1) => Ok((DataType::BulkString(None), tail)),
                    Some(0) => {
                        let (payload, rest) = Self::split_payload(tail, 0);
                        Ok((DataType::BulkString(Some(payload)), rest))
                    },
                    _ => Err(DecodeError::InvalidLength),
                }
            } else {
                match read_usize(digits) {
                    Some(len) => {
                        if len <= tail.len() {
                            let (payload, rest) = Self::split_payload(tail, len);
                            Ok((DataType::BulkString(Some(payload)), rest))
                        } else {
                            Err(DecodeError::InvalidLength)
                        }
                    },
                    None => Err(DecodeError::InvalidLength),
                }
            }
        } else {
            Err(DecodeError::UnknownType)
        }
    }

    /// Splits off a payload of `len` bytes and the line end that closes it.
    fn split_payload(tail: &'a [u8], len: usize) -> (r: (&'a [u8], &'a [u8]))
        requires
            len <= tail@.len(),
        ensures
            r.0@ == tail@.take(len as int),
            r.1@ == after_payload(tail@, len as int),
    {
        let payload = slice_subrange(tail, 0, len);
        let closed = tail.len() - len >= 2 && tail[len] == CR && tail[len + 1] == LF;
        let rest = if closed {
            slice_subrange(tail, len + 2, tail.len())
        } else {
            slice_subrange(tail, len, tail.len())
        };
        (payload, rest)
    }

    /// Reads the value that the buffer starts with; what follows it is
    /// left unread.
    pub fn try_from(s: &'a [u8]) -> (r: Result<DataType<'a>, DecodeError>)
        ensures
            match r {
                Ok(value) => decode_spec(s@) matches Ok((v, _)) && v == value@,
                Err(e) => decode_spec(s@) == Err::<(Value, Seq<u8>), DecodeError>(e),
            },
    {
        match Self::chainparse(s) {
            Ok((value, _)) => Ok(value),
            Err(e) => Err(e),
        }
    }
}

} // verus!
