//! Laws that tie the decoder to the encoder.

use vstd::prelude::*;
use crate::ascii::{DIGIT_ONE, DOLLAR, MINUS, STAR};
use crate::decimal::{decimal, digits_value, lemma_decimal_reads_back, parse_unsigned};
use crate::decode::{
    after_payload, decode_items, decode_spec, first_crlf, is_first_crlf, lemma_decode_items_step,
    lemma_decode_shrinks, DecodeError,
};
use crate::value::{crlf, encoding_all, header, DataType, Value};

verus! {

/// The first line of a frame ends at the line end of its header: the
/// tag and the digits before it hold none.
pub proof fn lemma_header_line(tag: u8, n: nat, rest: Seq<u8>)
    requires
        tag == STAR || tag == DOLLAR,
    ensures
        first_crlf(header(tag, n) + rest) == Some(1 + decimal(n).len() as int),
        (header(tag, n) + rest).take(1 + decimal(n).len() as int) == seq![tag] + decimal(n),
        (header(tag, n) + rest).skip(3 + decimal(n).len() as int) == rest,
{
    let buf = header(tag, n) + rest;
    let i = 1 + decimal(n).len() as int;
    lemma_decimal_reads_back(n);
    assert(is_first_crlf(buf, i));
}

/// The wire forms of a non-empty sequence are the wire form of its
/// first value and then those of the others.
pub proof fn lemma_encoding_all_front(items: Seq<Value>)
    requires
        items.len() > 0,
    ensures
        encoding_all(items) == items[0].encoding() + encoding_all(items.skip(1)),
    decreases items.len(),
{
    if items.len() == 1 {
        assert(items.drop_last() =~= Seq::<Value>::empty());
        assert(items.skip(1) =~= Seq::<Value>::empty());
        assert(encoding_all(items) =~= items[0].encoding() + encoding_all(items.skip(1)));
    } else {
        lemma_encoding_all_front(items.drop_last());
        assert(items.drop_last().skip(1) =~= items.skip(1).drop_last());
    }
}

/// Reading the wire form of a value that holds no simple string gives
/// the value back and leaves what followed the wire form.
pub proof fn lemma_decode_after_encode(value: Value, suffix: Seq<u8>)
    requires
        value.bulk_only(),
        value.fits(),
    ensures
        decode_spec(value.encoding() + suffix) == Ok::<(Value, Seq<u8>), DecodeError>(
            (value, suffix),
        ),
    decreases value, 0nat,
{
    let buf = value.encoding() + suffix;
    match value {
        Value::SimpleString(_) => {},
        Value::BulkString(None) => {
            let digits = seq![MINUS, DIGIT_ONE];
            assert(is_first_crlf(buf, 3));
            assert(buf.take(3).skip(1) =~= digits);
            assert(digits_value(digits.skip(1).drop_last()) == 0);
            assert(buf.skip(5) =~= suffix);
        },
        Value::BulkString(Some(text)) => {
            let rest = text + crlf() + suffix;
            assert(buf =~= header(DOLLAR, text.len()) + rest);
            lemma_header_line(DOLLAR, text.len(), rest);
            lemma_decimal_reads_back(text.len());
            assert((seq![DOLLAR] + decimal(text.len())).skip(1) =~= decimal(text.len()));
            assert(rest.take(text.len() as int) =~= text);
            assert(after_payload(rest, text.len() as int) =~= suffix);
        },
        Value::Array(items) => {
            let rest = encoding_all(items) + suffix;
            assert(buf =~= header(STAR, items.len()) + rest);
            lemma_header_line(STAR, items.len(), rest);
            lemma_decimal_reads_back(items.len());
            assert((seq![STAR] + decimal(items.len())).skip(1) =~= decimal(items.len()));
            lemma_decode_all_after_encode(items, 0, suffix);
            assert(items.skip(0) =~= items);
        },
    }
}

/// Reading as many values as were written, from their wire forms, gives
/// them back and leaves what followed.
pub proof fn lemma_decode_all_after_encode(items: Seq<Value>, from: int, suffix: Seq<u8>)
    requires
        0 <= from <= items.len(),
        forall|i: int| 0 <= i < items.len() ==> (#[trigger] items[i]).bulk_only(),
        forall|i: int| 0 <= i < items.len() ==> (#[trigger] items[i]).fits(),
    ensures
        decode_items(encoding_all(items.skip(from)) + suffix, (items.len() - from) as nat) == Ok::<
            (Seq<Value>, Seq<u8>),
            DecodeError,
        >((items.skip(from), suffix)),
    decreases items, items.len() - from,
{
    let left = items.skip(from);
    if from == items.len() {
        assert(left =~= Seq::<Value>::empty());
    } else {
        let buf = encoding_all(left) + suffix;
        let after = encoding_all(left.skip(1)) + suffix;
        lemma_encoding_all_front(left);
        assert(buf =~= left[0].encoding() + after);
        lemma_decode_after_encode(items[from], after);
        assert(left.skip(1) =~= items.skip(from + 1));
        lemma_decode_all_after_encode(items, from + 1, suffix);
        assert(seq![items[from]] + items.skip(from + 1) =~= left);
    }
}

/// Decoding inverts encoding: the wire form of a value that holds no
/// simple string decodes to that value, with nothing left over.
pub proof fn law_decode_inverts_encode(value: DataType)
    requires
        value@.bulk_only(),
    ensures
        decode_spec(value@.encoding()) == Ok::<(Value, Seq<u8>), DecodeError>(
            (value@, Seq::empty()),
        ),
{
    value.lemma_view_fits();
    lemma_decode_after_encode(value@, Seq::empty());
}

/// An array that announces more values than follow it cannot be read:
/// once the values that are present have been read, no line end is left
/// to start the next one. A count beyond what a machine word holds is
/// refused as a count.
pub proof fn law_short_array_is_refused(items: Seq<Value>, count: nat)
    requires
        items.len() < count,
        forall|i: int| 0 <= i < items.len() ==> (#[trigger] items[i]).bulk_only(),
        forall|i: int| 0 <= i < items.len() ==> (#[trigger] items[i]).fits(),
    ensures
        decode_spec(header(STAR, count) + encoding_all(items)) == Err::<
            (Value, Seq<u8>),
            DecodeError,
        >(
            if count <= usize::MAX {
                DecodeError::MissingDelimiter
            } else {
                DecodeError::InvalidCount
            },
        ),
{
    let rest = encoding_all(items);
    lemma_header_line(STAR, count, rest);
    lemma_decimal_reads_back(count);
    assert((seq![STAR] + decimal(count)).skip(1) =~= decimal(count));
    if count <= usize::MAX {
        lemma_items_run_out(items, 0, count);
        assert(items.skip(0) =~= items);
    }
}

/// Reading more values than were written fails for want of a line end.
proof fn lemma_items_run_out(items: Seq<Value>, from: int, count: nat)
    requires
        0 <= from <= items.len(),
        items.len() - from < count,
        forall|i: int| 0 <= i < items.len() ==> (#[trigger] items[i]).bulk_only(),
        forall|i: int| 0 <= i < items.len() ==> (#[trigger] items[i]).fits(),
    ensures
        decode_items(encoding_all(items.skip(from)), count) == Err::<
            (Seq<Value>, Seq<u8>),
            DecodeError,
        >(DecodeError::MissingDelimiter),
    decreases items.len() - from,
{
    let left = items.skip(from);
    let buf = encoding_all(left);
    lemma_decode_items_step(buf, count);
    if from < items.len() {
        let after = encoding_all(left.skip(1));
        lemma_encoding_all_front(left);
        lemma_decode_after_encode(items[from], after);
        assert(left.skip(1) =~= items.skip(from + 1));
        lemma_items_run_out(items, from + 1, (count - 1) as nat);
    }
}

/// The wire form is unambiguous: two values that hold no simple string
/// and have the same wire form are the same value.
pub proof fn law_encoding_is_unambiguous(a: DataType, b: DataType)
    requires
        a@.bulk_only(),
        b@.bulk_only(),
        a@.encoding() == b@.encoding(),
    ensures
        a@ == b@,
{
    law_decode_inverts_encode(a);
    law_decode_inverts_encode(b);
}

/// The decoder reads no simple string: a value that it reads holds none,
/// at any depth, and its arrays have lengths that a machine word holds.
pub proof fn law_decoded_value_is_bulk_only(buf: Seq<u8>)
    ensures
        decode_spec(buf) matches Ok((value, _)) ==> value.bulk_only() && value.fits(),
    decreases buf.len(), 0nat,
{
    if let Some(i) = first_crlf(buf) {
        let head = buf.take(i);
        let tail = buf.skip(i + 2);
        if head.len() > 0 && head[0] == STAR {
            if let Some(n) = parse_unsigned(head.skip(1)) {
                lemma_decoded_items_are_bulk_only(tail, n);
            }
        }
    }
}

/// Values that the decoder reads one after another hold no simple
/// string, and there are as many of them as were asked for.
proof fn lemma_decoded_items_are_bulk_only(buf: Seq<u8>, n: nat)
    ensures
        decode_items(buf, n) matches Ok((items, _)) ==> {
            &&& items.len() == n
            &&& forall|i: int| 0 <= i < items.len() ==> (#[trigger] items[i]).bulk_only()
            &&& forall|i: int| 0 <= i < items.len() ==> (#[trigger] items[i]).fits()
        },
    decreases buf.len(), n + 1,
{
    if n > 0 {
        lemma_decode_shrinks(buf);
        law_decoded_value_is_bulk_only(buf);
        if let Ok((_, rest)) = decode_spec(buf) {
            lemma_decoded_items_are_bulk_only(rest, (n - 1) as nat);
        }
    }
}

} // verus!
