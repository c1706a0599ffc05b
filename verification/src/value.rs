//! Protocol values and their wire encoding.

use vstd::prelude::*;
use crate::ascii::{CR, DIGIT_ONE, DOLLAR, LF, MINUS, PLUS, STAR};
use crate::decimal::{decimal, write_decimal};

verus! {

/// Mathematical content of a protocol value.
pub ghost enum Value {
    SimpleString(Seq<u8>),
    BulkString(Option<Seq<u8>>),
    Array(Seq<Value>),
}

/// The two bytes that end every line of the wire format.
pub open spec fn crlf() -> Seq<u8> {
    seq![CR, LF]
}

/// Wire form of the null bulk string.
pub open spec fn null_bulk() -> Seq<u8> {
    seq![DOLLAR, MINUS, DIGIT_ONE, CR, LF]
}

/// First line of a frame: the type tag, a decimal number, the line end.
pub open spec fn header(tag: u8, n: nat) -> Seq<u8> {
    seq![tag] + decimal(n) + crlf()
}

impl Value {
    /// The one wire form of the value.
    pub open spec fn encoding(self) -> Seq<u8>
        decreases self,
    {
        match self {
            Value::SimpleString(text) => seq![PLUS] + text + crlf(),
            Value::BulkString(None) => null_bulk(),
            Value::BulkString(Some(text)) => header(DOLLAR, text.len()) + text + crlf(),
            Value::Array(items) => header(STAR, items.len()) + encoding_all(items),
        }
    }

    /// The payload where the value is a simple string or a bulk string
    /// that is not null.
    pub open spec fn text(self) -> Option<Seq<u8>> {
        match self {
            Value::SimpleString(text) => Some(text),
            Value::BulkString(text) => text,
            Value::Array(_) => None,
        }
    }

    /// Whether the value holds no simple string at any depth. These are
    /// the values that can be read back from their wire form.
    pub open spec fn bulk_only(self) -> bool
        decreases self,
    {
        match self {
            Value::SimpleString(_) => false,
            Value::BulkString(_) => true,
            Value::Array(items) => forall|i: int|
                0 <= i < items.len() ==> (#[trigger] items[i]).bulk_only(),
        }
    }

    /// Whether every array in the value, at any depth, has a length that
    /// a machine word holds.
    pub open spec fn fits(self) -> bool
        decreases self,
    {
        match self {
            Value::Array(items) => {
                &&& items.len() <= usize::MAX
                &&& forall|i: int| 0 <= i < items.len() ==> (#[trigger] items[i]).fits()
            },
            _ => true,
        }
    }
}

/// Wire forms of the values of a sequence, one after another.
pub open spec fn encoding_all(items: Seq<Value>) -> Seq<u8>
    decreases items,
{
    if items.len() == 0 {
        Seq::empty()
    } else {
        encoding_all(items.drop_last()) + items.last().encoding()
    }
}

/// A protocol value whose payloads borrow from the buffer it was read from.
#[derive(Debug, PartialEq, Eq)]
pub enum DataType<'a> {
    SimpleString(&'a [u8]),
    BulkString(Option<&'a [u8]>),
    Array(Vec<DataType<'a>>),
}

/// Mathematical content of a protocol value in memory.
pub open spec fn content(value: DataType) -> Value
    decreases value,
{
    match value {
        DataType::SimpleString(text) => Value::SimpleString(text@),
        DataType::BulkString(None) => Value::BulkString(None),
        DataType::BulkString(Some(text)) => Value::BulkString(Some(text@)),
        DataType::Array(items) => Value::Array(
            Seq::new(
                items@.len(),
                |i: int|
                    if 0 <= i < items@.len() {
                        content(items@[i])
                    } else {
                        Value::BulkString(None)
                    },
            ),
        ),
    }
}

/// Contents of a sequence of protocol values.
pub open spec fn views<'a>(items: Seq<DataType<'a>>) -> Seq<Value> {
    Seq::new(items.len(), |i: int| items[i]@)
}

impl<'a> View for DataType<'a> {
    type V = Value;

    open spec fn view(&self) -> Value {
        content(*self)
    }
}

impl<'a> DataType<'a> {
    /// A value in memory has arrays that a machine word can count.
    pub proof fn lemma_view_fits(self)
        ensures
            self@.fits(),
        decreases self,
    {
        match self {
            DataType::Array(items) => {
                assert(items.len() <= usize::MAX);
                assert forall|i: int| 0 <= i < items@.len() implies (#[trigger] self@->Array_0[i]).fits() by {
                    items@[i].lemma_view_fits();
                }
            },
            _ => {},
        }
    }

    /// An array's content is the contents of its elements.
    pub proof fn lemma_view_array(items: Vec<DataType<'a>>)
        ensures
            DataType::Array(items)@ == Value::Array(views(items@)),
    {
        assert(DataType::Array(items)@->Array_0 =~= views(items@));
    }

    /// The payload of a simple or non-null bulk string, borrowed.
    pub fn try_extract(&self) -> (r: Option<&'a [u8]>)
        ensures
            match r {
                Some(text) => self@.text() == Some(text@),
                None => self@.text() is None,
            },
    {
        match self {
            DataType::SimpleString(text) => Some(*text),
            DataType::BulkString(text) => *text,
            DataType::Array(_) => None,
        }
    }

    /// The payload of a simple or non-null bulk string, consuming the value.
    pub fn try_take(self) -> (r: Option<&'a [u8]>)
        ensures
            match r {
                Some(text) => self@.text() == Some(text@),
                None => self@.text() is None,
            },
    {
        match self {
            DataType::SimpleString(text) => Some(text),
            DataType::BulkString(text) => text,
            DataType::Array(_) => None,
        }
    }

    /// Appends the wire form of the value.
    pub fn write_to(&self, out: &mut Vec<u8>)
        ensures
            final(out)@ == old(out)@ + self@.encoding(),
        decreases *self,
    {
        match self {
            DataType::SimpleString(text) => {
                out.push(PLUS);
                append(out, text);
                out.push(CR);
                out.push(LF);
            },
            DataType::BulkString(None) => {
                out.push(DOLLAR);
                out.push(MINUS);
                out.push(DIGIT_ONE);
                out.push(CR);
                out.push(LF);
            },
            DataType::BulkString(Some(text)) => {
                out.push(DOLLAR);
                write_decimal(text.len(), out);
                out.push(CR);
                out.push(LF);
                append(out, text);
                out.push(CR);
                out.push(LF);
            },
            DataType::Array(items) => {
                out.push(STAR);
                write_decimal(items.len(), out);
                out.push(CR);
                out.push(LF);
                let ghost start = out@;
                proof {
                    Self::lemma_view_array(*items);
                }
                let mut i: usize = 0;
                while i < items.len()
                    invariant
                        i <= items@.len(),
                        self matches DataType::Array(v) && v == items,
                        out@ == start + encoding_all(views(items@).take(i as int)),
                    decreases items@.len() - i,
                {
                    items[i].write_to(out);
                    proof {
                        let done = views(items@).take(i + 1);
                        assert(done.drop_last() =~= views(items@).take(i as int));
                    }
                    i += 1;
                }
                assert(views(items@).take(i as int) =~= views(items@));
            },
        }
    }

    /// The wire form of the value.
    pub fn to_bytes(&self) -> (r: Vec<u8>)
        ensures
            r@ == self@.encoding(),
    {
        let mut out: Vec<u8> = Vec::new();
        self.write_to(&mut out);
        out
    }
}

/// Appends a copy of `bytes`.
fn append(out: &mut Vec<u8>, bytes: &[u8])
    ensures
        final(out)@ == old(out)@ + bytes@,
{
    let mut i: usize = 0;
    while i < bytes.len()
        invariant
            i <= bytes@.len(),
            out@ == old(out)@ + bytes@.take(i as int),
        decreases bytes@.len() - i,
    {
        out.push(bytes[i]);
        i += 1;
    }
}

} // verus!
