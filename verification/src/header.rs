//! Item headers, and the error for a header that does not fit.

use vstd::prelude::*;

use ciborium_ll::{Decoder, Header as Item};
use serde::de::value::Error as Message;
use serde::de::Error as _;
use serde::de::Unexpected as Found;

use crate::error::{Error, Fault};

verus! {

/// The simple value `false`.
pub const FALSE: u8 = 20;

/// The simple value `true`.
pub const TRUE: u8 = 21;

/// The simple value `null`.
pub const NULL: u8 = 22;

/// The simple value `undefined`.
pub const UNDEFINED: u8 = 23;

/// The tag of a byte string that holds a non-negative integer.
pub const BIGPOS: u64 = 2;

/// The tag of a byte string that holds a negative integer.
pub const BIGNEG: u64 = 3;

/// The header of a CBOR item.
#[derive(Debug, Clone, Copy, PartialEq, Eq)]
pub enum Header {
    /// A non-negative integer.
    Positive(u64),
    /// A negative integer: `Negative(n)` stands for `-1 - n`.
    Negative(u64),
    /// A floating point number, by the bits of its double precision form.
    Float(u64),
    /// A simple value.
    Simple(u8),
    /// A tag on the item that follows.
    Tag(u64),
    /// The end of an item of indefinite length.
    Break,
    /// A byte string with its length, or in segments.
    Bytes(Option<usize>),
    /// A text string with its length in bytes, or in segments.
    Text(Option<usize>),
    /// An array with its number of elements, or up to a break.
    Array(Option<usize>),
    /// A map with its number of pairs, or up to a break.
    Mapping(Option<usize>),
}

/// Whether these are the bits of a double that is not a number.
pub open spec fn is_nan(bits: u64) -> bool {
    bits as int % 0x8000_0000_0000_0000 > 0x7ff0_0000_0000_0000
}

/// The bits of a double, with one pattern for all that are not a number: the
/// pattern that comes out of a conversion differs between machines.
pub open spec fn canonical(bits: u64) -> u64 {
    if is_nan(bits) {
        0x7ff8_0000_0000_0000
    } else {
        bits
    }
}

impl View for Header {
    type V = Header;

    /// The header itself, with [`canonical`] bits in a float.
    open spec fn view(&self) -> Header {
        match *self {
            Header::Float(bits) => Header::Float(canonical(bits)),
            header => header,
        }
    }
}

/// What an item turned out to be, for the message about it.
#[derive(Debug, Clone, Copy, PartialEq, Eq)]
pub enum Unexpected {
    Bool(bool),
    Unsigned(u64),
    Signed(i64),
    /// A floating point number, by the bits of its double precision form.
    Float(u64),
    Sequence,
    Mapping,
    /// Anything else, by a noun.
    Other(&'static str),
}

impl View for Unexpected {
    type V = Unexpected;

    /// The value itself, with [`canonical`] bits in a float.
    open spec fn view(&self) -> Unexpected {
        match *self {
            Unexpected::Float(bits) => Unexpected::Float(canonical(bits)),
            unexpected => unexpected,
        }
    }
}

/// The message that names what was found and what was expected instead.
pub uninterp spec fn invalid_type_message(found: Unexpected, expected: Seq<char>) -> Seq<char>;

/// The message of `serde::de::Error::invalid_type`, as `serde::de::value::Error`
/// keeps it. The claim is that it depends on nothing but the two arguments, and
/// on no more of a float that is not a number than that it is none.
///
/// A double is put back together from its bits by `ciborium_ll::Decoder::pull`.
#[verifier::external_body]
fn invalid_type(found: Unexpected, expected: &str) -> (message: String)
    ensures
        message@ == invalid_type_message(found@, expected@),
{
    let double = |x: u64| Decoder::from(&[&[0xfb], &x.to_be_bytes()[..]].concat()[..]).pull();
    let found = match found {
        Unexpected::Bool(x) => Found::Bool(x),
        Unexpected::Unsigned(x) => Found::Unsigned(x),
        Unexpected::Signed(x) => Found::Signed(x),
        Unexpected::Float(x) => match double(x) {
            Ok(Item::Float(x)) => Found::Float(x),
            _ => Found::Unsigned(x),
        },
        Unexpected::Sequence => Found::Seq,
        Unexpected::Mapping => Found::Map,
        Unexpected::Other(x) => Found::Other(x),
    };
    Message::invalid_type(found, &expected).to_string()
}

/// What the item under a header is called when it was not expected.
///
/// A negative integer is shown as a signed 64-bit number, so one below the
/// least of these is shown with its bits cut to 64.
pub open spec fn unexpected(header: Header) -> Unexpected {
    match header {
        Header::Positive(x) => Unexpected::Unsigned(x),
        Header::Negative(x) => Unexpected::Signed(
            if x <= i64::MAX {
                (-1 - x) as i64
            } else {
                (u64::MAX - x) as i64
            },
        ),
        Header::Bytes(_) => Unexpected::Other("bytes"),
        Header::Text(_) => Unexpected::Other("string"),
        Header::Array(_) => Unexpected::Sequence,
        Header::Mapping(_) => Unexpected::Mapping,
        Header::Tag(_) => Unexpected::Other("tag"),
        Header::Simple(FALSE) => Unexpected::Bool(false),
        Header::Simple(TRUE) => Unexpected::Bool(true),
        Header::Simple(NULL) => Unexpected::Other("null"),
        Header::Simple(UNDEFINED) => Unexpected::Other("undefined"),
        Header::Simple(_) => Unexpected::Other("simple"),
        Header::Float(x) => Unexpected::Float(x),
        Header::Break => Unexpected::Other("break"),
    }
}

/// The fault of finding `header` where a `kind` was expected.
pub open spec fn expected(header: Header, kind: Seq<char>) -> Fault {
    Fault::Semantic(None, invalid_type_message(unexpected(header), kind))
}

impl Header {
    /// The error of finding this header where a `kind` was expected.
    pub fn expected(self, kind: &str) -> (error: Error)
        ensures
            error@ == expected(self@, kind@),
    {
        let found = match self {
            Header::Positive(x) => Unexpected::Unsigned(x),
            Header::Negative(x) => {
                let signed: i64 = #[verifier::truncate] (x as i64) ^ !0;
                assert(x <= 0x7fff_ffff_ffff_ffff ==> (x as i64) ^ !0i64 == -1 - x) by (bit_vector);
                assert(x > 0x7fff_ffff_ffff_ffff ==> (x as i64) ^ !0i64 == 0xffff_ffff_ffff_ffff - x)
                    by (bit_vector);
                Unexpected::Signed(signed)
            },
            Header::Bytes(_) => Unexpected::Other("bytes"),
            Header::Text(_) => Unexpected::Other("string"),
            Header::Array(_) => Unexpected::Sequence,
            Header::Mapping(_) => Unexpected::Mapping,
            Header::Tag(_) => Unexpected::Other("tag"),
            Header::Simple(x) => {
                if x == FALSE {
                    Unexpected::Bool(false)
                } else if x == TRUE {
                    Unexpected::Bool(true)
                } else if x == NULL {
                    Unexpected::Other("null")
                } else if x == UNDEFINED {
                    Unexpected::Other("undefined")
                } else {
                    Unexpected::Other("simple")
                }
            },
            Header::Float(x) => Unexpected::Float(x),
            Header::Break => Unexpected::Other("break"),
        };
        Error::Semantic(None, invalid_type(found, kind))
    }
}

} // verus!
