//! What each kind of value makes of a header, or of the number or the text that
//! was read.
//!
//! Every function here decides on plain values alone. The header is one that
//! was pulled, with the tags before it skipped where the kind of value has no
//! use for them.

use vstd::prelude::*;

use vstd::string::StrSliceExecFns;
use vstd::utf8::{decode_utf8, valid_utf8};

use crate::bignum::number;
use crate::error::{outcome, Error, Fault};
use crate::header::{canonical, expected, Header, BIGNEG, BIGPOS, FALSE, NULL, TRUE, UNDEFINED};

verus! {

/// What a header means to an integer.
#[derive(Debug, Clone, Copy, PartialEq, Eq)]
pub enum IntegerPart {
    /// The integer itself: its sign and its magnitude.
    Small(bool, u64),
    /// A tag on a byte string that holds the integer, with its sign.
    Big(bool),
    /// A tag that makes no difference.
    Skip,
}

/// What [`accept_integer`] makes of a header.
pub open spec fn integer_in(header: Header) -> Result<IntegerPart, Fault> {
    match header {
        Header::Positive(x) => Ok(IntegerPart::Small(false, x)),
        Header::Negative(x) => Ok(IntegerPart::Small(true, x)),
        Header::Tag(BIGPOS) => Ok(IntegerPart::Big(false)),
        Header::Tag(BIGNEG) => Ok(IntegerPart::Big(true)),
        Header::Tag(_) => Ok(IntegerPart::Skip),
        _ => Err(expected(header, "integer"@)),
    }
}

/// What a header means to an integer.
pub fn accept_integer(header: Header) -> (result: Result<IntegerPart, Error>)
    ensures
        outcome(result) == integer_in(header@),
{
    match header {
        Header::Positive(x) => Ok(IntegerPart::Small(false, x)),
        Header::Negative(x) => Ok(IntegerPart::Small(true, x)),
        Header::Tag(tag) => if tag == BIGPOS {
            Ok(IntegerPart::Big(false))
        } else if tag == BIGNEG {
            Ok(IntegerPart::Big(true))
        } else {
            Ok(IntegerPart::Skip)
        },
        header => Err(header.expected("integer")),
    }
}

/// What [`accept_bignum`] makes of a header.
pub open spec fn bignum_in(header: Header) -> Result<Option<usize>, Fault> {
    match header {
        Header::Bytes(len) => Ok(len),
        _ => Err(expected(header, "bytes"@)),
    }
}

/// The length of the byte string that an integer's tag is on.
pub fn accept_bignum(header: Header) -> (result: Result<Option<usize>, Error>)
    ensures
        outcome(result) == bignum_in(header@),
{
    match header {
        Header::Bytes(len) => Ok(len),
        header => Err(header.expected("bytes")),
    }
}

/// What [`accept_i64`] makes of a number.
pub open spec fn i64_in(negative: bool, raw: u128) -> Result<i64, Fault> {
    if i64::MIN <= number(negative, raw) <= i64::MAX {
        Ok(number(negative, raw) as i64)
    } else {
        Err(Fault::Semantic(None, "integer too large"@))
    }
}

/// The number as a signed integer of 64 bits.
pub fn accept_i64(negative: bool, raw: u128) -> (result: Result<i64, Error>)
    ensures
        outcome(result) == i64_in(negative, raw),
{
    if raw > i64::MAX as u128 {
        return Err(Error::custom("integer too large"));
    }
    let x: i64 = raw as i64;
    if negative {
        assert(x ^ !0i64 == -1 - x) by (bit_vector);
        Ok(x ^ !0)
    } else {
        Ok(x)
    }
}

/// What [`accept_i128`] makes of a number.
pub open spec fn i128_in(negative: bool, raw: u128) -> Result<i128, Fault> {
    if i128::MIN <= number(negative, raw) <= i128::MAX {
        Ok(number(negative, raw) as i128)
    } else {
        Err(Fault::Semantic(None, "integer too large"@))
    }
}

/// The number as a signed integer of 128 bits.
pub fn accept_i128(negative: bool, raw: u128) -> (result: Result<i128, Error>)
    ensures
        outcome(result) == i128_in(negative, raw),
{
    if raw > i128::MAX as u128 {
        return Err(Error::custom("integer too large"));
    }
    let x: i128 = raw as i128;
    if negative {
        assert(x ^ !0i128 == -1 - x) by (bit_vector);
        Ok(x ^ !0)
    } else {
        Ok(x)
    }
}

/// What [`accept_u64`] makes of a number.
pub open spec fn u64_in(negative: bool, raw: u128) -> Result<u64, Fault> {
    if negative {
        Err(Fault::Semantic(None, "unexpected negative integer"@))
    } else if raw <= u64::MAX {
        Ok(raw as u64)
    } else {
        Err(Fault::Semantic(None, "integer too large"@))
    }
}

/// The number as an unsigned integer of 64 bits.
pub fn accept_u64(negative: bool, raw: u128) -> (result: Result<u64, Error>)
    ensures
        outcome(result) == u64_in(negative, raw),
{
    if negative {
        return Err(Error::custom("unexpected negative integer"));
    }
    if raw > u64::MAX as u128 {
        return Err(Error::custom("integer too large"));
    }
    Ok(raw as u64)
}

/// What [`accept_u128`] makes of a number.
pub open spec fn u128_in(negative: bool, raw: u128) -> Result<u128, Fault> {
    if negative {
        Err(Fault::Semantic(None, "unexpected negative integer"@))
    } else {
        Ok(raw)
    }
}

/// The number as an unsigned integer of 128 bits.
pub fn accept_u128(negative: bool, raw: u128) -> (result: Result<u128, Error>)
    ensures
        outcome(result) == u128_in(negative, raw),
{
    if negative {
        return Err(Error::custom("unexpected negative integer"));
    }
    Ok(raw)
}

/// What [`accept_bool`] makes of a header.
pub open spec fn bool_in(header: Header, offset: nat) -> Result<bool, Fault> {
    match header {
        Header::Simple(FALSE) => Ok(false),
        Header::Simple(TRUE) => Ok(true),
        _ => Err(Fault::Semantic(Some(offset), "expected bool"@)),
    }
}

/// The boolean in a header that starts at `offset`.
pub fn accept_bool(header: Header, offset: usize) -> (result: Result<bool, Error>)
    ensures
        outcome(result) == bool_in(header@, offset as nat),
{
    if let Header::Simple(simple) = header {
        if simple == FALSE {
            return Ok(false);
        }
        if simple == TRUE {
            return Ok(true);
        }
    }
    Err(Error::semantic(Some(offset), "expected bool"))
}

/// What [`accept_float`] makes of a header.
pub open spec fn float_in(header: Header) -> Result<u64, Fault> {
    match header {
        Header::Float(bits) => Ok(bits),
        _ => Err(expected(header, "float"@)),
    }
}

/// A float, by its bits, or an error, both taken by their views.
pub open spec fn float_or_fault(result: Result<u64, Error>) -> Result<u64, Fault> {
    match result {
        Ok(bits) => Ok(canonical(bits)),
        Err(error) => Err(error@),
    }
}

/// The bits of the floating point number in a header.
pub fn accept_float(header: Header) -> (result: Result<u64, Error>)
    ensures
        outcome(result) == float_in(header),
{
    match header {
        Header::Float(bits) => Ok(bits),
        header => Err(header.expected("float")),
    }
}

/// What [`accept_char_len`] makes of a header.
pub open spec fn char_len_in(header: Header) -> Result<usize, Fault> {
    match header {
        Header::Text(Some(len)) if len <= 4 => Ok(len),
        _ => Err(expected(header, "char"@)),
    }
}

/// How many bytes the text takes that may be a character.
pub fn accept_char_len(header: Header) -> (result: Result<usize, Error>)
    ensures
        outcome(result) == char_len_in(header@),
{
    match header {
        Header::Text(Some(len)) if len <= 4 => Ok(len),
        header => Err(header.expected("char")),
    }
}

/// What [`accept_char`] makes of a text.
pub open spec fn char_in(header: Header, text: Seq<char>) -> Result<char, Fault> {
    if text.len() == 1 {
        Ok(text[0])
    } else {
        Err(expected(header, "char"@))
    }
}

/// The one character of the text under a header.
pub fn accept_char(header: Header, text: &str) -> (result: Result<char, Error>)
    ensures
        outcome(result) == char_in(header@, text@),
{
    if text.unicode_len() == 1 {
        Ok(text.get_char(0))
    } else {
        Err(header.expected("char"))
    }
}

/// `core::str::from_utf8`: the text that the bytes encode, if they are UTF-8.
#[verifier::external_body]
fn from_utf8(bytes: &[u8]) -> (text: Option<&str>)
    ensures
        text is Some <==> valid_utf8(bytes@),
        text matches Some(text) ==> text@ == decode_utf8(bytes@),
{
    core::str::from_utf8(bytes).ok()
}

/// What [`accept_text`] makes of some bytes.
pub open spec fn text_in(bytes: Seq<u8>, offset: nat) -> Result<Seq<char>, Fault> {
    if valid_utf8(bytes) {
        Ok(decode_utf8(bytes))
    } else {
        Err(Fault::Syntax(offset))
    }
}

/// A text or an error, both taken by their views.
pub open spec fn text_or_fault(result: Result<&str, Error>) -> Result<Seq<char>, Fault> {
    match result {
        Ok(text) => Ok(text@),
        Err(error) => Err(error@),
    }
}

/// The text that the bytes encode under a header that starts at `offset`.
pub fn accept_text(bytes: &[u8], offset: usize) -> (result: Result<&str, Error>)
    ensures
        text_or_fault(result) == text_in(bytes@, offset as nat),
{
    match from_utf8(bytes) {
        Some(text) => Ok(text),
        None => Err(Error::Syntax(offset)),
    }
}

/// What [`accept_str_len`] makes of a header.
pub open spec fn str_len_in(header: Header, room: nat) -> Result<usize, Fault> {
    match header {
        Header::Text(Some(len)) if len <= room => Ok(len),
        _ => Err(expected(header, "str"@)),
    }
}

/// How many bytes a text takes that fits `room` bytes.
pub fn accept_str_len(header: Header, room: usize) -> (result: Result<usize, Error>)
    ensures
        outcome(result) == str_len_in(header@, room as nat),
{
    match header {
        Header::Text(Some(len)) if len <= room => Ok(len),
        header => Err(header.expected("str")),
    }
}

/// What [`accept_identifier_len`] makes of a header.
pub open spec fn identifier_len_in(header: Header, room: nat) -> Result<usize, Fault> {
    match header {
        Header::Text(Some(len)) if len <= room => Ok(len),
        Header::Bytes(Some(len)) if len <= room => Ok(len),
        _ => Err(expected(header, "str or bytes"@)),
    }
}

/// How many bytes an identifier takes that fits `room` bytes.
pub fn accept_identifier_len(header: Header, room: usize) -> (result: Result<usize, Error>)
    ensures
        outcome(result) == identifier_len_in(header@, room as nat),
{
    match header {
        Header::Text(Some(len)) if len <= room => Ok(len),
        Header::Bytes(Some(len)) if len <= room => Ok(len),
        header => Err(header.expected("str or bytes")),
    }
}

/// What [`accept_string`] makes of a header.
pub open spec fn string_in(header: Header) -> Result<Option<usize>, Fault> {
    match header {
        Header::Text(len) => Ok(len),
        _ => Err(expected(header, "string"@)),
    }
}

/// The length of a text of any size.
pub fn accept_string(header: Header) -> (result: Result<Option<usize>, Error>)
    ensures
        outcome(result) == string_in(header@),
{
    match header {
        Header::Text(len) => Ok(len),
        header => Err(header.expected("string")),
    }
}

/// Where the bytes or the elements of a sequence come from.
#[derive(Debug, Clone, Copy, PartialEq, Eq)]
pub enum Start {
    /// A byte string with its length, or in segments.
    Bytes(Option<usize>),
    /// An array with its number of elements, or up to a break.
    Array(Option<usize>),
}

/// Where the bytes come from that fit a buffer.
#[derive(Debug, Clone, Copy, PartialEq, Eq)]
pub enum ShortStart {
    /// A byte string with its length.
    Bytes(usize),
    /// An array with its number of elements, or up to a break.
    Array(Option<usize>),
}

/// What [`accept_bytes`] makes of a header.
pub open spec fn bytes_in(header: Header, room: nat) -> Result<ShortStart, Fault> {
    match header {
        Header::Bytes(Some(len)) if len <= room => Ok(ShortStart::Bytes(len)),
        Header::Array(len) => Ok(ShortStart::Array(len)),
        _ => Err(expected(header, "bytes"@)),
    }
}

/// Bytes that fit `room` bytes, or an array.
pub fn accept_bytes(header: Header, room: usize) -> (result: Result<ShortStart, Error>)
    ensures
        outcome(result) == bytes_in(header@, room as nat),
{
    match header {
        Header::Bytes(Some(len)) if len <= room => Ok(ShortStart::Bytes(len)),
        Header::Array(len) => Ok(ShortStart::Array(len)),
        header => Err(header.expected("bytes")),
    }
}

/// What [`accept_byte_buf`] makes of a header.
pub open spec fn byte_buf_in(header: Header) -> Result<Start, Fault> {
    match header {
        Header::Bytes(len) => Ok(Start::Bytes(len)),
        Header::Array(len) => Ok(Start::Array(len)),
        _ => Err(expected(header, "byte buffer"@)),
    }
}

/// Bytes of any number, or an array.
pub fn accept_byte_buf(header: Header) -> (result: Result<Start, Error>)
    ensures
        outcome(result) == byte_buf_in(header@),
{
    match header {
        Header::Bytes(len) => Ok(Start::Bytes(len)),
        Header::Array(len) => Ok(Start::Array(len)),
        header => Err(header.expected("byte buffer")),
    }
}

/// What [`accept_seq`] makes of a header.
pub open spec fn seq_in(header: Header) -> Result<Start, Fault> {
    match header {
        Header::Array(len) => Ok(Start::Array(len)),
        Header::Bytes(len) => Ok(Start::Bytes(len)),
        _ => Err(expected(header, "array"@)),
    }
}

/// An array, or bytes as its elements.
pub fn accept_seq(header: Header) -> (result: Result<Start, Error>)
    ensures
        outcome(result) == seq_in(header@),
{
    match header {
        Header::Array(len) => Ok(Start::Array(len)),
        Header::Bytes(len) => Ok(Start::Bytes(len)),
        header => Err(header.expected("array")),
    }
}

/// What [`accept_map`] makes of a header.
pub open spec fn map_in(header: Header) -> Result<Option<usize>, Fault> {
    match header {
        Header::Mapping(len) => Ok(len),
        _ => Err(expected(header, "map"@)),
    }
}

/// The number of pairs of a map.
pub fn accept_map(header: Header) -> (result: Result<Option<usize>, Error>)
    ensures
        outcome(result) == map_in(header@),
{
    match header {
        Header::Mapping(len) => Ok(len),
        header => Err(header.expected("map")),
    }
}

/// What becomes of the header that an enum starts with.
#[derive(Debug, Clone, Copy, PartialEq, Eq)]
pub enum EnumStart {
    /// A map from the variant to its contents: the header is done with.
    Mapping,
    /// The variant alone: the header is its own.
    Variant,
}

/// What [`accept_enum`] makes of a header.
pub open spec fn enum_in(header: Header) -> Result<EnumStart, Fault> {
    match header {
        Header::Mapping(Some(1)) => Ok(EnumStart::Mapping),
        Header::Text(_) => Ok(EnumStart::Variant),
        _ => Err(expected(header, "enum"@)),
    }
}

/// An enum: its variant as a text, or a map of one pair.
pub fn accept_enum(header: Header) -> (result: Result<EnumStart, Error>)
    ensures
        outcome(result) == enum_in(header@),
{
    match header {
        Header::Mapping(Some(1)) => Ok(EnumStart::Mapping),
        Header::Text(_) => Ok(EnumStart::Variant),
        header => Err(header.expected("enum")),
    }
}

/// Whether a header stands for the absence of a value.
pub open spec fn is_null(header: Header) -> bool {
    header == Header::Simple(UNDEFINED) || header == Header::Simple(NULL)
}

/// Whether a header stands for the absence of a value.
pub fn accept_null(header: Header) -> (null: bool)
    ensures
        null == is_null(header@),
{
    match header {
        Header::Simple(simple) => simple == UNDEFINED || simple == NULL,
        _ => false,
    }
}

/// What [`accept_unit`] makes of a header.
pub open spec fn unit_in(header: Header) -> Result<(), Fault> {
    if is_null(header) {
        Ok(())
    } else {
        Err(expected(header, "unit"@))
    }
}

/// The unit value.
pub fn accept_unit(header: Header) -> (result: Result<(), Error>)
    ensures
        outcome(result) == unit_in(header@),
{
    if accept_null(header) {
        Ok(())
    } else {
        Err(header.expected("unit"))
    }
}

/// The kind of value that an item shows itself as.
#[derive(Debug, Clone, Copy, PartialEq, Eq)]
pub enum AnyKind {
    U64,
    I64,
    I128,
    Float,
    Bool,
    Null,
    /// Bytes that fit the scratch buffer.
    Bytes,
    /// Other bytes.
    ByteBuf,
    /// A text that fits the scratch buffer.
    Str,
    /// Another text.
    Text,
    Sequence,
    Mapping,
    /// The tag of an integer in a byte string.
    Bignum(u64),
    /// Another tag.
    Tag(u64),
}

/// What [`accept_any`] makes of a header.
pub open spec fn any_in(header: Header, room: nat) -> Result<AnyKind, Fault> {
    match header {
        Header::Positive(_) => Ok(AnyKind::U64),
        Header::Negative(x) => Ok(
            if x <= i64::MAX {
                AnyKind::I64
            } else {
                AnyKind::I128
            },
        ),
        Header::Bytes(Some(len)) if len <= room => Ok(AnyKind::Bytes),
        Header::Bytes(_) => Ok(AnyKind::ByteBuf),
        Header::Text(Some(len)) if len <= room => Ok(AnyKind::Str),
        Header::Text(_) => Ok(AnyKind::Text),
        Header::Array(_) => Ok(AnyKind::Sequence),
        Header::Mapping(_) => Ok(AnyKind::Mapping),
        Header::Tag(tag) => Ok(
            if tag == BIGPOS || tag == BIGNEG {
                AnyKind::Bignum(tag)
            } else {
                AnyKind::Tag(tag)
            },
        ),
        Header::Float(_) => Ok(AnyKind::Float),
        Header::Simple(FALSE) => Ok(AnyKind::Bool),
        Header::Simple(TRUE) => Ok(AnyKind::Bool),
        Header::Simple(NULL) => Ok(AnyKind::Null),
        Header::Simple(UNDEFINED) => Ok(AnyKind::Null),
        Header::Simple(_) => Err(expected(header, "known simple value"@)),
        Header::Break => Err(expected(header, "non-break"@)),
    }
}

/// The kind of value under a header, with `room` bytes in the scratch buffer.
pub fn accept_any(header: Header, room: usize) -> (result: Result<AnyKind, Error>)
    ensures
        outcome(result) == any_in(header@, room as nat),
{
    match header {
        Header::Positive(_) => Ok(AnyKind::U64),
        Header::Negative(x) => if x <= i64::MAX as u64 {
            Ok(AnyKind::I64)
        } else {
            Ok(AnyKind::I128)
        },
        Header::Bytes(Some(len)) if len <= room => Ok(AnyKind::Bytes),
        Header::Bytes(_) => Ok(AnyKind::ByteBuf),
        Header::Text(Some(len)) if len <= room => Ok(AnyKind::Str),
        Header::Text(_) => Ok(AnyKind::Text),
        Header::Array(_) => Ok(AnyKind::Sequence),
        Header::Mapping(_) => Ok(AnyKind::Mapping),
        Header::Tag(tag) => if tag == BIGPOS || tag == BIGNEG {
            Ok(AnyKind::Bignum(tag))
        } else {
            Ok(AnyKind::Tag(tag))
        },
        Header::Float(_) => Ok(AnyKind::Float),
        Header::Simple(simple) => if simple == FALSE || simple == TRUE {
            Ok(AnyKind::Bool)
        } else if simple == NULL || simple == UNDEFINED {
            Ok(AnyKind::Null)
        } else {
            Err(header.expected("known simple value"))
        },
        Header::Break => Err(header.expected("non-break")),
    }
}

} // verus!
