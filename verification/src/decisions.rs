//! What is decided on a header, a number or a text, for all of them, and how the
//! results of the reads are taken.

use vstd::prelude::*;

use vstd::utf8::{decode_utf8, valid_utf8};

use crate::accept::{
    any_in, bignum_in, bool_in, byte_buf_in, bytes_in, char_in, char_len_in, enum_in, float_in,
    float_or_fault, i128_in, i64_in, identifier_len_in, integer_in, is_null, map_in, seq_in,
    str_len_in, string_in, text_in, text_or_fault, u128_in, u64_in, unit_in, AnyKind, EnumStart,
    IntegerPart, ShortStart, Start,
};
use crate::access::{Access, BytesAccess};
use crate::bignum::{Integer, IntegerView};
use crate::budget::entered;
use crate::de::{
    access_or_fault, buffer_or_fault, byte_buf_or_fault, bytes_or_fault, enum_or_fault,
    integer_or_fault, seen, seq_or_fault, string_or_fault, visit_or_fault, ByteBufVisit,
    BytesVisit, EnumVisitAction, SeqVisitAction, Visit,
};
use crate::decoder::header_or_fault;
use crate::error::{outcome, Error, Fault};
use crate::header::{canonical, expected, Header, Unexpected};
use crate::state::{big_shown, Elements, EnumForm, Len, Shown};

verus! {

/// A number is accepted by every type that can hold it, as it is: the magnitude
/// itself, or `-1` minus that.
pub proof fn law_numbers_are_accepted(negative: bool, raw: u128)
    ensures
        ({
            let value: int = if negative {
                -1 - raw
            } else {
                raw as int
            };
            let too_large = Fault::Semantic(None, "integer too large"@);
            let unsigned = Fault::Semantic(None, "unexpected negative integer"@);
            &&& match i64_in(negative, raw) {
                Ok(x) => x == value,
                Err(fault) => fault == too_large && !(-0x8000_0000_0000_0000 <= value
                    <= 0x7fff_ffff_ffff_ffff),
            }
            &&& match i128_in(negative, raw) {
                Ok(x) => x == value,
                Err(fault) => fault == too_large && !(
                -0x8000_0000_0000_0000_0000_0000_0000_0000 <= value
                    <= 0x7fff_ffff_ffff_ffff_ffff_ffff_ffff_ffff),
            }
            &&& match u64_in(negative, raw) {
                Ok(x) => x == value,
                Err(fault) => if negative {
                    fault == unsigned
                } else {
                    fault == too_large && value > 0xffff_ffff_ffff_ffff
                },
            }
            &&& match u128_in(negative, raw) {
                Ok(x) => x == value,
                Err(fault) => negative && fault == unsigned,
            }
        }),
{
}

/// A header is accepted by the kinds of value that it can start, with what it
/// holds, and by no other.
pub proof fn law_values_are_accepted(header: Header, offset: nat)
    ensures
        integer_in(header) is Ok <==> header is Positive || header is Negative || header is Tag,
        integer_in(header) is Err ==> integer_in(header) == Err::<IntegerPart, Fault>(
            expected(header, "integer"@),
        ),
        header matches Header::Positive(x) ==> integer_in(header) == Ok::<IntegerPart, Fault>(
            IntegerPart::Small(false, x),
        ),
        header matches Header::Negative(x) ==> integer_in(header) == Ok::<IntegerPart, Fault>(
            IntegerPart::Small(true, x),
        ),
        integer_in(header) == Ok::<IntegerPart, Fault>(IntegerPart::Big(false)) <==> header
            == Header::Tag(2),
        integer_in(header) == Ok::<IntegerPart, Fault>(IntegerPart::Big(true)) <==> header
            == Header::Tag(3),
        bool_in(header, offset) == Ok::<bool, Fault>(false) <==> header == Header::Simple(20),
        bool_in(header, offset) == Ok::<bool, Fault>(true) <==> header == Header::Simple(21),
        bool_in(header, offset) is Err ==> bool_in(header, offset) == Err::<bool, Fault>(
            Fault::Semantic(Some(offset), "expected bool"@),
        ),
        float_in(header) is Ok <==> header is Float,
        header matches Header::Float(bits) ==> float_in(header) == Ok::<u64, Fault>(bits),
        float_in(header) is Err ==> float_in(header) == Err::<u64, Fault>(
            expected(header, "float"@),
        ),
        is_null(header) <==> header == Header::Simple(22) || header == Header::Simple(23),
        unit_in(header) is Ok <==> header == Header::Simple(22) || header == Header::Simple(23),
        unit_in(header) is Err ==> unit_in(header) == Err::<(), Fault>(expected(header, "unit"@)),
{
}

/// A string is accepted with the length that its header has, by those that need it
/// to fit only if it is known and does.
pub proof fn law_strings_are_accepted(header: Header, room: nat)
    ensures
        match header {
            Header::Text(Some(len)) => {
                &&& char_len_in(header) is Ok <==> len <= 4
                &&& str_len_in(header, room) is Ok <==> len <= room
                &&& identifier_len_in(header, room) is Ok <==> len <= room
                &&& char_len_in(header) is Ok ==> char_len_in(header)->Ok_0 == len
                &&& str_len_in(header, room) is Ok ==> str_len_in(header, room)->Ok_0 == len
                &&& identifier_len_in(header, room) is Ok ==> identifier_len_in(
                    header,
                    room,
                )->Ok_0 == len
            },
            Header::Bytes(Some(len)) => {
                &&& char_len_in(header) is Err && str_len_in(header, room) is Err
                &&& identifier_len_in(header, room) is Ok <==> len <= room
                &&& identifier_len_in(header, room) is Ok ==> identifier_len_in(
                    header,
                    room,
                )->Ok_0 == len
            },
            _ => {
                &&& char_len_in(header) is Err && str_len_in(header, room) is Err
                &&& identifier_len_in(header, room) is Err
            },
        },
        string_in(header) is Ok <==> header is Text,
        header matches Header::Text(len) ==> string_in(header) == Ok::<Option<usize>, Fault>(len),
        bignum_in(header) is Ok <==> header is Bytes,
        header matches Header::Bytes(len) ==> bignum_in(header) == Ok::<Option<usize>, Fault>(len),
        char_len_in(header) matches Err(fault) ==> fault == expected(header, "char"@),
        str_len_in(header, room) matches Err(fault) ==> fault == expected(header, "str"@),
        identifier_len_in(header, room) matches Err(fault) ==> fault == expected(
            header,
            "str or bytes"@,
        ),
        string_in(header) matches Err(fault) ==> fault == expected(header, "string"@),
        bignum_in(header) matches Err(fault) ==> fault == expected(header, "bytes"@),
{
}

/// An array, a map or an enum is accepted where one starts, with its length.
pub proof fn law_containers_are_accepted(header: Header, room: nat)
    ensures
        byte_buf_in(header) is Ok <==> header is Bytes || header is Array,
        seq_in(header) is Ok <==> header is Bytes || header is Array,
        header matches Header::Bytes(len) ==> {
            &&& byte_buf_in(header) == Ok::<Start, Fault>(Start::Bytes(len))
            &&& seq_in(header) == Ok::<Start, Fault>(Start::Bytes(len))
        },
        header matches Header::Array(len) ==> {
            &&& byte_buf_in(header) == Ok::<Start, Fault>(Start::Array(len))
            &&& seq_in(header) == Ok::<Start, Fault>(Start::Array(len))
            &&& bytes_in(header, room) == Ok::<ShortStart, Fault>(ShortStart::Array(len))
        },
        forall|len: usize|
            bytes_in(header, room) == Ok::<ShortStart, Fault>(ShortStart::Bytes(len)) <==> header
                == Header::Bytes(Some(len)) && len <= room,
        bytes_in(header, room) is Ok ==> header is Bytes || header is Array,
        header matches Header::Bytes(None) ==> bytes_in(header, room) is Err,
        map_in(header) is Ok <==> header is Mapping,
        header matches Header::Mapping(len) ==> map_in(header) == Ok::<Option<usize>, Fault>(len),
        enum_in(header) == Ok::<EnumStart, Fault>(EnumStart::Mapping) <==> header
            == Header::Mapping(Some(1)),
        enum_in(header) == Ok::<EnumStart, Fault>(EnumStart::Variant) <==> header is Text,
        byte_buf_in(header) matches Err(fault) ==> fault == expected(header, "byte buffer"@),
        seq_in(header) matches Err(fault) ==> fault == expected(header, "array"@),
        bytes_in(header, room) matches Err(fault) ==> fault == expected(header, "bytes"@),
        map_in(header) matches Err(fault) ==> fault == expected(header, "map"@),
        enum_in(header) matches Err(fault) ==> fault == expected(header, "enum"@),
{
}

/// A value of any kind is told by its header alone, and by whether a string of
/// known length fits.
pub proof fn law_kinds_are_told(header: Header, room: nat)
    ensures
        ({
            let is = |kind: AnyKind| any_in(header, room) == Ok::<AnyKind, Fault>(kind);
            match header {
                Header::Positive(_) => is(AnyKind::U64),
                Header::Negative(x) => if x <= 0x7fff_ffff_ffff_ffff {
                    is(AnyKind::I64)
                } else {
                    is(AnyKind::I128)
                },
                Header::Float(_) => is(AnyKind::Float),
                Header::Array(_) => is(AnyKind::Sequence),
                Header::Mapping(_) => is(AnyKind::Mapping),
                Header::Bytes(len) => if len is Some && len->Some_0 <= room {
                    is(AnyKind::Bytes)
                } else {
                    is(AnyKind::ByteBuf)
                },
                Header::Text(len) => if len is Some && len->Some_0 <= room {
                    is(AnyKind::Str)
                } else {
                    is(AnyKind::Text)
                },
                Header::Tag(tag) => if tag == 2 || tag == 3 {
                    is(AnyKind::Bignum(tag))
                } else {
                    is(AnyKind::Tag(tag))
                },
                Header::Simple(x) => if x == 20 || x == 21 {
                    is(AnyKind::Bool)
                } else if x == 22 || x == 23 {
                    is(AnyKind::Null)
                } else {
                    any_in(header, room) == Err::<AnyKind, Fault>(
                        expected(header, "known simple value"@),
                    )
                },
                Header::Break => any_in(header, room) == Err::<AnyKind, Fault>(
                    expected(header, "non-break"@),
                ),
            }
        }),
{
}

/// A text is what UTF-8 bytes decode to, and a character is a text of just one.
pub proof fn law_texts_are_accepted(header: Header, bytes: Seq<u8>, text: Seq<char>, offset: nat)
    ensures
        text_in(bytes, offset) is Ok <==> valid_utf8(bytes),
        text_in(bytes, offset) matches Ok(read) ==> read == decode_utf8(bytes),
        text_in(bytes, offset) matches Err(fault) ==> fault == Fault::Syntax(offset),
        char_in(header, text) is Ok <==> text.len() == 1,
        char_in(header, text) matches Ok(read) ==> text == seq![read],
        char_in(header, text) matches Err(fault) ==> fault == expected(header, "char"@),
{
    if text.len() == 1 {
        assert(text =~= seq![text[0]]);
    }
}

/// An integer in a byte string shows its sign, its magnitude, and its bytes where
/// they were kept.
pub proof fn law_parts_show(tag: u64, raw: u128, overflow: Seq<u8>)
    requires
        overflow.len() > 0,
    ensures
        ({
            let parts = |negative: bool, overflow: Seq<u8>|
                big_shown(tag, IntegerView { negative, raw, overflow });
            &&& parts(false, seq![]) == Ok::<Shown, Fault>(Shown::U128(raw))
            &&& parts(false, overflow) == Ok::<Shown, Fault>(Shown::Bignum(tag, overflow))
            &&& match parts(true, seq![]) {
                Ok(Shown::I128(value)) => value == -1 - raw,
                Ok(_) => false,
                Err(fault) => raw > 0x7fff_ffff_ffff_ffff_ffff_ffff_ffff_ffff && fault
                    == Fault::Semantic(None, "integer too large"@),
            }
        }),
{
}

/// A level can be opened exactly where one is left, and is then one of them.
pub proof fn law_levels_are_counted(left: nat)
    ensures
        entered(left) is Ok <==> left > 0,
        entered(left) matches Ok(rest) ==> rest == left - 1,
        entered(left) matches Err(fault) ==> fault == Fault::RecursionLimitExceeded,
{
}

/// An error is taken as it is, with its offset and its message.
pub proof fn law_errors_are_taken(offset: usize, message: String)
    ensures
        Error::Io@ == Fault::Io,
        Error::Syntax(offset)@ == Fault::Syntax(offset as nat),
        Error::Semantic(Some(offset), message)@ == Fault::Semantic(
            Some(offset as nat),
            message@,
        ),
        Error::Semantic(None, message)@ == Fault::Semantic(None, message@),
        Error::RecursionLimitExceeded@ == Fault::RecursionLimitExceeded,
{
}

/// A header is taken as it is, but for the bits of a double that is not a number:
/// one whose exponent is all ones and whose fraction is not zero.
pub proof fn law_headers_are_taken(header: Header, bits: u64)
    ensures
        header !is Float ==> header@ == header,
        Header::Float(bits)@ == Header::Float(canonical(bits)),
        Unexpected::Float(bits)@ == Unexpected::Float(canonical(bits)),
        forall|found: Unexpected| found !is Float ==> #[trigger] found@ == found,
        canonical(bits) != bits ==> {
            &&& bits as int % 0x8000_0000_0000_0000 / 0x10_0000_0000_0000 == 0x7ff
            &&& bits as int % 0x10_0000_0000_0000 != 0
        },
        seen(Some(header)) == Some(header@),
        seen(None) is None,
{
}

/// What succeeded is taken as what was read, and what failed as the error.
pub proof fn law_results_are_taken<T>(
    value: T,
    header: Header,
    bits: u64,
    integer: Integer,
    text: String,
    short: &str,
    bytes: Vec<u8>,
    error: Error,
)
    ensures
        outcome(Ok::<T, Error>(value)) == Ok::<T, Fault>(value),
        outcome(Err::<T, Error>(error)) == Err::<T, Fault>(error@),
        header_or_fault(Ok(header)) == Ok::<Header, Fault>(header@),
        header_or_fault(Err(error)) == Err::<Header, Fault>(error@),
        float_or_fault(Ok(bits)) == Ok::<u64, Fault>(canonical(bits)),
        float_or_fault(Err(error)) == Err::<u64, Fault>(error@),
        integer_or_fault(Ok(integer)) == Ok::<IntegerView, Fault>(
            IntegerView {
                negative: integer.negative,
                raw: integer.raw,
                overflow: integer.overflow@,
            },
        ),
        integer_or_fault(Err(error)) == Err::<IntegerView, Fault>(error@),
        text_or_fault(Ok(short)) == Ok::<Seq<char>, Fault>(short@),
        text_or_fault(Err(error)) == Err::<Seq<char>, Fault>(error@),
        string_or_fault(Ok(text)) == Ok::<Seq<char>, Fault>(text@),
        string_or_fault(Err(error)) == Err::<Seq<char>, Fault>(error@),
        buffer_or_fault(Ok(bytes)) == Ok::<Seq<u8>, Fault>(bytes@),
        buffer_or_fault(Err(error)) == Err::<Seq<u8>, Fault>(error@),
{
}

/// What was opened is taken as it is.
pub proof fn law_openings_are_taken(
    bytes: &[u8],
    buffer: Vec<u8>,
    elements: BytesAccess,
    access: Access,
    tag: Option<u64>,
    error: Error,
)
    ensures
        bytes_or_fault(Ok(BytesVisit::Bytes(bytes))) == Ok::<Elements, Fault>(
            Elements::Bytes(bytes@),
        ),
        bytes_or_fault(Ok(BytesVisit::Access(access))) == Ok::<Elements, Fault>(
            Elements::Array(access.len()),
        ),
        bytes_or_fault(Err(error)) == Err::<Elements, Fault>(error@),
        byte_buf_or_fault(Ok(ByteBufVisit::ByteBuf(buffer))) == Ok::<Elements, Fault>(
            Elements::Bytes(buffer@),
        ),
        byte_buf_or_fault(Ok(ByteBufVisit::Access(access))) == Ok::<Elements, Fault>(
            Elements::Array(access.len()),
        ),
        byte_buf_or_fault(Err(error)) == Err::<Elements, Fault>(error@),
        seq_or_fault(Ok(SeqVisitAction::BytesAccess(elements))) == Ok::<Elements, Fault>(
            Elements::Bytes(elements@),
        ),
        seq_or_fault(Ok(SeqVisitAction::Access(access))) == Ok::<Elements, Fault>(
            Elements::Array(access.len()),
        ),
        seq_or_fault(Err(error)) == Err::<Elements, Fault>(error@),
        access_or_fault(Ok(access)) == Ok::<Len, Fault>(access.len()),
        access_or_fault(Err(error)) == Err::<Len, Fault>(error@),
        enum_or_fault(Ok(EnumVisitAction::TagAccess(tag))) == Ok::<EnumForm, Fault>(
            EnumForm::Tag(tag),
        ),
        enum_or_fault(Ok(EnumVisitAction::Access(access))) == Ok::<EnumForm, Fault>(
            EnumForm::Variant(access.len()),
        ),
        enum_or_fault(Err(error)) == Err::<EnumForm, Fault>(error@),
{
}

/// A value of any kind is taken as it is.
pub proof fn law_visits_are_taken(visit: Visit<'_>, error: Error)
    ensures
        visit_or_fault(Err(error)) == Err::<Shown, Fault>(error@),
        visit_or_fault(Ok(visit)) is Ok,
        ({
            let shown = visit_or_fault(Ok(visit))->Ok_0;
            match visit {
                Visit::Bool(value) => shown == Shown::Bool(value),
                Visit::U64(value) => shown == Shown::U64(value),
                Visit::I64(value) => shown == Shown::I64(value),
                Visit::I128(value) => shown == Shown::I128(value),
                Visit::U128(value) => shown == Shown::U128(value),
                Visit::Float(bits) => shown == Shown::Float(canonical(bits)),
                Visit::Null => shown == Shown::Null,
                Visit::Str(text) => shown == Shown::Str(text@),
                Visit::Text(text) => shown == Shown::Text(text@),
                Visit::Bytes(bytes) => bytes_or_fault(Ok(bytes)) == Ok::<Elements, Fault>(
                    shown->Bytes_0,
                ) && shown is Bytes,
                Visit::ByteBuf(bytes) => byte_buf_or_fault(Ok(bytes)) == Ok::<Elements, Fault>(
                    shown->ByteBuf_0,
                ) && shown is ByteBuf,
                Visit::Sequence(elements) => seq_or_fault(Ok(elements)) == Ok::<Elements, Fault>(
                    shown->Sequence_0,
                ) && shown is Sequence,
                Visit::Mapping(access) => shown == Shown::Mapping(access.len()),
                Visit::Tag(tag) => shown == Shown::Tag(tag),
                Visit::Bignum(tag, bytes) => shown == Shown::Bignum(tag, bytes@),
            }
        }),
{
}

} // verus!
