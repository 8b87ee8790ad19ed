//! What each read makes of what comes next, header by header.
//!
//! A tag makes no difference to most reads, a header that cannot be pulled ends
//! them all, and the laws here say what becomes of every other header.

use vstd::prelude::*;

use vstd::arithmetic::power::{lemma_pow_adds, lemma_pow_increases, pow};
use vstd::utf8::{decode_utf8, valid_utf8};

use crate::bignum::{integer_of_bytes, lemma_big_endian_fits, significant, IntegerView};
use crate::de::{fresh, hinted, RECURSION_LIMIT, SCRATCH_LEN};
use crate::decisions::law_numbers_are_accepted;
use crate::decoder::{Front, Input};
use crate::encode::{encoded, holds, law_bignum_reads_back, lemma_significant_value};
use crate::error::Fault;
use crate::header::{expected, invalid_type_message, Header, Unexpected};
use crate::laws::law_any_agrees;
use crate::overflow::lemma_overflow_bound;
use crate::state::{next, Elements, EnumForm, Len, Shown, State};
use crate::wire::{big_endian, double_bits, Kind};

verus! {

/// The next header is this one, and `after` is what follows it.
pub open spec fn comes(state: State, header: Header, after: Input) -> bool {
    state.input.pull() == (Ok::<Header, Fault>(header), after)
}

/// A header that was not expected is named in the message by what it stands for.
pub proof fn law_type_errors(x: u64, simple: u8, bits: u64, len: Option<usize>, kind: Seq<char>)
    ensures
        ({
            let error = |found: Unexpected|
                Fault::Semantic(None, invalid_type_message(found, kind));
            &&& expected(Header::Positive(x), kind) == error(Unexpected::Unsigned(x))
            &&& x < 0x8000_0000_0000_0000 ==> expected(Header::Negative(x), kind) == error(
                Unexpected::Signed((-1 - x) as i64),
            )
            &&& x >= 0x8000_0000_0000_0000 ==> expected(Header::Negative(x), kind) == error(
                Unexpected::Signed((0xffff_ffff_ffff_ffff - x) as i64),
            )
            &&& expected(Header::Float(bits), kind) == error(Unexpected::Float(bits))
            &&& expected(Header::Bytes(len), kind) == error(Unexpected::Other("bytes"))
            &&& expected(Header::Text(len), kind) == error(Unexpected::Other("string"))
            &&& expected(Header::Array(len), kind) == error(Unexpected::Sequence)
            &&& expected(Header::Mapping(len), kind) == error(Unexpected::Mapping)
            &&& expected(Header::Tag(x), kind) == error(Unexpected::Other("tag"))
            &&& expected(Header::Break, kind) == error(Unexpected::Other("break"))
            &&& expected(Header::Simple(simple), kind) == error(
                if simple == 20 {
                    Unexpected::Bool(false)
                } else if simple == 21 {
                    Unexpected::Bool(true)
                } else if simple == 22 {
                    Unexpected::Other("null")
                } else if simple == 23 {
                    Unexpected::Other("undefined")
                } else {
                    Unexpected::Other("simple")
                },
            )
        }),
{
}

/// Where no header can be pulled, every read fails for that reason, and nothing is
/// opened.
pub proof fn law_no_header(state: State, fault: Fault, after: Input, name: Seq<char>)
    requires
        state.input.pull() == (Err::<Header, Fault>(fault), after),
    ensures
        state.bool() == (Err::<bool, Fault>(fault), state.with(after)),
        state.float() == (Err::<u64, Fault>(fault), state.with(after)),
        state.unit() == (Err::<(), Fault>(fault), state.with(after)),
        state.u64() == (Err::<u64, Fault>(fault), state.with(after)),
        state.u128() == (Err::<u128, Fault>(fault), state.with(after)),
        state.i64() == (Err::<i64, Fault>(fault), state.with(after)),
        state.i128() == (Err::<i128, Fault>(fault), state.with(after)),
        state.char() == (Err::<char, Fault>(fault), state.with(after)),
        state.str() == (Err::<Seq<char>, Fault>(fault), state.with(after)),
        state.identifier() == (Err::<Seq<char>, Fault>(fault), state.with(after)),
        state.string() == (Err::<Seq<char>, Fault>(fault), state.with(after)),
        state.bytes() == (Err::<Elements, Fault>(fault), state.with(after)),
        state.byte_buf() == (Err::<Elements, Fault>(fault), state.with(after)),
        state.seq() == (Err::<Elements, Fault>(fault), state.with(after)),
        state.map() == (Err::<Len, Fault>(fault), state.with(after)),
        state.option() == (Err::<bool, Fault>(fault), state.with(after)),
        state.enumeration(name) == (Err::<EnumForm, Fault>(fault), state.with(after)),
        state.any() == (Err::<Shown, Fault>(fault), state.with(after)),
        next(None, state) == (Err::<Option<()>, Fault>(fault), None::<usize>, state.with(after)),
{
}

/// A state with another input is the same but for that, and so with its levels.
pub proof fn law_states(state: State, input: Input, budget: nat)
    ensures
        state.with(input) == (State { input, room: state.room, budget: state.budget }),
        state.with_budget(budget) == (State { input: state.input, room: state.room, budget }),
        state.closing() == state.with_budget(state.budget + 1),
{
}

/// A level is opened for a value exactly where one is left.
pub proof fn law_opening<T>(state: State, value: T)
    ensures
        state.budget > 0 ==> state.opening(value) == (
            Ok::<T, Fault>(value),
            state.with_budget((state.budget - 1) as nat),
        ),
        state.budget == 0 ==> state.opening(value) == (
            Err::<T, Fault>(Fault::RecursionLimitExceeded),
            state,
        ),
{
}

/// A boolean is one of two simple values; anything else is told by its offset.
pub proof fn law_booleans(state: State, header: Header, after: Input)
    requires
        comes(state, header, after),
        header !is Tag,
    ensures
        state.bool().1 == state.with(after),
        state.bool().0 == Ok::<bool, Fault>(false) <==> header == Header::Simple(20),
        state.bool().0 == Ok::<bool, Fault>(true) <==> header == Header::Simple(21),
        header != Header::Simple(20) && header != Header::Simple(21) ==> state.bool().0 == Err::<
            bool,
            Fault,
        >(Fault::Semantic(Some(state.input.offset()), "expected bool"@)),
{
}

/// A floating point number is read from floats only, as it is.
pub proof fn law_floats(state: State, header: Header, after: Input)
    requires
        comes(state, header, after),
        header !is Tag,
    ensures
        state.float().1 == state.with(after),
        state.float().0 is Ok <==> header is Float,
        header matches Header::Float(bits) ==> state.float().0 == Ok::<u64, Fault>(bits),
        header !is Float ==> state.float().0 == Err::<u64, Fault>(expected(header, "float"@)),
{
}

/// The unit value is null or undefined, and nothing else is.
pub proof fn law_units(state: State, header: Header, after: Input)
    requires
        comes(state, header, after),
        header !is Tag,
    ensures
        state.unit().1 == state.with(after),
        state.unit().0 is Ok <==> header == Header::Simple(22) || header == Header::Simple(23),
        state.unit().0 is Err ==> state.unit().0 == Err::<(), Fault>(expected(header, "unit"@)),
{
}

/// An option is empty exactly if null or undefined comes. Anything else, also a
/// tag, is its value: it is pulled again next.
pub proof fn law_options(state: State, header: Header, after: Input)
    requires
        comes(state, header, after),
    ensures
        state.option().0 == Ok::<bool, Fault>(
            !(header == Header::Simple(22) || header == Header::Simple(23)),
        ),
        header == Header::Simple(22) || header == Header::Simple(23) ==> state.option().1
            == state.with(after),
        header != Header::Simple(22) && header != Header::Simple(23) ==> {
            &&& state.option().1.input.pull() == (Ok::<Header, Fault>(header), after)
            &&& state.option().1 == state.with(after.pushed())
        },
{
}

/// A map is opened exactly where one comes, with the length that it has.
pub proof fn law_maps(state: State, header: Header, after: Input)
    requires
        comes(state, header, after),
        header !is Tag,
    ensures
        match header {
            Header::Mapping(len) => state.map() == state.with(after).opening(len),
            _ => state.map() == (
                Err::<Len, Fault>(expected(header, "map"@)),
                state.with(after),
            ),
        },
{
}

/// An enum of the name for tags holds a tag exactly if that comes next. Any other
/// header stays, and is pulled again next.
pub proof fn law_tag_enums(state: State, header: Header, after: Input)
    requires
        comes(state, header, after),
    ensures
        ({
            let (form, left) = state.enumeration("@@TAG@@"@);
            &&& state.budget > 0 ==> {
                &&& form is Ok
                &&& forall|tag: u64|
                    form == Ok::<EnumForm, Fault>(EnumForm::Tag(Some(tag))) <==> header
                        == Header::Tag(tag)
                &&& form == Ok::<EnumForm, Fault>(EnumForm::Tag(None)) <==> header !is Tag
                &&& left.budget == state.budget - 1
            }
            &&& state.budget == 0 ==> form == Err::<EnumForm, Fault>(
                Fault::RecursionLimitExceeded,
            ) && left.budget == 0
            &&& header is Tag ==> left.input == after
            &&& header !is Tag ==> left.input.pull() == (Ok::<Header, Fault>(header), after)
            &&& header !is Tag ==> left.input == after.pushed()
            &&& left.room == state.room
        }),
{
}

/// Any other enum is a map of one pair, or a text, which stays and is pulled again
/// next. Nothing else is one.
pub proof fn law_enums(state: State, header: Header, after: Input, name: Seq<char>)
    requires
        comes(state, header, after),
        header !is Tag,
        name != "@@TAG@@"@,
    ensures
        state.enumeration(name) == (match header {
            Header::Mapping(Some(1)) => state.with(after).opening(EnumForm::Variant(Some(0))),
            Header::Text(_) => state.with(after.pushed()).opening(EnumForm::Variant(Some(0))),
            _ => (Err::<EnumForm, Fault>(expected(header, "enum"@)), state.with(after)),
        }),
        header is Text ==> state.enumeration(name).1.input.pull() == (
            Ok::<Header, Fault>(header),
            after,
        ),
{
}

/// Without a length another element comes exactly if no break does, and it is
/// pulled again next.
pub proof fn law_elements_up_to_a_break(state: State, header: Header, after: Input)
    requires
        comes(state, header, after),
    ensures
        ({
            let (more, len, left) = next(None, state);
            &&& more == Ok::<Option<()>, Fault>(None) <==> header is Break
            &&& more == Ok::<Option<()>, Fault>(Some(())) <==> header !is Break
            &&& len is None
            &&& header is Break ==> left == state.with(after)
            &&& header !is Break ==> left == state.with(after.pushed())
            &&& header !is Break ==> left.input.pull() == (Ok::<Header, Fault>(header), after)
        }),
{
}

/// With a length another element comes exactly if it is not zero, which it comes
/// closer to by one; the input is left alone.
pub proof fn law_elements_of_a_length(state: State, len: usize)
    ensures
        ({
            let (more, left, after) = next(Some(len), state);
            &&& more == Ok::<Option<()>, Fault>(None) <==> len == 0
            &&& more == Ok::<Option<()>, Fault>(Some(())) <==> len > 0
            &&& len > 0 ==> (left matches Some(rest) && rest == len - 1)
            &&& len == 0 ==> left == Some(0usize)
            &&& after == state
        }),
{
}

/// A short text: what `len` bytes come to under a header that starts at `offset`.
pub open spec fn text_of(input: Input, len: nat, offset: nat) -> (Result<Seq<char>, Fault>, Input) {
    let (read, after) = input.read(len);
    (
        match read {
            Ok(bytes) => if valid_utf8(bytes) {
                Ok(decode_utf8(bytes))
            } else {
                Err(Fault::Syntax(offset))
            },
            Err(fault) => Err(fault),
        },
        after,
    )
}

/// A short text is one of known length that fits the scratch buffer, and an
/// identifier is that or bytes that do. It is all of its bytes, and has to be
/// UTF-8.
pub proof fn law_short_texts(state: State, header: Header, after: Input)
    requires
        comes(state, header, after),
        header !is Tag,
    ensures
        ({
            let offset = state.input.offset();
            &&& match header {
                Header::Text(Some(len)) if len <= state.room => {
                    let (text, left) = text_of(after, len as nat, offset);
                    state.str() == (text, state.with(left)) && state.identifier() == state.str()
                },
                _ => state.str() == (
                    Err::<Seq<char>, Fault>(expected(header, "str"@)),
                    state.with(after),
                ),
            }
            &&& match header {
                Header::Bytes(Some(len)) if len <= state.room => {
                    let (text, left) = text_of(after, len as nat, offset);
                    state.identifier() == (text, state.with(left))
                },
                Header::Text(Some(len)) if len <= state.room => true,
                _ => state.identifier() == (
                    Err::<Seq<char>, Fault>(expected(header, "str or bytes"@)),
                    state.with(after),
                ),
            }
        }),
{
}

/// A character is a text of at most four bytes that holds just one.
pub proof fn law_characters(state: State, header: Header, after: Input)
    requires
        comes(state, header, after),
        header !is Tag,
    ensures
        match header {
            Header::Text(Some(len)) if len <= 4 => {
                let (text, left) = text_of(after, len as nat, state.input.offset());
                &&& state.char().1 == state.with(left)
                &&& state.char().0 is Ok <==> text is Ok && text->Ok_0.len() == 1
                &&& state.char().0 is Ok ==> text == Ok::<Seq<char>, Fault>(
                    seq![state.char().0->Ok_0],
                )
                &&& text is Ok && text->Ok_0.len() != 1 ==> state.char().0 == Err::<char, Fault>(
                    expected(header, "char"@),
                )
                &&& text matches Err(fault) ==> state.char().0 == Err::<char, Fault>(fault)
            },
            _ => state.char() == (
                Err::<char, Fault>(expected(header, "char"@)),
                state.with(after),
            ),
        },
{
    if let Header::Text(Some(len)) = header {
        let (text, left) = text_of(after, len as nat, state.input.offset());
        if len <= 4 && text is Ok && text->Ok_0.len() == 1 {
            assert(text->Ok_0 =~= seq![text->Ok_0[0]]);
        }
    }
}

/// A string is any text: all of its segments, decoded, or the fault that ends
/// them.
pub proof fn law_strings(state: State, header: Header, after: Input)
    requires
        comes(state, header, after),
        header !is Tag,
    ensures
        match header {
            Header::Text(len) => {
                let body = after.body(Kind::Text, len, state.room);
                &&& state.string().0 == match body.fault {
                    None => Ok::<Seq<char>, Fault>(decode_utf8(body.content)),
                    Some(fault) => Err(fault),
                }
                &&& state.string().1 == state.with(after.after_body(Kind::Text, len, state.room))
            },
            _ => state.string() == (
                Err::<Seq<char>, Fault>(expected(header, "string"@)),
                state.with(after),
            ),
        },
{
}

/// All bytes of a byte string, or the fault that ends them.
pub open spec fn bytes_of(state: State, after: Input, len: Option<usize>) -> (
    Result<Elements, Fault>,
    State,
) {
    let body = after.body(Kind::Bytes, len, state.room);
    (
        match body.fault {
            None => Ok(Elements::Bytes(body.content)),
            Some(fault) => Err(fault),
        },
        state.with(after.after_body(Kind::Bytes, len, state.room)),
    )
}

/// Bytes are read from a byte string, or an array is opened for them. Only short
/// bytes have to be of known length and to fit the scratch buffer.
pub proof fn law_bytes_and_arrays(state: State, header: Header, after: Input)
    requires
        comes(state, header, after),
        header !is Tag,
    ensures
        match header {
            Header::Array(len) => {
                let opened = state.with(after).opening(Elements::Array(len));
                state.bytes() == opened && state.byte_buf() == opened && state.seq() == opened
            },
            Header::Bytes(len) => {
                &&& state.byte_buf() == bytes_of(state, after, len)
                &&& state.seq() == bytes_of(state, after, len)
                &&& if len is Some && len->Some_0 <= state.room {
                    let (read, left) = after.read(len->Some_0 as nat);
                    &&& state.bytes().1 == state.with(left)
                    &&& read matches Ok(bytes) ==> state.bytes().0 == Ok::<Elements, Fault>(
                        Elements::Bytes(bytes),
                    )
                    &&& read matches Err(fault) ==> state.bytes().0 == Err::<Elements, Fault>(fault)
                } else {
                    state.bytes() == (
                        Err::<Elements, Fault>(expected(header, "bytes"@)),
                        state.with(after),
                    )
                }
            },
            _ => {
                &&& state.bytes() == (
                    Err::<Elements, Fault>(expected(header, "bytes"@)),
                    state.with(after),
                )
                &&& state.byte_buf() == (
                    Err::<Elements, Fault>(expected(header, "byte buffer"@)),
                    state.with(after),
                )
                &&& state.seq() == (
                    Err::<Elements, Fault>(expected(header, "array"@)),
                    state.with(after),
                )
            },
        },
{
}

/// What the reads for integers come to where the number `value` was found: it is
/// read by every type that can hold it, and by no other.
pub open spec fn integers_are(state: State, value: int, left: State) -> bool {
    let too_large = Fault::Semantic(None, "integer too large"@);
    let negative = Fault::Semantic(None, "unexpected negative integer"@);
    &&& state.i64().1 == left
    &&& state.i128().1 == left
    &&& state.u64().1 == left
    &&& state.u128().1 == left
    &&& match state.i64().0 {
        Ok(x) => x == value,
        Err(fault) => fault == too_large && !(-0x8000_0000_0000_0000 <= value
            <= 0x7fff_ffff_ffff_ffff),
    }
    &&& match state.i128().0 {
        Ok(x) => x == value,
        Err(fault) => fault == too_large && !(-0x8000_0000_0000_0000_0000_0000_0000_0000 <= value
            <= 0x7fff_ffff_ffff_ffff_ffff_ffff_ffff_ffff),
    }
    &&& match state.u64().0 {
        Ok(x) => x == value,
        Err(fault) => if value < 0 {
            fault == negative
        } else {
            fault == too_large && value > 0xffff_ffff_ffff_ffff
        },
    }
    &&& match state.u128().0 {
        Ok(x) => x == value,
        Err(fault) => fault == negative && value < 0,
    }
}

/// What the reads for integers come to where there is none.
pub open spec fn integers_fail(state: State, fault: Fault) -> bool {
    &&& state.i64().0 == Err::<i64, Fault>(fault)
    &&& state.i128().0 == Err::<i128, Fault>(fault)
    &&& state.u64().0 == Err::<u64, Fault>(fault)
    &&& state.u128().0 == Err::<u128, Fault>(fault)
}

/// What is left where the reads for integers fail.
pub open spec fn integers_leave(state: State, left: State) -> bool {
    &&& state.i64().1 == left
    &&& state.i128().1 == left
    &&& state.u64().1 == left
    &&& state.u128().1 == left
}

/// An integer is the number in its header: that itself, or `-1`
/// minus that. No header but a tag is an integer otherwise.
pub proof fn law_integers(state: State, header: Header, after: Input)
    requires
        comes(state, header, after),
        header !is Tag,
    ensures
        match header {
            Header::Positive(x) => integers_are(state, x as int, state.with(after)),
            Header::Negative(x) => integers_are(state, -1 - x, state.with(after)),
            _ => integers_fail(state, expected(header, "integer"@)) && integers_leave(
                state,
                state.with(after),
            ),
        },
{
}

/// A number of more bytes than sixteen is too large if the first of them counts.
proof fn lemma_leading_digit(bytes: Seq<u8>)
    requires
        bytes.len() > 0,
        bytes[0] != 0,
    ensures
        big_endian(bytes) >= pow(256, (bytes.len() - 1) as nat),
    decreases bytes.len(),
{
    reveal(pow);
    if bytes.len() > 1 {
        lemma_leading_digit(bytes.drop_last());
        lemma_pow_adds(256, (bytes.len() - 2) as nat, 1);
        assert(pow(256, 1) == 256) by {
            reveal_with_fuel(pow, 2);
        }
    } else {
        assert(bytes.drop_last() =~= seq![]);
    }
}

proof fn lemma_significant_first(bytes: Seq<u8>)
    ensures
        significant(bytes).len() > 0 ==> significant(bytes)[0] != 0,
        significant(bytes) == bytes.skip(bytes.len() - significant(bytes).len()),
        significant(bytes).len() <= bytes.len(),
    decreases bytes.len(),
{
    if bytes.len() > 0 && bytes[0] == 0 {
        lemma_significant_first(bytes.drop_first());
    }
    assert(significant(bytes) =~= bytes.skip(bytes.len() - significant(bytes).len()));
}

/// The significant bytes stand for the same number, and there are more than
/// sixteen of them exactly if that takes more than 128 bits.
pub proof fn law_significant_bytes(bytes: Seq<u8>)
    ensures
        ({
            let digits = significant(bytes);
            &&& big_endian(digits) == big_endian(bytes)
            &&& digits.len() > 0 ==> digits[0] != 0
            &&& digits.len() <= bytes.len()
            &&& digits == bytes.skip(bytes.len() - digits.len())
            &&& digits.len() > 16 <==> big_endian(bytes)
                > 0xffff_ffff_ffff_ffff_ffff_ffff_ffff_ffff
        }),
{
    let digits = significant(bytes);
    lemma_significant_value(bytes);
    lemma_significant_first(bytes);
    if digits.len() > 16 {
        lemma_leading_digit(digits);
        lemma_pow_increases(256, 16, (digits.len() - 1) as nat);
        assert(pow(256, 16) == 0x1_0000_0000_0000_0000_0000_0000_0000_0000) by {
            reveal_with_fuel(pow, 17);
        }
    } else {
        lemma_big_endian_fits(digits);
    }
}

/// Bytes stand for a number digit by digit.
pub proof fn law_big_endian(bytes: Seq<u8>, byte: u8)
    ensures
        big_endian(seq![]) == 0,
        big_endian(bytes.push(byte)) == big_endian(bytes) * 256 + byte,
{
    assert(bytes.push(byte).drop_last() =~= bytes);
}

/// An integer in a byte string has the number that the bytes stand for as its
/// magnitude; if that takes more than 128 bits, the bytes stand for themselves.
pub proof fn law_magnitudes(negative: bool, bytes: Seq<u8>)
    ensures
        ({
            let integer = integer_of_bytes(negative, bytes);
            if big_endian(bytes) <= 0xffff_ffff_ffff_ffff_ffff_ffff_ffff_ffff {
                &&& integer.negative == negative
                &&& integer.raw == big_endian(bytes)
                &&& integer.overflow.len() == 0
            } else {
                &&& !integer.negative
                &&& integer.raw == 0
                &&& big_endian(integer.overflow) == big_endian(bytes)
                &&& integer.overflow[0] != 0
                &&& integer.overflow.len() <= bytes.len()
                &&& integer.overflow == bytes.skip(bytes.len() - integer.overflow.len())
            }
        }),
{
    law_significant_bytes(bytes);
}

/// The tag of an integer in a byte string says whether it is negative.
proof fn lemma_bignum_numbers(state: State, tag: u64, after: Input)
    requires
        comes(state, Header::Tag(tag), after),
        tag == 2 || tag == 3,
    ensures
        state.integer(None, false) == state.with(after).bignum(tag == 3, false),
{
    assert(state.input.sign() == (Ok::<(bool, Option<u64>), Fault>((tag == 3, None)), after));
}

/// An integer in a byte string, with the tag for positive or for negative ones, is
/// the number that its bytes stand for: that itself, or `-1` minus that.
/// More than 128 bits are refused, whatever else is wrong with the bytes.
pub proof fn law_bignums(
    state: State,
    tag: u64,
    tagged: Input,
    len: Option<usize>,
    after: Input,
)
    requires
        comes(state, Header::Tag(tag), tagged),
        tag == 2 || tag == 3,
        tagged.pull() == (Ok::<Header, Fault>(Header::Bytes(len)), after),
    ensures
        ({
            let body = after.body(Kind::Bytes, len, 16);
            let magnitude = big_endian(body.content);
            let left = state.with(after.after_body(Kind::Bytes, len, 16));
            if magnitude > 0xffff_ffff_ffff_ffff_ffff_ffff_ffff_ffff {
                integers_fail(state, Fault::Semantic(None, "bigint too large"@))
            } else {
                match body.fault {
                    Some(fault) => integers_fail(state, fault) && integers_leave(state, left),
                    None => integers_are(
                        state,
                        if tag == 2 {
                            magnitude as int
                        } else {
                            -1 - magnitude
                        },
                        left,
                    ),
                }
            }
        }),
{
    let body = after.body(Kind::Bytes, len, 16);
    law_significant_bytes(body.content);
    law_magnitudes(tag == 3, body.content);
    lemma_bignum_numbers(state, tag, tagged);
}

/// An integer that is written as the bytes of its magnitude, of which any number
/// may be zeros at the front, reads as that integer: tag 2 is for the number that
/// the bytes stand for, and tag 3 for `-1` minus that. It is read by every type
/// that can hold it, and nothing after it is touched.
pub proof fn law_written_bignums(
    state: State,
    tag: u64,
    magnitude: Seq<u8>,
    tag_width: nat,
    width: nat,
    rest: Seq<u8>,
)
    requires
        tag == 2 || tag == 3,
        magnitude.len() <= usize::MAX,
        holds(3, tag_width),
        holds(magnitude.len(), width),
        big_endian(magnitude) <= 0xffff_ffff_ffff_ffff_ffff_ffff_ffff_ffff,
        state.starts_with(
            encoded(6, tag as nat, tag_width) + (encoded(2, magnitude.len(), width) + magnitude),
            rest,
        ),
    ensures
        ({
            let value: int = if tag == 2 {
                big_endian(magnitude) as int
            } else {
                -1 - big_endian(magnitude)
            };
            let left = state.any().1;
            &&& integers_are(state, value, left)
            &&& left.input.unread == rest
            &&& left.budget == state.budget
            &&& match state.any().0 {
                Ok(Shown::U128(x)) => tag == 2 && x == value,
                Ok(Shown::I128(x)) => tag == 3 && x == value,
                Ok(_) => false,
                Err(fault) => value < -0x8000_0000_0000_0000_0000_0000_0000_0000 && fault
                    == Fault::Semantic(None, "integer too large"@),
            }
        }),
{
    law_significant_bytes(magnitude);
    law_bignum_reads_back(state, tag == 3, magnitude, tag_width, width, rest);
    law_numbers_are_accepted(tag == 3, big_endian(magnitude) as u128);
    lemma_integers_leave_alike(state);
}

/// What is left does not depend on which type an integer is read by.
proof fn lemma_integers_leave_alike(state: State)
    ensures
        integers_leave(state, state.u64().1),
{
}

/// The tag of an integer has to be followed by a byte string: nothing else is let
/// pass, not even another tag.
pub proof fn law_bignums_are_bytes(state: State, tag: u64, tagged: Input)
    requires
        comes(state, Header::Tag(tag), tagged),
        tag == 2 || tag == 3,
    ensures
        match tagged.pull() {
            (Ok(Header::Bytes(_)), _) => true,
            (Ok(header), after) => {
                &&& integers_fail(state, expected(header, "bytes"@))
                &&& integers_leave(state, state.with(after))
                &&& state.any() == (
                    Err::<Shown, Fault>(expected(header, "bytes"@)),
                    state.with(after),
                )
            },
            (Err(fault), after) => {
                &&& integers_fail(state, fault)
                &&& integers_leave(state, state.with(after))
                &&& state.any() == (Err::<Shown, Fault>(fault), state.with(after))
            },
        },
{
    lemma_bignum_numbers(state, tag, tagged);
    law_any_agrees(state);
}

/// An integer in a byte string that takes more than 128 bits is given up behind
/// the first bytes of it that do: the fewest of them that say so.
pub proof fn law_bignums_are_given_up(
    state: State,
    tag: u64,
    tagged: Input,
    len: Option<usize>,
    after: Input,
    fewer: nat,
)
    requires
        comes(state, Header::Tag(tag), tagged),
        tag == 2 || tag == 3,
        tagged.pull() == (Ok::<Header, Fault>(Header::Bytes(len)), after),
        big_endian(after.body(Kind::Bytes, len, 16).content)
            > 0xffff_ffff_ffff_ffff_ffff_ffff_ffff_ffff,
    ensures
        ({
            let left = state.u64().1;
            let taken = left.input.position - after.position;
            let part = |count: int|
                big_endian(
                    Input { unread: after.unread.take(count), ..after }.body(
                        Kind::Bytes,
                        len,
                        16,
                    ).content,
                );
            &&& integers_leave(state, left)
            &&& left == state.with(left.input)
            &&& left.input.front == Front::Empty
            &&& 0 <= taken <= after.unread.len()
            &&& left.input.unread == after.unread.skip(taken)
            &&& part(taken) > 0xffff_ffff_ffff_ffff_ffff_ffff_ffff_ffff
            &&& fewer < taken ==> part(fewer as int) <= 0xffff_ffff_ffff_ffff_ffff_ffff_ffff_ffff
        }),
{
    let body = after.body(Kind::Bytes, len, 16);
    law_significant_bytes(body.content);
    lemma_bignum_numbers(state, tag, tagged);
    lemma_overflow_bound(after, len, 0);
    lemma_overflow_least(after, len, 0, fewer);
    let stop = after.overflow_at(len, 0);
    law_significant_bytes(after.cut(stop).body(Kind::Bytes, len, 16).content);
    law_significant_bytes(after.cut(fewer).body(Kind::Bytes, len, 16).content);
}

/// The number of bytes that overflow is the least one.
proof fn lemma_overflow_least(input: Input, len: Option<usize>, from: nat, fewer: nat)
    requires
        input.overflows(len),
        from <= input.unread.len(),
    ensures
        input.cut(input.overflow_at(len, from)).overflows(len),
        from <= fewer < input.overflow_at(len, from) ==> !input.cut(fewer).overflows(len),
    decreases input.unread.len() - from,
{
    if from >= input.unread.len() {
        assert(input.unread.take(from as int) =~= input.unread);
    } else if !input.cut(from).overflows(len) {
        lemma_overflow_least(input, len, from + 1, fewer);
    }
}

/// An integer is read in parts from its header: its sign, and its magnitude. It is
/// no matter whether the header has been pulled already.
pub proof fn law_integer_parts(state: State, header: Header, after: Input, keep: bool)
    requires
        comes(state, header, after),
    ensures
        state.with(after).integer(Some(header), keep) == state.integer(None, keep),
        match header {
            Header::Positive(x) => state.integer(None, keep) == (
                Ok::<IntegerView, Fault>(
                    IntegerView { negative: false, raw: x as u128, overflow: seq![] },
                ),
                state.with(after),
            ),
            Header::Negative(x) => state.integer(None, keep) == (
                Ok::<IntegerView, Fault>(
                    IntegerView { negative: true, raw: x as u128, overflow: seq![] },
                ),
                state.with(after),
            ),
            Header::Tag(tag) => if tag != 2 && tag != 3 {
                state.integer(None, keep) == state.with(after).integer(None, keep)
            } else {
                match after.pull() {
                    (Ok(Header::Bytes(len)), inner) => {
                        let body = inner.body(Kind::Bytes, len, 16);
                        keep || big_endian(body.content)
                            <= 0xffff_ffff_ffff_ffff_ffff_ffff_ffff_ffff ==> state.integer(
                            None,
                            keep,
                        ) == (
                            match body.fault {
                                None => Ok::<IntegerView, Fault>(
                                    integer_of_bytes(tag == 3, body.content),
                                ),
                                Some(fault) => Err(fault),
                            },
                            state.with(inner.after_body(Kind::Bytes, len, 16)),
                        )
                    },
                    (Ok(other), inner) => state.integer(None, keep) == (
                        Err::<IntegerView, Fault>(expected(other, "bytes"@)),
                        state.with(inner),
                    ),
                    (Err(fault), inner) => state.integer(None, keep) == (
                        Err::<IntegerView, Fault>(fault),
                        state.with(inner),
                    ),
                }
            },
            _ => state.integer(None, keep) == (
                Err::<IntegerView, Fault>(expected(header, "integer"@)),
                state.with(after),
            ),
        },
{
    if let (Ok(Header::Bytes(len)), inner) = after.pull() {
        law_significant_bytes(inner.body(Kind::Bytes, len, 16).content);
    }
}

/// A number or a simple value shows itself as what it is, and a value that is
/// unknown is put back.
pub proof fn law_values_show(state: State, header: Header, after: Input)
    requires
        comes(state, header, after),
    ensures
        match header {
            Header::Positive(x) => state.any() == (
                Ok::<Shown, Fault>(Shown::U64(x)),
                state.with(after),
            ),
            Header::Negative(x) => {
                &&& state.any().1 == state.with(after)
                &&& if x <= 0x7fff_ffff_ffff_ffff {
                    state.any().0 matches Ok(Shown::I64(value)) && value == -1 - x
                } else {
                    state.any().0 matches Ok(Shown::I128(value)) && value == -1 - x
                }
            },
            Header::Float(bits) => state.any() == (
                Ok::<Shown, Fault>(Shown::Float(bits)),
                state.with(after),
            ),
            Header::Simple(20) => state.any() == (
                Ok::<Shown, Fault>(Shown::Bool(false)),
                state.with(after),
            ),
            Header::Simple(21) => state.any() == (
                Ok::<Shown, Fault>(Shown::Bool(true)),
                state.with(after),
            ),
            Header::Simple(22) => state.any() == (
                Ok::<Shown, Fault>(Shown::Null),
                state.with(after),
            ),
            Header::Simple(23) => state.any() == (
                Ok::<Shown, Fault>(Shown::Null),
                state.with(after),
            ),
            Header::Simple(_) => state.any() == (
                Err::<Shown, Fault>(expected(header, "known simple value"@)),
                state.with(after.pushed()),
            ),
            Header::Break => state.any() == (
                Err::<Shown, Fault>(expected(header, "non-break"@)),
                state.with(after.pushed()),
            ),
            _ => true,
        },
{
    let held = state.with(after.pushed());
    assert(held.input.pull() == state.input.pull());
}

/// An array, a map or a tag shows itself as such, and opens a level.
pub proof fn law_containers_show(state: State, header: Header, after: Input)
    requires
        comes(state, header, after),
    ensures
        match header {
            Header::Array(len) => state.any() == state.with(after).opening(
                Shown::Sequence(Elements::Array(len)),
            ),
            Header::Mapping(len) => state.any() == state.with(after).opening(Shown::Mapping(len)),
            Header::Tag(tag) => tag != 2 && tag != 3 ==> state.any() == state.with(after).opening(
                Shown::Tag(tag),
            ),
            _ => true,
        },
{
    let held = state.with(after.pushed());
    assert(held.input.pull() == state.input.pull());
}

/// A string shows itself with all that it holds, as one that fits the scratch
/// buffer if its length is known and does.
pub proof fn law_strings_show(state: State, header: Header, after: Input)
    requires
        comes(state, header, after),
    ensures
        match header {
            Header::Text(len) => if len is Some && len->Some_0 <= state.room {
                let (text, left) = text_of(
                    after,
                    len->Some_0 as nat,
                    after.pushed().offset(),
                );
                &&& state.any().1 == state.with(left)
                &&& text matches Ok(text) ==> state.any().0 == Ok::<Shown, Fault>(Shown::Str(text))
                &&& text matches Err(fault) ==> state.any().0 == Err::<Shown, Fault>(fault)
            } else {
                let body = after.body(Kind::Text, len, state.room);
                &&& state.any().1 == state.with(after.after_body(Kind::Text, len, state.room))
                &&& body.fault is None ==> state.any().0 == Ok::<Shown, Fault>(
                    Shown::Text(decode_utf8(body.content)),
                )
                &&& body.fault matches Some(fault) ==> state.any().0 == Err::<Shown, Fault>(fault)
            },
            Header::Bytes(len) => if len is Some && len->Some_0 <= state.room {
                let (read, left) = after.read(len->Some_0 as nat);
                &&& state.any().1 == state.with(left)
                &&& read matches Ok(bytes) ==> state.any().0 == Ok::<Shown, Fault>(
                    Shown::Bytes(Elements::Bytes(bytes)),
                )
                &&& read matches Err(fault) ==> state.any().0 == Err::<Shown, Fault>(fault)
            } else {
                let body = after.body(Kind::Bytes, len, state.room);
                &&& state.any().1 == state.with(after.after_body(Kind::Bytes, len, state.room))
                &&& body.fault is None ==> state.any().0 == Ok::<Shown, Fault>(
                    Shown::ByteBuf(Elements::Bytes(body.content)),
                )
                &&& body.fault matches Some(fault) ==> state.any().0 == Err::<Shown, Fault>(fault)
            },
            _ => true,
        },
{
    let held = state.with(after.pushed());
    assert(held.input.pull() == state.input.pull());
}

/// An integer in a byte string shows itself as the number that its bytes stand for
/// if 128 bits hold it, with its sign. A larger one shows its tag and its bytes,
/// up to leading zeros.
pub proof fn law_bignums_show(
    state: State,
    tag: u64,
    tagged: Input,
    len: Option<usize>,
    after: Input,
)
    requires
        comes(state, Header::Tag(tag), tagged),
        tag == 2 || tag == 3,
        tagged.pull() == (Ok::<Header, Fault>(Header::Bytes(len)), after),
    ensures
        ({
            let body = after.body(Kind::Bytes, len, 16);
            let magnitude = big_endian(body.content);
            &&& state.any().1 == state.with(after.after_body(Kind::Bytes, len, 16))
            &&& body.fault matches Some(fault) ==> state.any().0 == Err::<Shown, Fault>(fault)
            &&& body.fault is None ==> if magnitude
                > 0xffff_ffff_ffff_ffff_ffff_ffff_ffff_ffff {
                state.any().0 matches Ok(Shown::Bignum(shown, bytes)) && {
                    &&& shown == tag
                    &&& big_endian(bytes) == magnitude
                    &&& bytes[0] != 0
                    &&& bytes.len() <= body.content.len()
                    &&& bytes == body.content.skip(body.content.len() - bytes.len())
                }
            } else if tag == 2 {
                state.any().0 matches Ok(Shown::U128(value)) && value == magnitude
            } else if magnitude <= 0x7fff_ffff_ffff_ffff_ffff_ffff_ffff_ffff {
                state.any().0 matches Ok(Shown::I128(value)) && value == -1 - magnitude
            } else {
                state.any().0 == Err::<Shown, Fault>(
                    Fault::Semantic(None, "integer too large"@),
                )
            }
        }),
{
    let body = after.body(Kind::Bytes, len, 16);
    law_significant_bytes(body.content);
    law_magnitudes(tag == 3, body.content);
    law_any_agrees(state);
}

/// What is skipped before a header that is no tag is tags only: one makes no
/// difference, and any other header is what was looked for.
pub proof fn law_untagged(input: Input)
    ensures
        match input.pull() {
            (Ok(Header::Tag(_)), after) => {
                &&& input.untagged() == after.untagged()
                &&& input.double_bits() == after.double_bits()
            },
            (pulled, after) => {
                &&& input.untagged() == (pulled, input.offset(), after)
                &&& input.double_bits() == if input.front is Held {
                    None
                } else {
                    double_bits(input.unread)
                }
            },
        },
{
}

/// What is allocated for a string before it is read is what it takes, if that is
/// known, but no more than a kilobyte.
pub proof fn law_size_hints(len: usize)
    ensures
        hinted(Some(len)) <= len,
        hinted(Some(len)) <= 1024,
        hinted(Some(len)) == len || hinted(Some(len)) == 1024,
        hinted(None) == 0,
{
}

/// A new deserializer starts at the first of its bytes. Where nothing else is
/// given it has a buffer of 4096 bytes and allows for 256 levels.
pub proof fn law_fresh(bytes: Seq<u8>, room: nat, limit: nat)
    ensures
        fresh(bytes, room, limit).input.unread == bytes,
        fresh(bytes, room, limit).input.position == 0,
        fresh(bytes, room, limit).input.front == Front::Empty,
        fresh(bytes, room, limit).room == room,
        fresh(bytes, room, limit).budget == limit,
        SCRATCH_LEN == 4096,
        RECURSION_LIMIT == 256,
{
}

} // verus!
