//! How values are written, and that they are read back as they were.

use vstd::prelude::*;

use vstd::arithmetic::power::{lemma_pow_adds, pow};
use vstd::utf8::{decode_utf8, valid_utf8, valid_utf8_concat};

use crate::accept::{i128_in, i64_in, u128_in, u64_in};
use crate::bignum::{lemma_big_endian_fits, significant, IntegerView, MAX_LEN};
use crate::chunks::lemma_all_there;
use crate::error::Fault;
use crate::header::{canonical, Header, BIGNEG, BIGPOS, FALSE, NULL, TRUE, UNDEFINED};
use crate::state::{
    big_shown, bigint_too_large, mapped, tag_name, Elements, EnumForm, Len, Shown, State,
};
use crate::wire::{
    argument_len, big_endian, double_bits, gets_through, head, segment, segments, shortest, Flaw,
    Head, Kind,
};

verus! {

/// The last `len` bytes of a number, the most significant one first.
pub open spec fn be_bytes(value: nat, len: nat) -> Seq<u8>
    decreases len,
{
    if len == 0 {
        seq![]
    } else {
        be_bytes(value / 256, (len - 1) as nat).push((value % 256) as u8)
    }
}

/// The minor value in the first byte of a head that takes `width` bytes.
pub open spec fn minor(argument: nat, width: nat) -> nat {
    if width == 1 {
        argument
    } else if width == 2 {
        24
    } else if width == 3 {
        25
    } else if width == 5 {
        26
    } else {
        27
    }
}

/// Whether a head of `width` bytes can hold this argument.
pub open spec fn holds(argument: nat, width: nat) -> bool {
    ||| width == 1 && argument < 24
    ||| width == 2 && argument < 0x100
    ||| width == 3 && argument < 0x1_0000
    ||| width == 5 && argument < 0x1_0000_0000
    ||| width == 9 && argument < 0x1_0000_0000_0000_0000
}

/// The head of this major type and argument in `width` bytes.
pub open spec fn encoded(major: nat, argument: nat, width: nat) -> Seq<u8> {
    seq![(major * 32 + minor(argument, width)) as u8] + be_bytes(argument, (width - 1) as nat)
}

/// A number of `len` bytes is read back from these bytes.
pub proof fn lemma_be_bytes(value: nat, len: nat)
    requires
        value < pow(256, len),
    ensures
        be_bytes(value, len).len() == len,
        big_endian(be_bytes(value, len)) == value,
    decreases len,
{
    if len == 0 {
        reveal(pow);
    } else {
        lemma_pow_adds(256, (len - 1) as nat, 1);
        assert(pow(256, 1) == 256) by {
            reveal_with_fuel(pow, 2);
        }
        assert(value / 256 < pow(256, (len - 1) as nat)) by (nonlinear_arith)
            requires
                value < pow(256, (len - 1) as nat) * 256,
        ;
        lemma_be_bytes(value / 256, (len - 1) as nat);
        let bytes = be_bytes(value, len);
        assert(bytes.drop_last() =~= be_bytes(value / 256, (len - 1) as nat));
    }
}

proof fn lemma_holds(argument: nat, width: nat)
    requires
        holds(argument, width),
    ensures
        argument < pow(256, (width - 1) as nat) || width == 1,
{
    reveal_with_fuel(pow, 9);
}

/// The head of any major type but the last is read back in any width that holds
/// its argument.
pub proof fn lemma_encoded(major: nat, argument: nat, width: nat, rest: Seq<u8>)
    requires
        major < 7,
        holds(argument, width),
    ensures
        encoded(major, argument, width).len() == width,
        ({
            let bytes = encoded(major, argument, width) + rest;
            &&& head(bytes).width == width
            &&& bytes.skip(width as int) == rest
            &&& major == 0 ==> head(bytes).header == Ok::<Header, Flaw>(
                Header::Positive(argument as u64),
            )
            &&& major == 1 ==> head(bytes).header == Ok::<Header, Flaw>(
                Header::Negative(argument as u64),
            )
            &&& major == 6 ==> head(bytes).header == Ok::<Header, Flaw>(
                Header::Tag(argument as u64),
            )
            &&& argument <= usize::MAX ==> {
                let len = Some(argument as usize);
                &&& major == 2 ==> head(bytes).header == Ok::<Header, Flaw>(Header::Bytes(len))
                &&& major == 3 ==> head(bytes).header == Ok::<Header, Flaw>(Header::Text(len))
                &&& major == 4 ==> head(bytes).header == Ok::<Header, Flaw>(Header::Array(len))
                &&& major == 5 ==> head(bytes).header == Ok::<Header, Flaw>(Header::Mapping(len))
            }
        }),
{
    let argument_bytes = be_bytes(argument, (width - 1) as nat);
    if width > 1 {
        lemma_holds(argument, width);
        lemma_be_bytes(argument, (width - 1) as nat);
    }
    let bytes = encoded(major, argument, width) + rest;
    let first = (major * 32 + minor(argument, width)) as u8;
    assert(bytes[0] == first);
    assert(first % 32 == minor(argument, width) && first / 32 == major);
    assert(argument_len(first) == width - 1);
    assert(bytes.subrange(1, width as int) =~= argument_bytes);
    assert(bytes.skip(width as int) =~= rest);
}

/// A simple value of one byte is read back.
pub proof fn lemma_simple(value: u8, rest: Seq<u8>)
    requires
        value < 24,
    ensures
        ({
            let bytes = seq![(0xe0 + value) as u8] + rest;
            &&& head(bytes) == (Head { header: Ok(Header::Simple(value)), width: 1 })
            &&& bytes.skip(1) == rest
        }),
{
    let bytes = seq![(0xe0 + value) as u8] + rest;
    assert(bytes[0] % 32 == value && bytes[0] / 32 == 7);
    assert(bytes.skip(1) =~= rest);
}

/// A double is read back from its bits.
pub proof fn lemma_double(bits: u64, rest: Seq<u8>)
    ensures
        ({
            let bytes = seq![0xfbu8] + be_bytes(bits as nat, 8) + rest;
            &&& head(bytes) == (Head { header: Ok(Header::Float(canonical(bits))), width: 9 })
            &&& double_bits(bytes) == Some(bits)
            &&& bytes.skip(9) == rest
        }),
{
    lemma_holds(bits as nat, 9);
    lemma_be_bytes(bits as nat, 8);
    let bytes = seq![0xfbu8] + be_bytes(bits as nat, 8) + rest;
    assert(bytes.subrange(1, 9) =~= be_bytes(bits as nat, 8));
    assert(bytes.skip(9) =~= rest);
}

impl State {
    /// Whether these bytes come next.
    pub open spec fn starts_with(self, bytes: Seq<u8>, rest: Seq<u8>) -> bool {
        self.input.front !is Held && self.input.unread == bytes + rest
    }

    /// Whether just these bytes have been read since `before`, and `rest` is left.
    pub open spec fn follows(self, before: State, bytes: Seq<u8>, rest: Seq<u8>) -> bool {
        &&& self.input.unread == rest
        &&& self.input.front !is Held
        &&& self.input.position == before.input.position + bytes.len()
        &&& self.room == before.room
        &&& self.budget == before.budget
    }
}

/// A number that is not negative is read back as an integer of every type that
/// it fits, in any width, and nothing after it is touched.
pub proof fn law_unsigned_reads_back(state: State, x: u64, width: nat, rest: Seq<u8>)
    requires
        holds(x as nat, width),
        state.starts_with(encoded(0, x as nat, width), rest),
    ensures
        state.u64().0 == Ok::<u64, Fault>(x),
        state.u128().0 == Ok::<u128, Fault>(x as u128),
        state.i128().0 == Ok::<i128, Fault>(x as i128),
        x <= i64::MAX ==> state.i64().0 == Ok::<i64, Fault>(x as i64),
        x > i64::MAX ==> state.i64().0 == Err::<i64, Fault>(
            Fault::Semantic(None, "integer too large"@),
        ),
        state.u64().1.follows(state, encoded(0, x as nat, width), rest),
        state.u128().1 == state.u64().1,
        state.i64().1 == state.u64().1,
        state.i128().1 == state.u64().1,
{
    lemma_encoded(0, x as nat, width, rest);
}

/// A negative number is read back as an integer of every signed type that it
/// fits, in any width, and is none of any unsigned type.
pub proof fn law_negative_reads_back(state: State, x: u64, width: nat, rest: Seq<u8>)
    requires
        holds(x as nat, width),
        state.starts_with(encoded(1, x as nat, width), rest),
    ensures
        state.i128().0 == Ok::<i128, Fault>((-1 - x) as i128),
        x <= i64::MAX ==> state.i64().0 == Ok::<i64, Fault>((-1 - x) as i64),
        x > i64::MAX ==> state.i64().0 == Err::<i64, Fault>(
            Fault::Semantic(None, "integer too large"@),
        ),
        state.u64().0 == Err::<u64, Fault>(Fault::Semantic(None, "unexpected negative integer"@)),
        state.u128().0 == Err::<u128, Fault>(Fault::Semantic(None, "unexpected negative integer"@)),
        state.i64().1.follows(state, encoded(1, x as nat, width), rest),
        state.i128().1 == state.i64().1,
        state.u64().1 == state.i64().1,
        state.u128().1 == state.i64().1,
{
    lemma_encoded(1, x as nat, width, rest);
}

/// Booleans, null and undefined are read back from their one byte.
pub proof fn law_simple_reads_back(state: State, value: u8, rest: Seq<u8>)
    requires
        FALSE <= value <= UNDEFINED,
        state.starts_with(seq![(0xe0 + value) as u8], rest),
    ensures
        value == FALSE ==> state.bool().0 == Ok::<bool, Fault>(false),
        value == TRUE ==> state.bool().0 == Ok::<bool, Fault>(true),
        value == NULL || value == UNDEFINED ==> state.unit().0 == Ok::<(), Fault>(()),
        value == NULL || value == UNDEFINED ==> state.option().0 == Ok::<bool, Fault>(false),
        state.bool().1.follows(state, seq![(0xe0 + value) as u8], rest),
        state.unit().1 == state.bool().1,
        value == NULL || value == UNDEFINED ==> state.option().1 == state.bool().1,
{
    lemma_simple(value, rest);
}

/// A double is read back bit by bit, also one that is not a number.
pub proof fn law_float_reads_back(state: State, bits: u64, rest: Seq<u8>)
    requires
        state.starts_with(seq![0xfbu8] + be_bytes(bits as nat, 8), rest),
    ensures
        state.input.double_bits() == Some(bits),
        state.float().0 == Ok::<u64, Fault>(canonical(bits)),
        state.float().1.follows(state, seq![0xfbu8] + be_bytes(bits as nat, 8), rest),
{
    lemma_holds(bits as nat, 9);
    lemma_be_bytes(bits as nat, 8);
    lemma_double(bits, rest);
}

/// A byte string of definite length is read back, as bytes if it fits the
/// scratch buffer, and as a buffer or the elements of a sequence in any case.
pub proof fn law_bytes_read_back(state: State, bytes: Seq<u8>, width: nat, rest: Seq<u8>)
    requires
        bytes.len() <= usize::MAX,
        holds(bytes.len(), width),
        state.starts_with(encoded(2, bytes.len(), width) + bytes, rest),
    ensures
        bytes.len() <= state.room ==> state.bytes().0 == Ok::<Elements, Fault>(
            Elements::Bytes(bytes),
        ),
        bytes.len() <= state.room ==> state.bytes().1 == state.byte_buf().1,
        state.byte_buf().0 == Ok::<Elements, Fault>(Elements::Bytes(bytes)),
        state.byte_buf().1.follows(state, encoded(2, bytes.len(), width) + bytes, rest),
        state.seq() == state.byte_buf(),
{
    let all = encoded(2, bytes.len(), width) + bytes + rest;
    assert(all =~= encoded(2, bytes.len(), width) + (bytes + rest));
    lemma_encoded(2, bytes.len(), width, bytes + rest);
    assert((bytes + rest).take(bytes.len() as int) =~= bytes);
    assert((bytes + rest).skip(bytes.len() as int) =~= rest);
}

/// A text of definite length is read back, as a short text if it fits the
/// scratch buffer, and as a string in any case; what is not UTF-8 is no text.
pub proof fn law_text_reads_back(state: State, bytes: Seq<u8>, width: nat, rest: Seq<u8>)
    requires
        bytes.len() <= usize::MAX,
        holds(bytes.len(), width),
        state.starts_with(encoded(3, bytes.len(), width) + bytes, rest),
    ensures
        valid_utf8(bytes) ==> {
            &&& state.string().0 == Ok::<Seq<char>, Fault>(decode_utf8(bytes))
            &&& state.string().1.follows(state, encoded(3, bytes.len(), width) + bytes, rest)
            &&& bytes.len() <= state.room ==> state.str() == state.string()
            &&& bytes.len() <= state.room ==> state.identifier() == state.string()
        },
        !valid_utf8(bytes) ==> {
            &&& gets_through(Kind::Text, bytes + rest, bytes.len(), state.room)
                ==> (state.string().0 matches Err(Fault::Syntax(_)))
            &&& bytes.len() <= state.room ==> state.str().0 == Err::<Seq<char>, Fault>(
                Fault::Syntax(state.input.position),
            )
            &&& bytes.len() <= state.room ==> state.identifier().0 == state.str().0
        },
{
    let all = encoded(3, bytes.len(), width) + bytes + rest;
    assert(all =~= encoded(3, bytes.len(), width) + (bytes + rest));
    lemma_encoded(3, bytes.len(), width, bytes + rest);
    assert((bytes + rest).take(bytes.len() as int) =~= bytes);
    assert((bytes + rest).skip(bytes.len() as int) =~= rest);
    if gets_through(Kind::Text, bytes + rest, bytes.len(), state.room) {
        lemma_all_there(bytes + rest, bytes.len(), state.room);
    }
}

/// A character is read back from the text that holds it alone, and any other
/// text of at most four bytes is no character.
pub proof fn law_char_reads_back(state: State, bytes: Seq<u8>, width: nat, rest: Seq<u8>)
    requires
        bytes.len() <= 4,
        holds(bytes.len(), width),
        valid_utf8(bytes),
        state.starts_with(encoded(3, bytes.len(), width) + bytes, rest),
    ensures
        decode_utf8(bytes).len() == 1 ==> state.char().0 == Ok::<char, Fault>(
            decode_utf8(bytes)[0],
        ),
        decode_utf8(bytes).len() != 1 ==> state.char().0 is Err,
        state.char().1.follows(state, encoded(3, bytes.len(), width) + bytes, rest),
{
    let all = encoded(3, bytes.len(), width) + bytes + rest;
    assert(all =~= encoded(3, bytes.len(), width) + (bytes + rest));
    lemma_encoded(3, bytes.len(), width, bytes + rest);
    assert((bytes + rest).take(bytes.len() as int) =~= bytes);
    assert((bytes + rest).skip(bytes.len() as int) =~= rest);
}

/// A leading zero does not change a number.
proof fn lemma_leading_zero(bytes: Seq<u8>)
    ensures
        big_endian(seq![0u8] + bytes) == big_endian(bytes),
    decreases bytes.len(),
{
    let all = seq![0u8] + bytes;
    if bytes.len() == 0 {
        assert(all.drop_last() =~= seq![]);
        assert(big_endian(all.drop_last()) == 0);
        assert(bytes =~= seq![]);
    } else {
        assert(all.drop_last() =~= seq![0u8] + bytes.drop_last());
        lemma_leading_zero(bytes.drop_last());
    }
}

/// The significant bytes stand for the same number as all of them.
pub proof fn lemma_significant_value(bytes: Seq<u8>)
    ensures
        big_endian(significant(bytes)) == big_endian(bytes),
    decreases bytes.len(),
{
    if bytes.len() > 0 && bytes[0] == 0 {
        assert(bytes =~= seq![0u8] + bytes.drop_first());
        lemma_leading_zero(bytes.drop_first());
        lemma_significant_value(bytes.drop_first());
    }
}

/// The bytes of an integer in a byte string.
pub open spec fn encoded_bignum(
    negative: bool,
    magnitude: Seq<u8>,
    tag_width: nat,
    width: nat,
) -> Seq<u8> {
    let tag = if negative {
        BIGNEG
    } else {
        BIGPOS
    };
    encoded(6, tag as nat, tag_width) + (encoded(2, magnitude.len(), width) + magnitude)
}

/// What the byte string of an integer comes to once its tag has been read.
proof fn lemma_bignum_body(
    state: State,
    negative: bool,
    keep: bool,
    magnitude: Seq<u8>,
    width: nat,
    rest: Seq<u8>,
)
    requires
        magnitude.len() <= usize::MAX,
        holds(magnitude.len(), width),
        state.starts_with(encoded(2, magnitude.len(), width) + magnitude, rest),
    ensures
        keep || significant(magnitude).len() <= MAX_LEN ==> state.bignum(negative, keep).1.follows(
            state,
            encoded(2, magnitude.len(), width) + magnitude,
            rest,
        ),
        state.bignum(negative, keep).0 == (if significant(magnitude).len() <= MAX_LEN {
            Ok(
                IntegerView {
                    negative,
                    raw: big_endian(magnitude) as u128,
                    overflow: seq![],
                },
            )
        } else if keep {
            Ok(IntegerView { negative: false, raw: 0, overflow: significant(magnitude) })
        } else {
            Err::<IntegerView, Fault>(bigint_too_large())
        }),
        significant(magnitude).len() <= MAX_LEN ==> big_endian(magnitude) <= u128::MAX,
{
    let all = encoded(2, magnitude.len(), width) + magnitude + rest;
    assert(all =~= encoded(2, magnitude.len(), width) + (magnitude + rest));
    lemma_encoded(2, magnitude.len(), width, magnitude + rest);
    assert((magnitude + rest).take(magnitude.len() as int) =~= magnitude);
    assert((magnitude + rest).skip(magnitude.len() as int) =~= rest);
    lemma_significant_value(magnitude);
    if significant(magnitude).len() <= MAX_LEN {
        lemma_big_endian_fits(significant(magnitude));
    }
}

/// What an integer comes to by its tag.
proof fn lemma_under_bignum_tag(state: State, negative: bool)
    requires
        state.input.pull().0 == Ok::<Header, Fault>(
            Header::Tag(
                if negative {
                    BIGNEG
                } else {
                    BIGPOS
                },
            ),
        ),
    ensures
        ({
            let tag = if negative {
                BIGNEG
            } else {
                BIGPOS
            };
            let tagged = state.with(state.input.pull().1);
            let (integer, after) = tagged.bignum(negative, true);
            &&& state.integer(None, false) == tagged.bignum(negative, false)
            &&& state.any() == (
                match integer {
                    Ok(integer) => big_shown(tag, integer),
                    Err(fault) => Err(fault),
                },
                after,
            )
        }),
{
    let after = state.input.pull().1;
    assert(state.input.sign() == (Ok::<(bool, Option<u64>), Fault>((negative, None)), after));
}

/// What the tag of an integer in a byte string comes to.
proof fn lemma_bignum_tag(
    state: State,
    negative: bool,
    magnitude: Seq<u8>,
    tag_width: nat,
    width: nat,
    rest: Seq<u8>,
)
    requires
        magnitude.len() <= usize::MAX,
        holds(3, tag_width),
        holds(magnitude.len(), width),
        state.starts_with(encoded_bignum(negative, magnitude, tag_width, width), rest),
    ensures
        ({
            let tag = if negative {
                BIGNEG
            } else {
                BIGPOS
            };
            let tagged = state.with(state.input.pull().1);
            let (integer, after) = tagged.bignum(negative, true);
            &&& tagged.starts_with(encoded(2, magnitude.len(), width) + magnitude, rest)
            &&& tagged.input.position == state.input.position + tag_width
            &&& encoded_bignum(negative, magnitude, tag_width, width).len() == tag_width + (
            encoded(2, magnitude.len(), width) + magnitude).len()
            &&& state.integer(None, false) == tagged.bignum(negative, false)
            &&& state.any() == (
                match integer {
                    Ok(integer) => big_shown(tag, integer),
                    Err(fault) => Err(fault),
                },
                after,
            )
        }),
{
    let tag: nat = if negative {
        3
    } else {
        2
    };
    let string = encoded(2, magnitude.len(), width) + magnitude;
    let all = encoded_bignum(negative, magnitude, tag_width, width) + rest;
    assert(all =~= encoded(6, tag, tag_width) + (string + rest));
    lemma_encoded(6, tag, tag_width, string + rest);
    let (pulled, after) = state.input.pull();
    let tagged = state.with(after);
    assert(pulled == Ok::<Header, Fault>(Header::Tag(tag as u64)));
    assert(tagged.starts_with(string, rest));
    lemma_under_bignum_tag(state, negative);
}

/// An integer in a byte string is read back, whatever zeros lead its magnitude,
/// if that takes at most sixteen bytes without them. A larger one is an error,
/// unless a value of any kind is asked for: that shows the tag and the bytes.
#[verifier::spinoff_prover]
pub proof fn law_bignum_reads_back(
    state: State,
    negative: bool,
    magnitude: Seq<u8>,
    tag_width: nat,
    width: nat,
    rest: Seq<u8>,
)
    requires
        magnitude.len() <= usize::MAX,
        holds(3, tag_width),
        holds(magnitude.len(), width),
        state.starts_with(encoded_bignum(negative, magnitude, tag_width, width), rest),
    ensures
        significant(magnitude).len() <= MAX_LEN ==> {
            let raw = big_endian(magnitude) as u128;
            &&& raw == big_endian(magnitude)
            &&& state.u64().0 == u64_in(negative, raw)
            &&& state.u128().0 == u128_in(negative, raw)
            &&& state.i64().0 == i64_in(negative, raw)
            &&& state.i128().0 == i128_in(negative, raw)
            &&& negative ==> state.any().0 == mapped(i128_in(true, raw), |x| Shown::I128(x))
            &&& !negative ==> state.any().0 == Ok::<Shown, Fault>(Shown::U128(raw))
        },
        significant(magnitude).len() > MAX_LEN ==> {
            let tag = if negative {
                BIGNEG
            } else {
                BIGPOS
            };
            &&& state.u64().0 == Err::<u64, Fault>(bigint_too_large())
            &&& state.u128().0 == Err::<u128, Fault>(bigint_too_large())
            &&& state.i64().0 == Err::<i64, Fault>(bigint_too_large())
            &&& state.i128().0 == Err::<i128, Fault>(bigint_too_large())
            &&& state.any().0 == Ok::<Shown, Fault>(Shown::Bignum(tag, significant(magnitude)))
        },
        state.any().1.follows(
            state,
            encoded_bignum(negative, magnitude, tag_width, width),
            rest,
        ),
        significant(magnitude).len() <= MAX_LEN ==> state.u64().1 == state.any().1,
{
    lemma_bignum_tag(state, negative, magnitude, tag_width, width, rest);
    let tagged = state.with(state.input.pull().1);
    lemma_bignum_body(tagged, negative, false, magnitude, width, rest);
    lemma_bignum_body(tagged, negative, true, magnitude, width, rest);
}

/// The segments of a string, each under a head of its own, and the break.
pub open spec fn segmented(major: nat, parts: Seq<Seq<u8>>) -> Seq<u8>
    decreases parts.len(),
{
    if parts.len() == 0 {
        seq![0xffu8]
    } else {
        encoded(major, parts[0].len(), shortest(parts[0].len())) + (parts[0] + segmented(
            major,
            parts.drop_first(),
        ))
    }
}

/// The major type of a kind of string.
pub open spec fn major_of(kind: Kind) -> nat {
    match kind {
        Kind::Bytes => 2,
        Kind::Text => 3,
    }
}

/// Whether these can be the segments of a string of this kind.
pub open spec fn are_segments(kind: Kind, parts: Seq<Seq<u8>>) -> bool {
    forall|i: int|
        0 <= i < parts.len() ==> {
            &&& (#[trigger] parts[i]).len() <= usize::MAX
            &&& kind is Text ==> valid_utf8(parts[i])
        }
}

proof fn lemma_break(rest: Seq<u8>)
    ensures
        head(seq![0xffu8] + rest) == (Head { header: Ok(Header::Break), width: 1 }),
        (seq![0xffu8] + rest).skip(1) == rest,
{
    assert((seq![0xffu8] + rest).skip(1) =~= rest);
}

/// Segments are read back one after the other.
#[verifier::spinoff_prover]
pub proof fn lemma_segments(kind: Kind, parts: Seq<Seq<u8>>, offset: nat, room: nat, rest: Seq<u8>)
    requires
        are_segments(kind, parts),
    ensures
        ({
            let bytes = segmented(major_of(kind), parts);
            let body = segments(kind, bytes + rest, offset, 1, room);
            &&& body.content == parts.flatten()
            &&& body.fault is None
            &&& body.taken == bytes.len()
        }),
    decreases parts.len(),
{
    let major = major_of(kind);
    if parts.len() == 0 {
        lemma_break(rest);
        assert(segments(kind, seq![0xffu8] + rest, offset, 1, room).content =~= parts.flatten());
    } else {
        let part = parts[0];
        let others = parts.drop_first();
        let width = shortest(part.len());
        let tail = segmented(major, others) + rest;
        let bytes = segmented(major, parts) + rest;
        assert(bytes =~= encoded(major, part.len(), width) + (part + tail));
        lemma_encoded(major, part.len(), width, part + tail);
        assert((part + tail).take(part.len() as int) =~= part);
        assert((part + tail).skip(part.len() as int) =~= tail);
        assert(are_segments(kind, others)) by {
            assert forall|i: int| 0 <= i < others.len() implies {
                &&& (#[trigger] others[i]).len() <= usize::MAX
                &&& kind is Text ==> valid_utf8(others[i])
            } by {
                assert(others[i] == parts[i + 1]);
            }
        }
        lemma_segments(kind, others, offset + width + part.len(), room, rest);
        assert(segment(kind, part + tail, offset, part.len(), room).fault is None);
        assert(segments(kind, bytes, offset, 1, room).content =~= parts.flatten());
    }
}

proof fn lemma_flatten_valid(parts: Seq<Seq<u8>>)
    requires
        are_segments(Kind::Text, parts),
    ensures
        valid_utf8(parts.flatten()),
    decreases parts.len(),
{
    if parts.len() > 0 {
        let others = parts.drop_first();
        assert forall|i: int| 0 <= i < others.len() implies valid_utf8(#[trigger] others[i]) by {
            assert(others[i] == parts[i + 1]);
        }
        assert forall|i: int| 0 <= i < others.len() implies (#[trigger] others[i]).len()
            <= usize::MAX by {
            assert(others[i] == parts[i + 1]);
        }
        lemma_flatten_valid(others);
        valid_utf8_concat(parts[0], others.flatten());
    }
}

/// A byte string in segments is read as one: how it was cut makes no
/// difference.
pub proof fn law_segmented_bytes_read_back(state: State, parts: Seq<Seq<u8>>, rest: Seq<u8>)
    requires
        are_segments(Kind::Bytes, parts),
        state.starts_with(seq![0x5fu8] + segmented(2, parts), rest),
    ensures
        state.byte_buf().0 == Ok::<Elements, Fault>(Elements::Bytes(parts.flatten())),
        state.byte_buf().1.follows(state, seq![0x5fu8] + segmented(2, parts), rest),
        state.seq() == state.byte_buf(),
{
    let tail = segmented(2, parts) + rest;
    let all = seq![0x5fu8] + segmented(2, parts) + rest;
    assert(all.skip(1) =~= tail);
    assert(head(all) == (Head { header: Ok(Header::Bytes(None)), width: 1 }));
    lemma_segments(Kind::Bytes, parts, state.input.position + 1, state.room, rest);
    assert(tail.skip(segmented(2, parts).len() as int) =~= rest);
}

/// A text in segments is read as one: how it was cut makes no difference, but
/// no character may be cut.
pub proof fn law_segmented_text_reads_back(state: State, parts: Seq<Seq<u8>>, rest: Seq<u8>)
    requires
        are_segments(Kind::Text, parts),
        state.starts_with(seq![0x7fu8] + segmented(3, parts), rest),
    ensures
        valid_utf8(parts.flatten()),
        state.string().0 == Ok::<Seq<char>, Fault>(decode_utf8(parts.flatten())),
        state.string().1.follows(state, seq![0x7fu8] + segmented(3, parts), rest),
{
    lemma_flatten_valid(parts);
    let tail = segmented(3, parts) + rest;
    let all = seq![0x7fu8] + segmented(3, parts) + rest;
    assert(all.skip(1) =~= tail);
    assert(head(all) == (Head { header: Ok(Header::Text(None)), width: 1 }));
    lemma_segments(Kind::Text, parts, state.input.position + 1, state.room, rest);
    assert(tail.skip(segmented(3, parts).len() as int) =~= rest);
}

/// Whether `after` is past just these bytes, with one more level open.
pub open spec fn opens(after: State, before: State, bytes: Seq<u8>, rest: Seq<u8>) -> bool {
    &&& before.budget > 0
    &&& after.budget == before.budget - 1
    &&& after.with_budget(before.budget).follows(before, bytes, rest)
}

/// The head of an array with this length, or of one that a break ends.
pub open spec fn array_head(len: Option<usize>, width: nat) -> Seq<u8> {
    match len {
        Some(len) => encoded(4, len as nat, width),
        None => seq![0x9fu8],
    }
}

/// The head of a map with this length, or of one that a break ends.
pub open spec fn map_head(len: Option<usize>, width: nat) -> Seq<u8> {
    match len {
        Some(len) => encoded(5, len as nat, width),
        None => seq![0xbfu8],
    }
}

/// An array is opened with the length that its head has.
pub proof fn law_array_opens(state: State, len: Option<usize>, width: nat, rest: Seq<u8>)
    requires
        len matches Some(len) ==> holds(len as nat, width),
        state.starts_with(array_head(len, width), rest),
        state.budget > 0,
    ensures
        state.seq().0 == Ok::<Elements, Fault>(Elements::Array(len)),
        state.bytes() == state.seq(),
        state.byte_buf() == state.seq(),
        state.any() == (Ok::<Shown, Fault>(Shown::Sequence(Elements::Array(len))), state.seq().1),
        opens(state.seq().1, state, array_head(len, width), rest),
{
    match len {
        Some(len) => lemma_encoded(4, len as nat, width, rest),
        None => {
            assert((seq![0x9fu8] + rest).skip(1) =~= rest);
        },
    }
    let held = state.with(state.input.pull().1.pushed());
    assert(held.input.pull().1 == state.input.pull().1);
}

/// A map is opened with the length that its head has.
pub proof fn law_map_opens(state: State, len: Option<usize>, width: nat, rest: Seq<u8>)
    requires
        len matches Some(len) ==> holds(len as nat, width),
        state.starts_with(map_head(len, width), rest),
        state.budget > 0,
    ensures
        state.map().0 == Ok::<Len, Fault>(len),
        state.any() == (Ok::<Shown, Fault>(Shown::Mapping(len)), state.map().1),
        opens(state.map().1, state, map_head(len, width), rest),
{
    match len {
        Some(len) => lemma_encoded(5, len as nat, width, rest),
        None => {
            assert((seq![0xbfu8] + rest).skip(1) =~= rest);
        },
    }
    let held = state.with(state.input.pull().1.pushed());
    assert(held.input.pull().1 == state.input.pull().1);
}

/// A tag is read back by an enum of the name for tags, and by a value of any kind
/// unless it is the tag of an integer.
pub proof fn law_tag_reads_back(state: State, tag: u64, width: nat, rest: Seq<u8>)
    requires
        holds(tag as nat, width),
        state.starts_with(encoded(6, tag as nat, width), rest),
        state.budget > 0,
    ensures
        state.enumeration(tag_name()).0 == Ok::<EnumForm, Fault>(EnumForm::Tag(Some(tag))),
        opens(state.enumeration(tag_name()).1, state, encoded(6, tag as nat, width), rest),
        tag != BIGPOS && tag != BIGNEG ==> state.any() == (
            Ok::<Shown, Fault>(Shown::Tag(tag)),
            state.enumeration(tag_name()).1,
        ),
{
    lemma_encoded(6, tag as nat, width, rest);
    let held = state.with(state.input.pull().1.pushed());
    assert(held.input.pull().1 == state.input.pull().1);
}

/// An enum is a map of one pair, whose key is the variant and is read next, or a
/// text, which is the variant itself and is left to be read.
pub proof fn law_enum_opens(state: State, name: Seq<char>, len: usize, width: nat, rest: Seq<u8>)
    requires
        name != tag_name(),
        state.budget > 0,
    ensures
        holds(1, width) && state.starts_with(encoded(5, 1, width), rest) ==> {
            &&& state.enumeration(name).0 == Ok::<EnumForm, Fault>(EnumForm::Variant(Some(0)))
            &&& opens(state.enumeration(name).1, state, encoded(5, 1, width), rest)
        },
        holds(len as nat, width) && state.starts_with(encoded(3, len as nat, width), rest) ==> {
            let after = state.enumeration(name).1;
            &&& state.enumeration(name).0 == Ok::<EnumForm, Fault>(EnumForm::Variant(Some(0)))
            &&& after.budget == state.budget - 1
            &&& after.input.pull() == state.input.pull()
            &&& after.string().0 == state.string().0
            &&& after.string().1.input == state.string().1.input
        },
{
    if holds(1, width) && state.starts_with(encoded(5, 1, width), rest) {
        lemma_encoded(5, 1, width, rest);
    }
    if holds(len as nat, width) && state.starts_with(encoded(3, len as nat, width), rest) {
        lemma_encoded(3, len as nat, width, rest);
    }
}

} // verus!
