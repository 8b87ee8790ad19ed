//! What holds between the reads.

use vstd::prelude::*;

use crate::bignum::{IntegerView, MAX_LEN};
use crate::chunks::lemma_broken_text;
use crate::decoder::{Front, Input};
use crate::error::Fault;
use crate::header::{Header, BIGNEG, BIGPOS, FALSE, NULL, TRUE, UNDEFINED};
use crate::overflow::lemma_overflow_bound;
use crate::state::{big_shown, mapped, next, tag_name, Elements, EnumForm, Len, Shown, Sign, State};
use crate::wire::{head, segment, segments, string_len, Kind};

verus! {

pub proof fn lemma_past_past(last: Input, middle: Input, first: Input)
    requires
        last.is_past(middle),
        middle.is_past(first),
    ensures
        last.is_past(first),
{
    assert(last.unread =~= first.unread.skip(last.position - first.position));
}

/// Taking a header is no matter of levels, and takes something.
pub proof fn lemma_pull(input: Input)
    ensures
        input.pull().1.is_past(input),
        input.pull().0 is Ok ==> input.pull().1.pending() < input.pending(),
        input.pull().0 is Ok ==> input.pull().1.front == Front::Pulled(input.pull().0->Ok_0),
        input.pull().1.front !is Held,
        input.pull().0 != Err::<Header, Fault>(Fault::RecursionLimitExceeded),
{
    assert(input.unread.skip(0) =~= input.unread);
}

pub proof fn lemma_untagged(input: Input)
    ensures
        input.untagged().2.is_past(input),
        input.untagged().0 is Ok ==> input.untagged().2.pending() < input.pending(),
        input.untagged().2.front !is Held,
        input.untagged().0 != Err::<Header, Fault>(Fault::RecursionLimitExceeded),
    decreases input.pending(),
{
    lemma_pull(input);
    let (pulled, after) = input.pull();
    if let Ok(Header::Tag(_)) = pulled {
        lemma_untagged(after);
        lemma_past_past(after.untagged().2, after, input);
    }
}

pub proof fn lemma_sign(input: Input)
    ensures
        input.sign().1.is_past(input),
        input.sign().0 is Ok ==> input.sign().1.pending() < input.pending(),
        input.sign().1.front !is Held,
        input.sign().0 != Err::<Sign, Fault>(Fault::RecursionLimitExceeded),
    decreases input.pending(),
{
    lemma_pull(input);
    let (pulled, after) = input.pull();
    if let Ok(Header::Tag(_)) = pulled {
        lemma_sign(after);
        lemma_past_past(after.sign().1, after, input);
    }
}

proof fn lemma_segment(kind: Kind, bytes: Seq<u8>, offset: nat, len: nat, room: nat)
    ensures
        segment(kind, bytes, offset, len, room).taken <= bytes.len(),
        segment(kind, bytes, offset, len, room).fault != Some(Fault::RecursionLimitExceeded),
{
    let size = bytes.len();
    lemma_broken_text(seq![], bytes, len, room);
    if room > 0 {
        assert(size / room * room <= size) by (nonlinear_arith)
            requires
                room > 0,
        ;
    } else {
        assert(size / room * room == 0) by (nonlinear_arith)
            requires
                room == 0,
        ;
    }
}

pub proof fn lemma_segments_end(kind: Kind, bytes: Seq<u8>, offset: nat, nested: nat, room: nat)
    ensures
        segments(kind, bytes, offset, nested, room).taken <= bytes.len(),
        segments(kind, bytes, offset, nested, room).fault != Some(Fault::RecursionLimitExceeded),
    decreases bytes.len(),
{
    let front = head(bytes);
    let rest = bytes.skip(front.width as int);
    let next = offset + front.width;
    if let Ok(header) = front.header {
        if header is Break {
            if nested > 1 {
                lemma_segments_end(kind, rest, next, (nested - 1) as nat, room);
            }
        } else if let Some(len) = string_len(kind, header) {
            match len {
                None => {
                    lemma_segments_end(kind, rest, next, nested + 1, room);
                },
                Some(len) => {
                    let one = segment(kind, rest, offset, len as nat, room);
                    lemma_segment(kind, rest, offset, len as nat, room);
                    lemma_segments_end(
                        kind,
                        rest.skip(one.taken as int),
                        next + one.taken,
                        nested,
                        room,
                    );
                },
            }
        }
    }
}

pub proof fn lemma_body(input: Input, kind: Kind, len: Option<usize>, room: nat)
    ensures
        input.after_body(kind, len, room).is_past(input),
        input.after_body(kind, len, room).pending() <= input.pending(),
        input.body(kind, len, room).fault != Some(Fault::RecursionLimitExceeded),
{
    match len {
        Some(len) => {
            lemma_segment(kind, input.unread, input.pushed().offset(), len as nat, room);
        },
        None => {
            lemma_segments_end(kind, input.unread, input.position, 1, room);
        },
    }
}

/// A tag makes no difference to a read that has no use for it: the item under
/// it is read as if it stood alone. To an integer, two tags make a difference.
pub proof fn law_tags_are_skipped(state: State, name: Seq<char>)
    requires
        state.input.pull().0 matches Ok(Header::Tag(_)),
    ensures
        ({
            let under = state.with(state.input.pull().1);
            &&& state.bool() == under.bool()
            &&& state.float() == under.float()
            &&& state.unit() == under.unit()
            &&& state.char() == under.char()
            &&& state.str() == under.str()
            &&& state.string() == under.string()
            &&& state.identifier() == under.identifier()
            &&& state.bytes() == under.bytes()
            &&& state.byte_buf() == under.byte_buf()
            &&& state.seq() == under.seq()
            &&& state.map() == under.map()
            &&& name != tag_name() ==> state.enumeration(name) == under.enumeration(name)
            &&& state.input.pull().0 matches Ok(Header::Tag(tag)) && (tag != BIGPOS && tag != BIGNEG
                ==> {
                &&& state.u64() == under.u64()
                &&& state.u128() == under.u128()
                &&& state.i64() == under.i64()
                &&& state.i128() == under.i128()
            })
        }),
{
    let under = state.with(state.input.pull().1);
    assert(state.input.untagged() == under.input.untagged());
}

/// A header that is looked at and put back comes again, so that a read makes
/// the same of the input as if nobody had looked. Only an offset in an error may
/// differ: a header that was put back counts by its shortest form.
pub proof fn law_looking_ahead(state: State, name: Seq<char>)
    requires
        state.input.pull().0 is Ok,
    ensures
        ({
            let held = state.with(state.input.pull().1.pushed());
            &&& held.input.pull() == state.input.pull()
            &&& held.u64() == state.u64()
            &&& held.u128() == state.u128()
            &&& held.i64() == state.i64()
            &&& held.i128() == state.i128()
            &&& held.float() == state.float()
            &&& held.unit() == state.unit()
            &&& held.string() == state.string()
            &&& held.bytes() == state.bytes()
            &&& held.byte_buf() == state.byte_buf()
            &&& held.seq() == state.seq()
            &&& held.map() == state.map()
            &&& held.option() == state.option()
            &&& held.enumeration(name) == state.enumeration(name)
            &&& held.any() == state.any()
            &&& held.bool().1 == state.bool().1
            &&& state.bool().0 is Ok ==> held.bool() == state.bool()
            &&& held.char().1 == state.char().1
            &&& state.char().0 is Ok ==> held.char() == state.char()
            &&& held.str().1 == state.str().1
            &&& state.str().0 is Ok ==> held.str() == state.str()
            &&& held.identifier().1 == state.identifier().1
            &&& state.identifier().0 is Ok ==> held.identifier() == state.identifier()
        }),
{
    let (pulled, after) = state.input.pull();
    let held = state.with(after.pushed());
    assert(held.input.pull() == (pulled, after));
    assert(held.input.untagged().0 == state.input.untagged().0);
    assert(held.input.untagged().2 == state.input.untagged().2);
    assert(held.input.sign() == state.input.sign());
    assert(held.input.pull().1.pushed() == after.pushed());
}

/// A value that is present is left to be read as if nobody had asked.
pub proof fn law_option_leaves_the_value(state: State)
    requires
        state.option().0 == Ok::<bool, Fault>(true),
    ensures
        state.input.pull().0 is Ok,
        state.option().1 == state.with(state.input.pull().1.pushed()),
        state.option().1.input.pull() == state.input.pull(),
        state.option().1.any() == state.any(),
{
    law_looking_ahead(state, seq![]);
}

/// A value of any kind shows itself as the read for that kind has it.
pub proof fn law_any_agrees(state: State)
    ensures
        match state.input.pull().0 {
            Ok(Header::Positive(_)) => state.any() == (
                mapped(state.u64().0, |x| Shown::U64(x)),
                state.u64().1,
            ),
            Ok(Header::Negative(x)) => if x <= i64::MAX {
                state.any() == (mapped(state.i64().0, |x| Shown::I64(x)), state.i64().1)
            } else {
                state.any() == (mapped(state.i128().0, |x| Shown::I128(x)), state.i128().1)
            },
            Ok(Header::Float(_)) => state.any() == (
                mapped(state.float().0, |x| Shown::Float(x)),
                state.float().1,
            ),
            Ok(Header::Array(_)) => state.any() == (
                mapped(state.seq().0, |x| Shown::Sequence(x)),
                state.seq().1,
            ),
            Ok(Header::Mapping(_)) => state.any() == (
                mapped(state.map().0, |x| Shown::Mapping(x)),
                state.map().1,
            ),
            Ok(Header::Bytes(len)) => if len is Some && len->Some_0 <= state.room {
                state.any() == (mapped(state.bytes().0, |x| Shown::Bytes(x)), state.bytes().1)
            } else {
                state.any() == (mapped(state.byte_buf().0, |x| Shown::ByteBuf(x)), state.byte_buf().1)
            },
            Ok(Header::Text(len)) => if len is Some && len->Some_0 <= state.room {
                &&& state.any().1 == state.str().1
                &&& state.str().0 is Ok ==> state.any().0 == mapped(
                    state.str().0,
                    |x| Shown::Str(x),
                )
            } else {
                state.any() == (mapped(state.string().0, |x| Shown::Text(x)), state.string().1)
            },
            Ok(Header::Simple(FALSE)) => state.any() == (
                mapped(state.bool().0, |x| Shown::Bool(x)),
                state.bool().1,
            ),
            Ok(Header::Simple(TRUE)) => state.any() == (
                mapped(state.bool().0, |x| Shown::Bool(x)),
                state.bool().1,
            ),
            Ok(Header::Simple(NULL)) => state.any() == (
                mapped(state.unit().0, |x| Shown::Null),
                state.unit().1,
            ),
            Ok(Header::Simple(UNDEFINED)) => state.any() == (
                mapped(state.unit().0, |x| Shown::Null),
                state.unit().1,
            ),
            Ok(Header::Simple(_)) => state.any().0 is Err,
            Ok(Header::Break) => state.any().0 is Err,
            Ok(Header::Tag(tag)) => {
                let under = state.with(state.input.pull().1);
                if tag == BIGPOS || tag == BIGNEG {
                    let (integer, after) = under.bignum(tag == BIGNEG, true);
                    state.any() == (
                        match integer {
                            Ok(integer) => big_shown(tag, integer),
                            Err(fault) => Err(fault),
                        },
                        after,
                    )
                } else {
                    state.any() == under.opening(Shown::Tag(tag))
                }
            },
            Err(fault) => state.any().0 == Err::<Shown, Fault>(fault),
        },
{
    if state.input.pull().0 is Ok {
        law_looking_ahead(state, seq![]);
    }
}

/// What the short reads take, the long ones read alike: a text or some bytes
/// that fit the scratch buffer, and an array, which all of them open.
pub proof fn law_short_reads_agree(state: State)
    ensures
        state.str().0 is Ok ==> state.string() == state.str() && state.identifier() == state.str(),
        state.bytes().0 is Ok ==> state.byte_buf() == state.bytes() && state.seq() == state.bytes(),
        state.byte_buf().0 is Ok ==> state.seq() == state.byte_buf(),
{
    let (found, offset, after) = state.input.untagged();
    if let Ok(Header::Text(Some(len))) = found {
        let here = after.unread.take(len as int);
        if state.str().0 is Ok {
            assert(after.body(Kind::Text, Some(len), state.room).content == here);
        }
    }
}

/// Reading a value that holds no others leaves the number of levels as it is.
pub proof fn law_values_keep_the_budget(state: State)
    ensures
        state.bool().1.budget == state.budget,
        state.float().1.budget == state.budget,
        state.unit().1.budget == state.budget,
        state.u64().1.budget == state.budget,
        state.u128().1.budget == state.budget,
        state.i64().1.budget == state.budget,
        state.i128().1.budget == state.budget,
        state.char().1.budget == state.budget,
        state.str().1.budget == state.budget,
        state.string().1.budget == state.budget,
        state.identifier().1.budget == state.budget,
        state.option().1.budget == state.budget,
{
}

/// Whether a read that may open an array spent one level exactly where it did.
pub open spec fn spends_for_array(before: State, read: (Result<Elements, Fault>, State)) -> bool {
    match read.0 {
        Ok(Elements::Array(_)) => before.budget > 0 && read.1.budget == before.budget - 1,
        Ok(Elements::Bytes(_)) => read.1.budget == before.budget,
        Err(fault) => {
            &&& read.1.budget == before.budget
            &&& fault == Fault::RecursionLimitExceeded <==> before.budget == 0
                && before.input.untagged().0 matches Ok(Header::Array(_))
        },
    }
}

/// Whether a read that always opens something spent one level exactly where it
/// succeeded, and ran into the limit only where there was none.
pub open spec fn spends_always<T>(before: State, read: (Result<T, Fault>, State)) -> bool {
    match read.0 {
        Ok(_) => before.budget > 0 && read.1.budget == before.budget - 1,
        Err(fault) => {
            &&& read.1.budget == before.budget
            &&& fault == Fault::RecursionLimitExceeded ==> before.budget == 0
        },
    }
}

/// Opening an array, a map or an enum takes one level, and is refused with
/// [`Fault::RecursionLimitExceeded`] exactly where none is left.
pub proof fn law_opening_spends_the_budget(state: State, name: Seq<char>)
    ensures
        spends_for_array(state, state.bytes()),
        spends_for_array(state, state.byte_buf()),
        spends_for_array(state, state.seq()),
        spends_always(state, state.map()),
        spends_always(state, state.enumeration(name)),
        state.budget == 0 && state.input.untagged().0 is Ok ==> {
            &&& state.input.untagged().0->Ok_0 is Mapping ==> state.map().0 == Err::<Len, Fault>(
                Fault::RecursionLimitExceeded,
            )
            &&& state.input.untagged().0->Ok_0 == Header::Mapping(Some(1))
                || state.input.untagged().0->Ok_0 is Text || name == tag_name()
                ==> state.enumeration(name).0 == Err::<EnumForm, Fault>(
                Fault::RecursionLimitExceeded,
            )
        },
{
    let (found, offset, after) = state.input.untagged();
    lemma_pull(state.input);
    lemma_untagged(state.input);
    if let Ok(Header::Bytes(len)) = found {
        lemma_body(after, Kind::Bytes, len, state.room);
    }
}

/// An integer in a byte string takes something.
pub proof fn lemma_big(state: State, negative: bool, keep: bool)
    ensures
        state.bignum(negative, keep).1.input.is_past(state.input),
        state.bignum(negative, keep).0 is Ok ==> state.bignum(negative, keep).1.input.pending()
            < state.input.pending(),
        state.bignum(negative, keep).0 != Err::<IntegerView, Fault>(Fault::RecursionLimitExceeded),
{
    lemma_pull(state.input);
    let (pulled, after) = state.input.pull();
    if let Ok(Header::Bytes(len)) = pulled {
        lemma_body(after, Kind::Bytes, len, MAX_LEN as nat);
        lemma_past_past(after.after_body(Kind::Bytes, len, MAX_LEN as nat), after, state.input);
        lemma_overflow_bound(after, len, 0);
        let stop = after.advanced(after.overflow_at(len, 0), Front::Empty);
        lemma_past_past(stop, after, state.input);
    }
}

pub proof fn lemma_read(input: Input, len: nat, before: Input)
    requires
        input.is_past(before),
        input.front !is Held,
    ensures
        input.read(len).1.is_past(before),
        input.read(len).1.pending() <= input.pending(),
{
    assert(input.unread.skip(0) =~= input.unread);
    lemma_past_past(input.read(len).1, input, before);
}

/// Whether this state is `before` with some bytes read and as large a buffer.
pub open spec fn is_later(after: State, before: State) -> bool {
    after.input.is_past(before.input) && after.room == before.room
}

/// Reading goes forward: of the unread bytes some are taken off the front, and
/// the position counts them. The scratch buffer keeps its size.
#[verifier::spinoff_prover]
pub proof fn law_reads_go_forward(state: State, name: Seq<char>)
    ensures
        is_later(state.bool().1, state),
        is_later(state.float().1, state),
        is_later(state.unit().1, state),
        is_later(state.u64().1, state),
        is_later(state.u128().1, state),
        is_later(state.i64().1, state),
        is_later(state.i128().1, state),
        is_later(state.char().1, state),
        is_later(state.str().1, state),
        is_later(state.identifier().1, state),
        is_later(state.string().1, state),
        is_later(state.bytes().1, state),
        is_later(state.byte_buf().1, state),
        is_later(state.seq().1, state),
        is_later(state.map().1, state),
        is_later(state.option().1, state),
        is_later(state.enumeration(name).1, state),
{
    lemma_pull(state.input);
    lemma_untagged(state.input);
    lemma_sign(state.input);
    let (sign, signed) = state.input.sign();
    if let Ok((negative, None)) = sign {
        lemma_big(state.with(signed), negative, false);
        lemma_past_past(
            state.with(signed).bignum(negative, false).1.input,
            signed,
            state.input,
        );
    }
    let (found, offset, after) = state.input.untagged();
    match found {
        Ok(Header::Bytes(len)) => {
            lemma_body(after, Kind::Bytes, len, state.room);
            lemma_past_past(after.after_body(Kind::Bytes, len, state.room), after, state.input);
            if let Some(len) = len {
                lemma_read(after, len as nat, state.input);
            }
        },
        Ok(Header::Text(len)) => {
            lemma_body(after, Kind::Text, len, state.room);
            lemma_past_past(after.after_body(Kind::Text, len, state.room), after, state.input);
            if let Some(len) = len {
                lemma_read(after, len as nat, state.input);
            }
        },
        _ => {},
    }
}

/// Reading a value of any kind goes forward.
#[verifier::spinoff_prover]
pub proof fn law_any_goes_forward(state: State)
    ensures
        is_later(state.any().1, state),
{
    law_reads_go_forward(state, seq![]);
    lemma_pull(state.input);
    let (pulled, next) = state.input.pull();
    if pulled is Ok {
        law_looking_ahead(state, seq![]);
        let held = state.with(next.pushed());
        if let Ok(Header::Tag(tag)) = pulled {
            lemma_big(held.with(next), false, true);
            lemma_big(held.with(next), true, true);
            if tag == BIGPOS || tag == BIGNEG {
                let last = held.with(next).bignum(tag == BIGNEG, true).1.input;
                lemma_past_past(last, next, state.input);
            }
        }
    }
}

/// A value of any kind takes something.
pub proof fn lemma_any(state: State)
    ensures
        state.any().0 is Ok ==> state.any().1.input.pending() < state.input.pending(),
        state.any().0 == Err::<Shown, Fault>(Fault::RecursionLimitExceeded) ==> state.budget == 0,
{
    lemma_pull(state.input);
    let (pulled, after) = state.input.pull();
    if pulled is Ok {
        let held = state.with(after.pushed());
        assert(held.input.pull() == (pulled, after));
        match pulled {
            Ok(Header::Bytes(len)) => {
                lemma_body(after, Kind::Bytes, len, state.room);
            },
            Ok(Header::Text(len)) => {
                lemma_body(after, Kind::Text, len, state.room);
            },
            Ok(Header::Tag(_)) => {
                lemma_big(held.with(after), false, true);
                lemma_big(held.with(after), true, true);
            },
            _ => {},
        }
    }
}

/// What comes of asking for an element once more after `times` others.
pub open spec fn asked(times: nat, len: Len, state: State) -> (
    Result<Option<()>, Fault>,
    Len,
    State,
)
    decreases times,
{
    if times == 0 {
        next(len, state)
    } else {
        let (_, len, state) = asked((times - 1) as nat, len, state);
        next(len, state)
    }
}

/// An array or a map with a length has just so many elements. Counting them takes
/// nothing off the input.
pub proof fn law_length_counts(times: nat, len: usize, state: State)
    ensures
        asked(times, Some(len), state).0 == Ok::<Option<()>, Fault>(
            if times < len {
                Some(())
            } else {
                None
            },
        ),
        asked(times, Some(len), state).1 == Some(
            if times < len {
                (len - times - 1) as usize
            } else {
                0
            },
        ),
        asked(times, Some(len), state).2 == state,
    decreases times,
{
    if times > 0 {
        law_length_counts((times - 1) as nat, len, state);
    }
}

/// Without a length there is another element unless a break comes, and the
/// element is left to be read as if nobody had looked for the break.
pub proof fn law_break_ends(state: State)
    ensures
        ({
            let (more, len, after) = next(None, state);
            &&& more == Ok::<Option<()>, Fault>(None) <==> state.input.pull().0 == Ok::<
                Header,
                Fault,
            >(Header::Break)
            &&& more == Ok::<Option<()>, Fault>(None) ==> after == state.with(
                state.input.pull().1,
            )
            &&& more == Ok::<Option<()>, Fault>(Some(())) ==> after.input.pull()
                == state.input.pull() && after.any() == state.any()
            &&& len is None
            &&& after.budget == state.budget
        }),
{
    if state.input.pull().0 is Ok {
        law_looking_ahead(state, seq![]);
    }
}

/// Closing a level undoes the opening of it.
pub proof fn law_closing_undoes_opening<T>(state: State, value: T)
    ensures
        state.opening(value).0 is Ok <==> state.budget > 0,
        state.opening(value).0 is Ok ==> state.opening(value).1.closing() == state,
        state.opening(value).0 is Err ==> state.opening(value) == (
            Err::<T, Fault>(Fault::RecursionLimitExceeded),
            state,
        ),
{
}

/// The size of the buffer makes no difference to a string that can be read, nor
/// to whether one of bytes can.
proof fn lemma_segments_room(
    kind: Kind,
    bytes: Seq<u8>,
    offset: nat,
    nested: nat,
    room: nat,
    other: nat,
)
    ensures
        ({
            let body = segments(kind, bytes, offset, nested, room);
            let same = segments(kind, bytes, offset, nested, other);
            &&& body.fault is None ==> same == body
            &&& kind is Bytes ==> same.fault == body.fault
        }),
    decreases bytes.len(),
{
    let front = head(bytes);
    let rest = bytes.skip(front.width as int);
    let next = offset + front.width;
    if let Ok(header) = front.header {
        if header is Break {
            if nested > 1 {
                lemma_segments_room(kind, rest, next, (nested - 1) as nat, room, other);
            }
        } else if let Some(len) = string_len(kind, header) {
            match len {
                None => {
                    lemma_segments_room(kind, rest, next, nested + 1, room, other);
                },
                Some(len) => {
                    let one = segment(kind, rest, offset, len as nat, room);
                    if one.fault is None {
                        lemma_segments_room(
                            kind,
                            rest.skip(one.taken as int),
                            next + one.taken,
                            nested,
                            room,
                            other,
                        );
                    }
                },
            }
        }
    }
}

/// A value of any kind, whether or not it was to fit the scratch buffer.
pub open spec fn plain(shown: Shown) -> Shown {
    match shown {
        Shown::Str(text) => Shown::Text(text),
        Shown::Bytes(bytes) => Shown::ByteBuf(bytes),
        _ => shown,
    }
}

/// The size of the scratch buffer makes no difference to a value of any kind, but
/// that more of them fit a larger one.
#[verifier::spinoff_prover]
pub proof fn law_buffer_is_no_matter_to_any(state: State, room: nat)
    requires
        state.room <= room,
        state.any().0 is Ok,
    ensures
        ({
            let other = state.with_room(room);
            &&& other.any().0 is Ok
            &&& plain(other.any().0->Ok_0) == plain(state.any().0->Ok_0)
            &&& other.any().1 == state.any().1.with_room(room)
        }),
{
    law_any_agrees(state);
    law_any_agrees(state.with_room(room));
    law_buffer_is_no_matter(state, room);
    let after = state.input.pull().1;
    if let Ok(Header::Text(Some(len))) = state.input.pull().0 {
        if len <= room {
            lemma_string_fits(state.with_room(room), len);
        }
        if len <= state.room {
            lemma_string_fits(state, len);
        }
    }
    if let Ok(Header::Bytes(Some(len))) = state.input.pull().0 {
        if len <= room {
            lemma_bytes_fit(state.with_room(room), len);
        }
        if len <= state.room {
            lemma_bytes_fit(state, len);
        }
    }
}

proof fn lemma_string_fits(state: State, len: usize)
    requires
        state.input.pull().0 == Ok::<Header, Fault>(Header::Text(Some(len))),
        len <= state.room,
    ensures
        state.str().0 is Ok <==> state.string().0 is Ok,
        state.str().0 is Ok ==> state.str() == state.string(),
{
    assert(state.input.untagged().0 == state.input.pull().0);
}

proof fn lemma_bytes_fit(state: State, len: usize)
    requires
        state.input.pull().0 == Ok::<Header, Fault>(Header::Bytes(Some(len))),
        len <= state.room,
    ensures
        state.bytes().0 is Ok <==> state.byte_buf().0 is Ok,
        state.bytes().0 is Ok ==> state.bytes() == state.byte_buf(),
{
    assert(state.input.untagged().0 == state.input.pull().0);
}

/// The size of the scratch buffer makes no difference to a read that does not
/// need its value to fit: every text that can be read, all bytes, and why bytes
/// cannot. What was to fit still fits a larger buffer.
pub proof fn law_buffer_is_no_matter(state: State, room: nat)
    ensures
        ({
            let other = state.with_room(room);
            &&& state.string().0 is Ok ==> other.string() == (
                state.string().0,
                state.string().1.with_room(room),
            )
            &&& other.byte_buf().0 == state.byte_buf().0
            &&& state.byte_buf().0 is Ok ==> other.byte_buf().1 == state.byte_buf().1.with_room(
                room,
            )
            &&& other.seq().0 == state.seq().0
            &&& state.seq().0 is Ok ==> other.seq().1 == state.seq().1.with_room(room)
            &&& state.str().0 is Ok && state.room <= room ==> other.str() == (
                state.str().0,
                state.str().1.with_room(room),
            )
            &&& state.identifier().0 is Ok && state.room <= room ==> other.identifier() == (
                state.identifier().0,
                state.identifier().1.with_room(room),
            )
            &&& state.bytes().0 is Ok && state.room <= room ==> other.bytes() == (
                state.bytes().0,
                state.bytes().1.with_room(room),
            )
        }),
{
    let (found, offset, after) = state.input.untagged();
    match found {
        Ok(Header::Bytes(None)) => {
            lemma_segments_room(Kind::Bytes, after.unread, after.position, 1, state.room, room);
        },
        Ok(Header::Text(None)) => {
            lemma_segments_room(Kind::Text, after.unread, after.position, 1, state.room, room);
        },
        _ => {},
    }
}

} // verus!
