//! A read is decided by the bytes that it takes.

use vstd::prelude::*;

use crate::bignum::MAX_LEN;
use crate::decoder::Input;
use crate::error::Fault;
use crate::header::{Header, BIGNEG, BIGPOS};
use crate::laws::{
    law_any_agrees, law_reads_go_forward, lemma_big, lemma_body, lemma_past_past, lemma_pull,
    lemma_read, lemma_sign, lemma_untagged,
};
use crate::overflow::lemma_overflow_cut;
use crate::prefix::{
    between, lemma_body_cut, lemma_body_same, lemma_pull_cut, lemma_pull_same, lemma_shares,
    lemma_sign_cut, lemma_sign_same, lemma_untagged_cut, lemma_untagged_same, shares,
};
use crate::state::{next, tag_name, Len, State};
use crate::wire::Kind;

verus! {

/// Whether a read that succeeds comes to the same with `other` bytes to come, if
/// they start with those that it takes: the rest of them is left.
pub open spec fn is_same<T>(
    before: State,
    read: (Result<T, Fault>, State),
    other: Seq<u8>,
    again: (Result<T, Fault>, State),
) -> bool {
    let taken = between(before.input, read.1.input);
    read.0 is Ok && shares(before.input, other, taken) ==> again == (
        read.0,
        read.1.with_unread(other.skip(taken)),
    )
}

/// Whether a read that succeeds ends for want of bytes if only `count` of those
/// are there that it takes.
pub open spec fn is_cut<T>(
    before: State,
    read: (Result<T, Fault>, State),
    count: nat,
    again: (Result<T, Fault>, State),
) -> bool {
    read.0 is Ok && count < between(before.input, read.1.input) ==> again.0 == Err::<T, Fault>(
        Fault::Io,
    )
}

/// Bytes that are shared up to a second stage are shared up to the first, and
/// behind it.
pub proof fn lemma_stages(input: Input, after: Input, last: Input, other: Seq<u8>)
    requires
        after.is_past(input),
        last.is_past(after),
        shares(input, other, between(input, last)),
    ensures
        shares(input, other, between(input, after)),
        shares(after, other.skip(between(input, after)), between(after, last)),
        other.skip(between(input, after)).skip(between(after, last)) == other.skip(
            between(input, last),
        ),
{
    lemma_shares(input, after, other, between(input, last));
    assert(other.skip(between(input, after)).skip(between(after, last)) =~= other.skip(
        between(input, last),
    ));
}

/// An input that is cut short behind its first stage shares that stage.
pub proof fn lemma_cut_stage(input: Input, after: Input, count: int)
    requires
        after.is_past(input),
        between(input, after) <= count <= input.unread.len(),
    ensures
        shares(input, input.unread.take(count), between(input, after)),
        input.unread.take(count).skip(between(input, after)) == after.unread.take(
            count - between(input, after),
        ),
{
    let first = between(input, after);
    assert(input.unread.take(count).take(first) =~= input.unread.take(first));
    assert(input.unread.take(count).skip(first) =~= after.unread.take(count - first));
}

pub proof fn lemma_leaves_same(state: State, other: Seq<u8>, name: Seq<char>)
    ensures
        is_same(state, state.bool(), other, state.with_unread(other).bool()),
        is_same(state, state.float(), other, state.with_unread(other).float()),
        is_same(state, state.unit(), other, state.with_unread(other).unit()),
        is_same(state, state.map(), other, state.with_unread(other).map()),
        name != tag_name() ==> is_same(
            state,
            state.enumeration(name),
            other,
            state.with_unread(other).enumeration(name),
        ),
{
    let (found, offset, after) = state.input.untagged();
    if found is Ok && shares(state.input, other, between(state.input, after)) {
        lemma_untagged_same(state.input, other);
    }
}

pub proof fn lemma_leaves_cut(state: State, count: nat, name: Seq<char>)
    ensures
        is_cut(state, state.bool(), count, state.cut(count).bool()),
        is_cut(state, state.float(), count, state.cut(count).float()),
        is_cut(state, state.unit(), count, state.cut(count).unit()),
        is_cut(state, state.map(), count, state.cut(count).map()),
        name != tag_name() ==> is_cut(
            state,
            state.enumeration(name),
            count,
            state.cut(count).enumeration(name),
        ),
{
    let (found, offset, after) = state.input.untagged();
    if found is Ok && count < between(state.input, after) {
        lemma_untagged_cut(state.input, count as int);
    }
}

pub proof fn lemma_looks_same(state: State, other: Seq<u8>, len: Len)
    ensures
        is_same(state, state.option(), other, state.with_unread(other).option()),
        is_same(
            state,
            state.enumeration(tag_name()),
            other,
            state.with_unread(other).enumeration(tag_name()),
        ),
        is_same(
            state,
            (next(len, state).0, next(len, state).2),
            other,
            (next(len, state.with_unread(other)).0, next(len, state.with_unread(other)).2),
        ),
{
    let (pulled, after) = state.input.pull();
    assert(other.skip(0) =~= other);
    if pulled is Ok && shares(state.input, other, between(state.input, after)) {
        lemma_pull_same(state.input, other);
    }
}

pub proof fn lemma_looks_cut(state: State, count: nat, len: Len)
    ensures
        is_cut(state, state.option(), count, state.cut(count).option()),
        is_cut(
            state,
            state.enumeration(tag_name()),
            count,
            state.cut(count).enumeration(tag_name()),
        ),
        is_cut(
            state,
            (next(len, state).0, next(len, state).2),
            count,
            (next(len, state.cut(count)).0, next(len, state.cut(count)).2),
        ),
{
    let (pulled, after) = state.input.pull();
    if pulled is Ok && count < between(state.input, after) {
        lemma_pull_cut(state.input, count as int);
    }
}

/// What is read behind a header comes to the same.
proof fn lemma_read_same(input: Input, after: Input, len: nat, other: Seq<u8>)
    requires
        after.is_past(input),
        after.front !is Held,
        after.read(len).0 is Ok,
        shares(input, other, between(input, after.read(len).1)),
    ensures
        shares(input, other, between(input, after)),
        after.with_unread(other.skip(between(input, after))).read(len) == (
            after.read(len).0,
            after.read(len).1.with_unread(other.skip(between(input, after.read(len).1))),
        ),
{
    lemma_read(after, len, input);
    assert(after.read(len).1.is_past(after));
    lemma_stages(input, after, after.read(len).1, other);
}

/// What is read behind a header ends for want of bytes.
proof fn lemma_read_cut(input: Input, after: Input, len: nat, count: int)
    requires
        after.is_past(input),
        after.front !is Held,
        after.read(len).0 is Ok,
        between(input, after) <= count < between(input, after.read(len).1),
    ensures
        shares(input, input.unread.take(count), between(input, after)),
        after.with_unread(input.unread.take(count).skip(between(input, after))).read(len).0 == Err::<
            Seq<u8>,
            Fault,
        >(Fault::Io),
{
    lemma_cut_stage(input, after, count);
}

pub proof fn lemma_short_same(state: State, other: Seq<u8>)
    ensures
        is_same(state, state.char(), other, state.with_unread(other).char()),
        is_same(state, state.str(), other, state.with_unread(other).str()),
        is_same(state, state.identifier(), other, state.with_unread(other).identifier()),
        is_same(state, state.bytes(), other, state.with_unread(other).bytes()),
{
    let (found, offset, after) = state.input.untagged();
    lemma_untagged(state.input);
    let len = match found {
        Ok(Header::Bytes(Some(len))) => len as nat,
        Ok(Header::Text(Some(len))) => len as nat,
        _ => 0,
    };
    if found is Ok && after.read(len).0 is Ok && shares(
        state.input,
        other,
        between(state.input, after.read(len).1),
    ) {
        lemma_read_same(state.input, after, len, other);
    }
    if found is Ok && shares(state.input, other, between(state.input, after)) {
        lemma_untagged_same(state.input, other);
    }
}

pub proof fn lemma_short_cut(state: State, count: nat)
    ensures
        is_cut(state, state.char(), count, state.cut(count).char()),
        is_cut(state, state.str(), count, state.cut(count).str()),
        is_cut(state, state.identifier(), count, state.cut(count).identifier()),
        is_cut(state, state.bytes(), count, state.cut(count).bytes()),
{
    let (found, offset, after) = state.input.untagged();
    lemma_untagged(state.input);
    let len = match found {
        Ok(Header::Bytes(Some(len))) => len as nat,
        Ok(Header::Text(Some(len))) => len as nat,
        _ => 0,
    };
    let first = between(state.input, after);
    if found is Ok {
        if count < first {
            lemma_untagged_cut(state.input, count as int);
        } else if after.read(len).0 is Ok && count < between(state.input, after.read(len).1) {
            lemma_read_cut(state.input, after, len, count as int);
            lemma_untagged_same(state.input, state.input.unread.take(count as int));
        }
    }
}

/// A string behind a header comes to the same.
proof fn lemma_string_same(
    input: Input,
    after: Input,
    kind: Kind,
    len: Option<usize>,
    room: nat,
    other: Seq<u8>,
)
    requires
        after.is_past(input),
        after.body(kind, len, room).fault is None,
        shares(input, other, between(input, after.after_body(kind, len, room))),
    ensures
        shares(input, other, between(input, after)),
        ({
            let same = after.with_unread(other.skip(between(input, after)));
            let last = after.after_body(kind, len, room);
            &&& same.body(kind, len, room) == after.body(kind, len, room)
            &&& same.after_body(kind, len, room) == last.with_unread(
                other.skip(between(input, last)),
            )
        }),
{
    lemma_body(after, kind, len, room);
    lemma_stages(input, after, after.after_body(kind, len, room), other);
    lemma_body_same(after, kind, len, room, other.skip(between(input, after)));
}

/// A string behind a header ends for want of bytes.
proof fn lemma_string_cut(
    input: Input,
    after: Input,
    kind: Kind,
    len: Option<usize>,
    room: nat,
    count: int,
)
    requires
        after.is_past(input),
        after.body(kind, len, room).fault is None,
        between(input, after) <= count < between(input, after.after_body(kind, len, room)),
    ensures
        shares(input, input.unread.take(count), between(input, after)),
        after.with_unread(input.unread.take(count).skip(between(input, after))).body(
            kind,
            len,
            room,
        ).fault == Some(Fault::Io),
{
    lemma_body(after, kind, len, room);
    lemma_cut_stage(input, after, count);
    lemma_body_cut(after, kind, len, room, count - between(input, after));
}

pub proof fn lemma_strings_same(state: State, other: Seq<u8>)
    ensures
        is_same(state, state.string(), other, state.with_unread(other).string()),
        is_same(state, state.byte_buf(), other, state.with_unread(other).byte_buf()),
        is_same(state, state.seq(), other, state.with_unread(other).seq()),
{
    let (found, offset, after) = state.input.untagged();
    let room = state.room;
    lemma_untagged(state.input);
    match found {
        Ok(Header::Bytes(len)) => {
            let last = after.after_body(Kind::Bytes, len, room);
            if after.body(Kind::Bytes, len, room).fault is None && shares(
                state.input,
                other,
                between(state.input, last),
            ) {
                lemma_string_same(state.input, after, Kind::Bytes, len, room, other);
                lemma_untagged_same(state.input, other);
            }
        },
        Ok(Header::Text(len)) => {
            let last = after.after_body(Kind::Text, len, room);
            if after.body(Kind::Text, len, room).fault is None && shares(
                state.input,
                other,
                between(state.input, last),
            ) {
                lemma_string_same(state.input, after, Kind::Text, len, room, other);
                lemma_untagged_same(state.input, other);
            }
        },
        Ok(_) => {
            if shares(state.input, other, between(state.input, after)) {
                lemma_untagged_same(state.input, other);
            }
        },
        _ => {},
    }
}

pub proof fn lemma_strings_cut(state: State, count: nat)
    ensures
        is_cut(state, state.string(), count, state.cut(count).string()),
        is_cut(state, state.byte_buf(), count, state.cut(count).byte_buf()),
        is_cut(state, state.seq(), count, state.cut(count).seq()),
{
    let (found, offset, after) = state.input.untagged();
    let room = state.room;
    let other = state.input.unread.take(count as int);
    lemma_untagged(state.input);
    if found is Ok && count < between(state.input, after) {
        lemma_untagged_cut(state.input, count as int);
    } else {
        match found {
            Ok(Header::Bytes(len)) => {
                let last = after.after_body(Kind::Bytes, len, room);
                if after.body(Kind::Bytes, len, room).fault is None && count < between(
                    state.input,
                    last,
                ) {
                    lemma_string_cut(state.input, after, Kind::Bytes, len, room, count as int);
                    lemma_untagged_same(state.input, other);
                }
            },
            Ok(Header::Text(len)) => {
                let last = after.after_body(Kind::Text, len, room);
                if after.body(Kind::Text, len, room).fault is None && count < between(
                    state.input,
                    last,
                ) {
                    lemma_string_cut(state.input, after, Kind::Text, len, room, count as int);
                    lemma_untagged_same(state.input, other);
                }
            },
            _ => {},
        }
    }
}

proof fn lemma_big_same(state: State, negative: bool, keep: bool, other: Seq<u8>)
    ensures
        is_same(
            state,
            state.bignum(negative, keep),
            other,
            state.with_unread(other).bignum(negative, keep),
        ),
{
    let (pulled, after) = state.input.pull();
    let room = MAX_LEN as nat;
    lemma_pull(state.input);
    if let Ok(Header::Bytes(len)) = pulled {
        let last = after.after_body(Kind::Bytes, len, room);
        if state.bignum(negative, keep).0 is Ok && shares(
            state.input,
            other,
            between(state.input, last),
        ) {
            lemma_string_same(state.input, after, Kind::Bytes, len, room, other);
            lemma_pull_same(state.input, other);
        }
    }
}

proof fn lemma_big_cut(state: State, negative: bool, keep: bool, count: nat)
    ensures
        is_cut(
            state,
            state.bignum(negative, keep),
            count,
            state.cut(count).bignum(negative, keep),
        ),
{
    let (pulled, after) = state.input.pull();
    let room = MAX_LEN as nat;
    let other = state.input.unread.take(count as int);
    lemma_pull(state.input);
    if pulled is Ok && count < between(state.input, after) {
        lemma_pull_cut(state.input, count as int);
    } else if let Ok(Header::Bytes(len)) = pulled {
        let last = after.after_body(Kind::Bytes, len, room);
        if state.bignum(negative, keep).0 is Ok && count < between(state.input, last) {
            lemma_body(after, Kind::Bytes, len, room);
            lemma_string_cut(state.input, after, Kind::Bytes, len, room, count as int);
            lemma_pull_same(state.input, other);
            lemma_cut_stage(state.input, after, count as int);
            lemma_overflow_cut(after, len, (count - between(state.input, after)) as nat);
        }
    }
}

/// An integer is decided by the bytes that it takes, from its sign on.
proof fn lemma_integer_same(state: State, other: Seq<u8>)
    ensures
        is_same(
            state,
            state.integer(None, false),
            other,
            state.with_unread(other).integer(None, false),
        ),
{
    lemma_sign(state.input);
    let (sign, signed) = state.input.sign();
    let last = state.integer(None, false).1.input;
    if state.integer(None, false).0 is Ok && shares(state.input, other, between(state.input, last)) {
        if let Ok((negative, None)) = sign {
            let begun = state.with(signed);
            lemma_big(begun, negative, false);
            lemma_stages(state.input, signed, last, other);
            lemma_sign_same(state.input, other);
            lemma_big_same(begun, negative, false, other.skip(between(state.input, signed)));
        } else {
            lemma_sign_same(state.input, other);
        }
    }
}

proof fn lemma_integer_cut(state: State, count: nat)
    ensures
        is_cut(state, state.integer(None, false), count, state.cut(count).integer(None, false)),
{
    lemma_sign(state.input);
    let (sign, signed) = state.input.sign();
    let last = state.integer(None, false).1.input;
    if state.integer(None, false).0 is Ok && count < between(state.input, last) {
        if count < between(state.input, signed) {
            lemma_sign_cut(state.input, count as int);
        } else if let Ok((negative, None)) = sign {
            let begun = state.with(signed);
            lemma_big(begun, negative, false);
            lemma_past_past(last, signed, state.input);
            lemma_cut_stage(state.input, signed, count as int);
            lemma_sign_same(state.input, state.input.unread.take(count as int));
            lemma_big_cut(
                begun,
                negative,
                false,
                (count - between(state.input, signed)) as nat,
            );
        }
    }
}

pub proof fn lemma_numbers_same(state: State, other: Seq<u8>)
    ensures
        is_same(state, state.u64(), other, state.with_unread(other).u64()),
        is_same(state, state.u128(), other, state.with_unread(other).u128()),
        is_same(state, state.i64(), other, state.with_unread(other).i64()),
        is_same(state, state.i128(), other, state.with_unread(other).i128()),
{
    lemma_integer_same(state, other);
}

pub proof fn lemma_numbers_cut(state: State, count: nat)
    ensures
        is_cut(state, state.u64(), count, state.cut(count).u64()),
        is_cut(state, state.u128(), count, state.cut(count).u128()),
        is_cut(state, state.i64(), count, state.cut(count).i64()),
        is_cut(state, state.i128(), count, state.cut(count).i128()),
{
    lemma_integer_cut(state, count);
}

/// A value of any kind that is read leaves off behind its header.
proof fn lemma_any_past(state: State)
    requires
        state.any().0 is Ok,
    ensures
        state.input.pull().0 is Ok,
        state.input.pull().1.is_past(state.input),
        state.any().1.input.is_past(state.input.pull().1),
{
    lemma_pull(state.input);
    let (pulled, after) = state.input.pull();
    let held = state.with(after.pushed());
    law_reads_go_forward(held, seq![]);
    assert(held.input.pull() == (pulled, after));
    if let Ok(Header::Tag(tag)) = pulled {
        lemma_big(state.with(after), false, true);
        lemma_big(state.with(after), true, true);
        assert(after.unread.skip(0) =~= after.unread);
    }
}

/// What a value of any kind has in common with one that starts with its bytes.
proof fn lemma_any_start(state: State, other: Seq<u8>)
    requires
        state.any().0 is Ok,
        shares(state.input, other, between(state.input, state.any().1.input)),
    ensures
        ({
            let (pulled, after) = state.input.pull();
            let later = other.skip(between(state.input, after));
            let last = state.any().1.input;
            &&& pulled is Ok
            &&& state.with_unread(other).input.pull() == (pulled, after.with_unread(later))
            &&& shares(after, later, between(after, last))
            &&& later.skip(between(after, last)) == other.skip(between(state.input, last))
        }),
{
    lemma_any_past(state);
    let after = state.input.pull().1;
    lemma_stages(state.input, after, state.any().1.input, other);
    lemma_pull_same(state.input, other);
}

#[verifier::spinoff_prover]
proof fn lemma_any_string_same(state: State, other: Seq<u8>)
    requires
        state.input.pull().0 is Ok,
        state.input.pull().0->Ok_0 is Bytes || state.input.pull().0->Ok_0 is Text,
    ensures
        is_same(state, state.any(), other, state.with_unread(other).any()),
{
    if state.any().0 is Ok && shares(
        state.input,
        other,
        between(state.input, state.any().1.input),
    ) {
        lemma_any_start(state, other);
        law_any_agrees(state);
        law_any_agrees(state.with_unread(other));
        lemma_short_same(state, other);
        lemma_strings_same(state, other);
    }
}

#[verifier::spinoff_prover]
proof fn lemma_any_tag_same(state: State, other: Seq<u8>)
    requires
        state.input.pull().0 matches Ok(Header::Tag(_)),
    ensures
        is_same(state, state.any(), other, state.with_unread(other).any()),
{
    if state.any().0 is Ok && shares(
        state.input,
        other,
        between(state.input, state.any().1.input),
    ) {
        lemma_any_start(state, other);
        law_any_agrees(state);
        law_any_agrees(state.with_unread(other));
        let after = state.input.pull().1;
        let later = other.skip(between(state.input, after));
        lemma_big_same(state.with(after), false, true, later);
        lemma_big_same(state.with(after), true, true, later);
    }
}

#[verifier::spinoff_prover]
proof fn lemma_any_value_same(state: State, other: Seq<u8>)
    requires
        match state.input.pull().0 {
            Ok(Header::Bytes(_)) => false,
            Ok(Header::Text(_)) => false,
            Ok(Header::Tag(_)) => false,
            _ => true,
        },
    ensures
        is_same(state, state.any(), other, state.with_unread(other).any()),
{
    if state.any().0 is Ok && shares(
        state.input,
        other,
        between(state.input, state.any().1.input),
    ) {
        lemma_any_start(state, other);
        law_any_agrees(state);
        law_any_agrees(state.with_unread(other));
        lemma_numbers_same(state, other);
        lemma_leaves_same(state, other, seq![]);
        lemma_strings_same(state, other);
    }
}

pub proof fn lemma_any_same(state: State, other: Seq<u8>)
    ensures
        is_same(state, state.any(), other, state.with_unread(other).any()),
{
    match state.input.pull().0 {
        Ok(Header::Bytes(_)) => lemma_any_string_same(state, other),
        Ok(Header::Text(_)) => lemma_any_string_same(state, other),
        Ok(Header::Tag(_)) => lemma_any_tag_same(state, other),
        _ => lemma_any_value_same(state, other),
    }
}

#[verifier::spinoff_prover]
pub proof fn lemma_any_cut(state: State, count: nat)
    ensures
        is_cut(state, state.any(), count, state.cut(count).any()),
{
    let (pulled, after) = state.input.pull();
    let last = state.any().1.input;
    if state.any().0 is Ok && count < between(state.input, last) {
        lemma_any_past(state);
        if count < between(state.input, after) {
            lemma_pull_cut(state.input, count as int);
        } else {
            lemma_past_past(last, after, state.input);
            lemma_cut_stage(state.input, after, count as int);
            lemma_pull_same(state.input, state.input.unread.take(count as int));
            law_any_agrees(state);
            law_any_agrees(state.cut(count));
            match pulled {
                Ok(Header::Positive(_)) => lemma_numbers_cut(state, count),
                Ok(Header::Negative(_)) => lemma_numbers_cut(state, count),
                Ok(Header::Float(_)) => lemma_leaves_cut(state, count, seq![]),
                Ok(Header::Simple(_)) => lemma_leaves_cut(state, count, seq![]),
                Ok(Header::Array(_)) => lemma_strings_cut(state, count),
                Ok(Header::Mapping(_)) => lemma_leaves_cut(state, count, seq![]),
                Ok(Header::Bytes(_)) => {
                    lemma_short_cut(state, count);
                    lemma_strings_cut(state, count);
                },
                Ok(Header::Text(_)) => {
                    lemma_short_cut(state, count);
                    lemma_strings_cut(state, count);
                },
                Ok(Header::Tag(tag)) => {
                    if tag == BIGPOS || tag == BIGNEG {
                        lemma_big_cut(
                            state.with(after),
                            tag == BIGNEG,
                            true,
                            (count - between(state.input, after)) as nat,
                        );
                    }
                },
                _ => {},
            }
        }
    }
}

/// A read that succeeds is decided by the bytes that it takes: whatever follows
/// them, it comes to the same and leaves that.
pub proof fn law_reads_are_decided(state: State, other: Seq<u8>, name: Seq<char>)
    ensures
        is_same(state, state.bool(), other, state.with_unread(other).bool()),
        is_same(state, state.float(), other, state.with_unread(other).float()),
        is_same(state, state.unit(), other, state.with_unread(other).unit()),
        is_same(state, state.u64(), other, state.with_unread(other).u64()),
        is_same(state, state.u128(), other, state.with_unread(other).u128()),
        is_same(state, state.i64(), other, state.with_unread(other).i64()),
        is_same(state, state.i128(), other, state.with_unread(other).i128()),
        is_same(state, state.char(), other, state.with_unread(other).char()),
        is_same(state, state.str(), other, state.with_unread(other).str()),
        is_same(state, state.identifier(), other, state.with_unread(other).identifier()),
        is_same(state, state.string(), other, state.with_unread(other).string()),
        is_same(state, state.bytes(), other, state.with_unread(other).bytes()),
        is_same(state, state.byte_buf(), other, state.with_unread(other).byte_buf()),
        is_same(state, state.seq(), other, state.with_unread(other).seq()),
        is_same(state, state.map(), other, state.with_unread(other).map()),
        is_same(state, state.option(), other, state.with_unread(other).option()),
        is_same(state, state.enumeration(name), other, state.with_unread(other).enumeration(name)),
        is_same(state, state.any(), other, state.with_unread(other).any()),
{
    lemma_leaves_same(state, other, name);
    lemma_looks_same(state, other, None);
    lemma_numbers_same(state, other);
    lemma_short_same(state, other);
    lemma_strings_same(state, other);
    lemma_any_same(state, other);
}

/// A read that succeeds ends for want of bytes, with [`Fault::Io`], if any of the
/// bytes are missing that it takes.
pub proof fn law_cut_reads_end(state: State, count: nat, name: Seq<char>)
    ensures
        is_cut(state, state.bool(), count, state.cut(count).bool()),
        is_cut(state, state.float(), count, state.cut(count).float()),
        is_cut(state, state.unit(), count, state.cut(count).unit()),
        is_cut(state, state.u64(), count, state.cut(count).u64()),
        is_cut(state, state.u128(), count, state.cut(count).u128()),
        is_cut(state, state.i64(), count, state.cut(count).i64()),
        is_cut(state, state.i128(), count, state.cut(count).i128()),
        is_cut(state, state.char(), count, state.cut(count).char()),
        is_cut(state, state.str(), count, state.cut(count).str()),
        is_cut(state, state.identifier(), count, state.cut(count).identifier()),
        is_cut(state, state.string(), count, state.cut(count).string()),
        is_cut(state, state.bytes(), count, state.cut(count).bytes()),
        is_cut(state, state.byte_buf(), count, state.cut(count).byte_buf()),
        is_cut(state, state.seq(), count, state.cut(count).seq()),
        is_cut(state, state.map(), count, state.cut(count).map()),
        is_cut(state, state.option(), count, state.cut(count).option()),
        is_cut(state, state.enumeration(name), count, state.cut(count).enumeration(name)),
        is_cut(state, state.any(), count, state.cut(count).any()),
{
    lemma_leaves_cut(state, count, name);
    lemma_looks_cut(state, count, None);
    lemma_numbers_cut(state, count);
    lemma_short_cut(state, count);
    lemma_strings_cut(state, count);
    lemma_any_cut(state, count);
}

} // verus!
