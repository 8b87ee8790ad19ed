//! What the first bytes of an input decide, whatever follows them.

use vstd::prelude::*;

use crate::bignum::MAX_LEN;
use crate::chunks::lemma_cut_text;
use crate::decoder::Input;
use crate::error::Fault;
use crate::header::{Header, BIGNEG, BIGPOS};
use crate::laws::{lemma_pull, lemma_segments_end, lemma_sign, lemma_untagged};
use crate::state::Sign;
use crate::wire::{argument_len, head, segment, segments, string_len, Flaw, Kind};

verus! {

/// A head is what its own bytes make it.
pub proof fn lemma_head_same(bytes: Seq<u8>, other: Seq<u8>)
    requires
        head(bytes).header is Ok,
        head(bytes).width <= other.len(),
        other.take(head(bytes).width as int) == bytes.take(head(bytes).width as int),
    ensures
        head(other) == head(bytes),
{
    let width = head(bytes).width as int;
    assert(other.take(width)[0] == bytes.take(width)[0]);
    assert(bytes.take(width).subrange(1, width) =~= bytes.subrange(1, width));
    assert(other.take(width).subrange(1, width) =~= other.subrange(1, width));
}

/// A head that is cut short is just that.
pub proof fn lemma_head_cut(bytes: Seq<u8>, count: int)
    requires
        head(bytes).header is Ok,
        0 <= count < head(bytes).width,
    ensures
        head(bytes.take(count)).header == Err::<Header, Flaw>(Flaw::Ended),
{
    if count > 0 {
        assert(bytes.take(count)[0] == bytes[0]);
    }
}

/// Of a byte string that is cut short the same bytes come, as far as they do, and
/// all of them if it is cut only where nothing was taken any more.
pub proof fn lemma_cut_bytes(bytes: Seq<u8>, offset: nat, nested: nat, count: int)
    requires
        0 <= count <= bytes.len(),
    ensures
        ({
            let room = MAX_LEN as nat;
            let whole = segments(Kind::Bytes, bytes, offset, nested, room);
            let cut = segments(Kind::Bytes, bytes.take(count), offset, nested, room);
            &&& cut.content.is_prefix_of(whole.content)
            &&& count >= whole.taken ==> cut.content == whole.content
        }),
    decreases bytes.len(),
{
    let room = MAX_LEN as nat;
    let kind = Kind::Bytes;
    let front = head(bytes);
    let width = front.width as int;
    let cut = bytes.take(count);
    if let Ok(header) = front.header {
        if count < width {
            lemma_head_cut(bytes, count);
        } else {
            assert(cut.take(width) =~= bytes.take(width));
            lemma_head_same(bytes, cut);
            let rest = bytes.skip(width);
            assert(cut.skip(width) =~= rest.take(count - width));
            let next = offset + front.width;
            if header is Break {
                if nested > 1 {
                    lemma_cut_bytes(rest, next, (nested - 1) as nat, count - width);
                }
            } else if let Some(len) = string_len(kind, header) {
                match len {
                    None => {
                        lemma_cut_bytes(rest, next, nested + 1, count - width);
                    },
                    Some(len) => {
                        let one = segment(kind, rest, offset, len as nat, room);
                        let left = count - width;
                        let same = segment(kind, rest.take(left), offset, len as nat, room);
                        if len <= left {
                            assert(rest.take(left).take(len as int) =~= rest.take(len as int));
                            assert(rest.take(left).skip(len as int) =~= rest.skip(len as int).take(
                                left - len,
                            ));
                            lemma_cut_bytes(
                                rest.skip(len as int),
                                next + one.taken,
                                nested,
                                left - len,
                            );
                        } else {
                            assert(same.content =~= rest.take(left / 16 * 16));
                            assert(same.content.is_prefix_of(one.content));
                        }
                    },
                }
            }
        }
    } else {
        let whole = segments(kind, bytes, offset, nested, room);
        assert(whole.content =~= seq![]);
        if count > 0 {
            assert(cut[0] == bytes[0]);
            if bytes.len() >= 1 + argument_len(bytes[0]) && count >= 1 + argument_len(bytes[0]) {
                let size = 1 + argument_len(bytes[0]);
                assert(cut.subrange(1, size as int) =~= bytes.subrange(1, size as int));
            }
        }
        assert(head(cut).header is Err);
    }
}

/// How many bytes were read between two inputs.
pub open spec fn between(before: Input, after: Input) -> int {
    after.position - before.position
}

/// Whether other bytes start with the next `count` bytes of an input.
pub open spec fn shares(input: Input, other: Seq<u8>, count: int) -> bool {
    &&& 0 <= count <= input.unread.len()
    &&& count <= other.len()
    &&& other.take(count) == input.unread.take(count)
}

/// What is shared is shared behind the first bytes of it.
pub proof fn lemma_shares(input: Input, after: Input, other: Seq<u8>, count: int)
    requires
        after.is_past(input),
        between(input, after) <= count,
        shares(input, other, count),
    ensures
        shares(input, other, between(input, after)),
        shares(after, other.skip(between(input, after)), count - between(input, after)),
{
    let first = between(input, after);
    assert(other.take(count).take(first) =~= other.take(first));
    assert(input.unread.take(count).take(first) =~= input.unread.take(first));
    assert(other.skip(first).take(count - first) =~= other.take(count).skip(first));
    assert(after.unread.take(count - first) =~= input.unread.take(count).skip(first));
}

pub proof fn lemma_pull_same(input: Input, other: Seq<u8>)
    requires
        input.pull().0 is Ok,
        shares(input, other, between(input, input.pull().1)),
    ensures
        input.with_unread(other).pull() == (
            input.pull().0,
            input.pull().1.with_unread(other.skip(between(input, input.pull().1))),
        ),
{
    if input.front is Held {
        assert(other.skip(0) =~= other);
    } else {
        lemma_head_same(input.unread, other);
    }
}

pub proof fn lemma_pull_cut(input: Input, count: int)
    requires
        input.pull().0 is Ok,
        0 <= count < between(input, input.pull().1),
    ensures
        input.cut(count as nat).pull().0 == Err::<Header, Fault>(Fault::Io),
{
    lemma_head_cut(input.unread, count);
}

pub proof fn lemma_untagged_same(input: Input, other: Seq<u8>)
    requires
        input.untagged().0 is Ok,
        shares(input, other, between(input, input.untagged().2)),
    ensures
        input.with_unread(other).untagged() == (
            input.untagged().0,
            input.untagged().1,
            input.untagged().2.with_unread(other.skip(between(input, input.untagged().2))),
        ),
    decreases input.pending(),
{
    lemma_pull(input);
    let (pulled, after) = input.pull();
    let last = input.untagged().2;
    if let Ok(Header::Tag(_)) = pulled {
        lemma_untagged(after);
        lemma_shares(input, after, other, between(input, last));
        lemma_pull_same(input, other);
        lemma_untagged_same(after, other.skip(between(input, after)));
        assert(other.skip(between(input, after)).skip(between(after, last)) =~= other.skip(
            between(input, last),
        ));
    } else {
        lemma_pull_same(input, other);
    }
}

pub proof fn lemma_untagged_cut(input: Input, count: int)
    requires
        input.untagged().0 is Ok,
        0 <= count < between(input, input.untagged().2),
    ensures
        input.cut(count as nat).untagged().0 == Err::<Header, Fault>(Fault::Io),
    decreases input.pending(),
{
    lemma_pull(input);
    lemma_untagged(input);
    let (pulled, after) = input.pull();
    let first = between(input, after);
    if count < first {
        lemma_pull_cut(input, count);
    } else if let Ok(Header::Tag(_)) = pulled {
        let other = input.unread.take(count);
        assert(other.take(first) =~= input.unread.take(first));
        lemma_pull_same(input, other);
        assert(other.skip(first) =~= after.unread.take(count - first));
        lemma_untagged_cut(after, count - first);
    }
}

pub proof fn lemma_sign_same(input: Input, other: Seq<u8>)
    requires
        input.sign().0 is Ok,
        shares(input, other, between(input, input.sign().1)),
    ensures
        input.with_unread(other).sign() == (
            input.sign().0,
            input.sign().1.with_unread(other.skip(between(input, input.sign().1))),
        ),
    decreases input.pending(),
{
    lemma_pull(input);
    let (pulled, after) = input.pull();
    let last = input.sign().1;
    if let Ok(Header::Tag(tag)) = pulled {
        lemma_sign(after);
        if tag == BIGPOS || tag == BIGNEG {
            lemma_pull_same(input, other);
        } else {
            lemma_shares(input, after, other, between(input, last));
            lemma_pull_same(input, other);
            lemma_sign_same(after, other.skip(between(input, after)));
            assert(other.skip(between(input, after)).skip(between(after, last)) =~= other.skip(
                between(input, last),
            ));
        }
    } else {
        lemma_pull_same(input, other);
    }
}

pub proof fn lemma_sign_cut(input: Input, count: int)
    requires
        input.sign().0 is Ok,
        0 <= count < between(input, input.sign().1),
    ensures
        input.cut(count as nat).sign().0 == Err::<Sign, Fault>(Fault::Io),
    decreases input.pending(),
{
    lemma_pull(input);
    lemma_sign(input);
    let (pulled, after) = input.pull();
    let first = between(input, after);
    if count < first {
        lemma_pull_cut(input, count);
    } else if let Ok(Header::Tag(_)) = pulled {
        let other = input.unread.take(count);
        assert(other.take(first) =~= input.unread.take(first));
        lemma_pull_same(input, other);
        assert(other.skip(first) =~= after.unread.take(count - first));
        lemma_sign_cut(after, count - first);
    }
}

proof fn lemma_segments_same(
    kind: Kind,
    bytes: Seq<u8>,
    other: Seq<u8>,
    offset: nat,
    nested: nat,
    room: nat,
)
    requires
        segments(kind, bytes, offset, nested, room).fault is None,
        segments(kind, bytes, offset, nested, room).taken <= other.len(),
        other.take(segments(kind, bytes, offset, nested, room).taken as int) == bytes.take(
            segments(kind, bytes, offset, nested, room).taken as int,
        ),
    ensures
        segments(kind, other, offset, nested, room) == segments(kind, bytes, offset, nested, room),
    decreases bytes.len(),
{
    let taken = segments(kind, bytes, offset, nested, room).taken as int;
    lemma_segments_end(kind, bytes, offset, nested, room);
    let front = head(bytes);
    let width = front.width as int;
    let rest = bytes.skip(width);
    let later = other.skip(width);
    let next = offset + front.width;
    if let Ok(header) = front.header {
        if header is Break {
            if nested > 1 {
                lemma_segments_end(kind, rest, next, (nested - 1) as nat, room);
                lemma_rest_shared(bytes, other, width, taken);
                lemma_head_same(bytes, other);
                lemma_segments_same(kind, rest, later, next, (nested - 1) as nat, room);
            } else {
                lemma_head_same(bytes, other);
            }
        } else if let Some(len) = string_len(kind, header) {
            match len {
                None => {
                    lemma_segments_end(kind, rest, next, nested + 1, room);
                    lemma_rest_shared(bytes, other, width, taken);
                    lemma_head_same(bytes, other);
                    lemma_segments_same(kind, rest, later, next, nested + 1, room);
                },
                Some(len) => {
                    let one = segment(kind, rest, offset, len as nat, room);
                    let len = len as int;
                    lemma_segments_end(kind, rest.skip(len), next + one.taken, nested, room);
                    lemma_rest_shared(bytes, other, width, taken);
                    lemma_rest_shared(rest, later, len, taken - width);
                    lemma_head_same(bytes, other);
                    lemma_segments_same(
                        kind,
                        rest.skip(len),
                        later.skip(len),
                        next + one.taken,
                        nested,
                        room,
                    );
                },
            }
        }
    }
}

proof fn lemma_rest_shared(bytes: Seq<u8>, other: Seq<u8>, first: int, count: int)
    requires
        0 <= first <= count <= bytes.len(),
        count <= other.len(),
        other.take(count) == bytes.take(count),
    ensures
        other.take(first) == bytes.take(first),
        other.skip(first).take(count - first) == bytes.skip(first).take(count - first),
{
    assert(other.take(first) =~= other.take(count).take(first));
    assert(bytes.take(first) =~= bytes.take(count).take(first));
    assert(other.skip(first).take(count - first) =~= other.take(count).skip(first));
    assert(bytes.skip(first).take(count - first) =~= bytes.take(count).skip(first));
}

/// A segment that is cut short is just that.
proof fn lemma_segment_cut(kind: Kind, bytes: Seq<u8>, offset: nat, len: nat, room: nat, count: int)
    requires
        segment(kind, bytes, offset, len, room).fault is None,
        0 <= count < len,
    ensures
        segment(kind, bytes.take(count), offset, len, room).fault == Some(Fault::Io),
{
    let text = bytes.take(len as int);
    if kind is Text {
        assert(Seq::<u8>::empty() + text =~= text);
        lemma_cut_text(seq![], text, count, len, room);
        assert(text.take(count) =~= bytes.take(count));
    }
}

proof fn lemma_segments_cut(
    kind: Kind,
    bytes: Seq<u8>,
    offset: nat,
    nested: nat,
    room: nat,
    count: int,
)
    requires
        segments(kind, bytes, offset, nested, room).fault is None,
        0 <= count < segments(kind, bytes, offset, nested, room).taken,
    ensures
        segments(kind, bytes.take(count), offset, nested, room).fault == Some(Fault::Io),
    decreases bytes.len(),
{
    lemma_segments_end(kind, bytes, offset, nested, room);
    let front = head(bytes);
    let width = front.width as int;
    let cut = bytes.take(count);
    let rest = bytes.skip(width);
    let next = offset + front.width;
    if let Ok(header) = front.header {
        if count < width {
            lemma_head_cut(bytes, count);
        } else {
            assert(cut.take(width) =~= bytes.take(width));
            lemma_head_same(bytes, cut);
            assert(cut.skip(width) =~= rest.take(count - width));
            if header is Break {
                lemma_segments_cut(kind, rest, next, (nested - 1) as nat, room, count - width);
            } else if let Some(len) = string_len(kind, header) {
                match len {
                    None => {
                        lemma_segments_cut(kind, rest, next, nested + 1, room, count - width);
                    },
                    Some(len) => {
                        let left = count - width;
                        if left < len {
                            lemma_segment_cut(kind, rest, offset, len as nat, room, left);
                        } else {
                            let part = rest.take(left);
                            assert(part.take(len as int) =~= rest.take(len as int));
                            assert(part.skip(len as int) =~= rest.skip(len as int).take(
                                left - len,
                            ));
                            lemma_segments_cut(
                                kind,
                                rest.skip(len as int),
                                next + len as nat,
                                nested,
                                room,
                                left - len,
                            );
                        }
                    },
                }
            }
        }
    }
}

pub proof fn lemma_body_same(input: Input, kind: Kind, len: Option<usize>, room: nat, other: Seq<u8>)
    requires
        input.body(kind, len, room).fault is None,
        shares(input, other, input.body(kind, len, room).taken as int),
    ensures
        input.with_unread(other).body(kind, len, room) == input.body(kind, len, room),
{
    if len is None {
        lemma_segments_same(kind, input.unread, other, input.position, 1, room);
    }
}

pub proof fn lemma_body_cut(input: Input, kind: Kind, len: Option<usize>, room: nat, count: int)
    requires
        input.body(kind, len, room).fault is None,
        0 <= count < input.body(kind, len, room).taken,
    ensures
        input.cut(count as nat).body(kind, len, room).fault == Some(Fault::Io),
{
    match len {
        None => lemma_segments_cut(kind, input.unread, input.position, 1, room, count),
        Some(len) => lemma_segment_cut(
            kind,
            input.unread,
            input.pushed().offset(),
            len as nat,
            room,
            count,
        ),
    }
}

} // verus!
