//! Where an integer is given up that takes too many bytes.

use vstd::prelude::*;

use vstd::slice::slice_subrange;

use crate::bignum::{lemma_significant_prefix, Bignum, MAX_LEN};
use crate::decoder::{Decoder, Front, Input};
use crate::header::Header;
use crate::laws::lemma_body;
use crate::prefix::{lemma_cut_bytes, lemma_head_same};
use crate::wire::{head, segment, segments, string_len, Flaw, Head, Kind};

verus! {

/// The contents of a byte string do not depend on where it stands.
proof fn lemma_segments_moved(bytes: Seq<u8>, offset: nat, other: nat, nested: nat, room: nat)
    ensures
        segments(Kind::Bytes, bytes, offset, nested, room).content == segments(
            Kind::Bytes,
            bytes,
            other,
            nested,
            room,
        ).content,
    decreases bytes.len(),
{
    let front = head(bytes);
    let width = front.width;
    let rest = bytes.skip(width as int);
    if let Ok(header) = front.header {
        if header is Break {
            if nested > 1 {
                lemma_segments_moved(rest, offset + width, other + width, (nested - 1) as nat, room);
            }
        } else if let Some(len) = string_len(Kind::Bytes, header) {
            match len {
                None => {
                    lemma_segments_moved(rest, offset + width, other + width, nested + 1, room);
                },
                Some(len) => {
                    let one = segment(Kind::Bytes, rest, offset, len as nat, room);
                    if one.fault is None {
                        lemma_segments_moved(
                            rest.skip(one.taken as int),
                            offset + width + one.taken,
                            other + width + one.taken,
                            nested,
                            room,
                        );
                    }
                },
            }
        }
    }
}

proof fn lemma_overflow_moved(input: Input, other: Input, len: Option<usize>)
    requires
        input.unread == other.unread,
    ensures
        input.overflows(len) == other.overflows(len),
{
    if len is None {
        lemma_segments_moved(input.unread, input.position, other.position, 1, MAX_LEN as nat);
    }
}

/// A byte string that is cut short holds no other bytes.
pub proof fn lemma_overflow_cut(input: Input, len: Option<usize>, count: nat)
    requires
        count <= input.unread.len(),
    ensures
        input.cut(count).overflows(len) ==> input.overflows(len),
        input.overflows(len) && count >= input.body(Kind::Bytes, len, MAX_LEN as nat).taken
            ==> input.cut(count).overflows(len),
{
    let room = MAX_LEN as nat;
    let whole = input.body(Kind::Bytes, len, room).content;
    let part = input.cut(count).body(Kind::Bytes, len, room).content;
    match len {
        None => {
            lemma_cut_bytes(input.unread, input.position, 1, count as int);
        },
        Some(len) => {
            if len <= count {
                assert(input.unread.take(count as int).take(len as int) =~= input.unread.take(
                    len as int,
                ));
            } else {
                assert(part =~= input.unread.take(count as int / 16 * 16));
            }
        },
    }
    assert(part.is_prefix_of(whole));
    assert(whole =~= part + whole.skip(part.len() as int));
    lemma_significant_prefix(part, whole.skip(part.len() as int));
}

proof fn lemma_overflow_grows(input: Input, len: Option<usize>, count: nat, more: nat)
    requires
        count <= more <= input.unread.len(),
        input.cut(count).overflows(len),
    ensures
        input.cut(more).overflows(len),
{
    lemma_overflow_cut(input.cut(more), len, count);
    assert(input.cut(more).unread.take(count as int) =~= input.unread.take(count as int));
}

/// The least number of bytes that overflow is where they do.
proof fn lemma_overflow_at(input: Input, len: Option<usize>, from: nat, count: nat)
    requires
        from <= count <= input.unread.len(),
        input.cut(count).overflows(len),
        forall|n: nat| n < count ==> !(#[trigger] input.cut(n)).overflows(len),
    ensures
        input.overflow_at(len, from) == count,
    decreases count - from,
{
    if from < count {
        assert(!input.cut(from).overflows(len));
        lemma_overflow_at(input, len, from + 1, count);
    }
}

/// Giving up takes no more bytes than there are.
pub proof fn lemma_overflow_bound(input: Input, len: Option<usize>, from: nat)
    requires
        from <= input.unread.len(),
    ensures
        from <= input.overflow_at(len, from) <= input.unread.len(),
    decreases input.unread.len() - from,
{
    if from < input.unread.len() {
        lemma_overflow_bound(input, len, from + 1);
    }
}

/// Whether more bytes come of the byte string at the front of some bytes than are
/// worked out of an integer.
fn overflows(bytes: &[u8]) -> (over: bool)
    requires
        Input::of(bytes@).pull().0 matches Ok(Header::Bytes(_)),
    ensures
        Input::of(bytes@).pull().0 matches Ok(Header::Bytes(len)) && over == Input::of(
            bytes@,
        ).pull().1.overflows(len),
{
    let mut decoder = Decoder::new(bytes);
    match decoder.pull() {
        Ok(Header::Bytes(len)) => {
            let mut buffer = [0u8; 16];
            let (chunks, _) = decoder.bytes(len, &mut buffer);
            Bignum::collect(&chunks, false).is_err()
        },
        _ => false,
    }
}

/// How many bytes after its head, which takes `width` bytes, overflow of the byte
/// string at the front of some bytes.
fn overflow_after(bytes: &[u8], width: usize, len: Option<usize>) -> (count: usize)
    requires
        head(bytes@) == (Head { header: Ok(Header::Bytes(len)), width: width as nat }),
        Input::of(bytes@).pull().1.overflows(len),
    ensures
        ({
            let after = Input::of(bytes@).pull().1;
            &&& count <= after.unread.len()
            &&& after.cut(count as nat).overflows(len)
            &&& forall|n: nat| n < count ==> !(#[trigger] after.cut(n)).overflows(len)
        }),
{
    let ghost after = Input::of(bytes@).pull().1;
    let mut low: usize = 0;
    let size: usize = bytes.len();
    let mut high: usize = size - width;
    assert(after.cut(high as nat).unread =~= after.unread);
    while low < high
        invariant
            low <= high <= after.unread.len(),
            after.unread.len() == size - width,
            width <= size == bytes@.len(),
            head(bytes@) == (Head { header: Ok(Header::Bytes(len)), width: width as nat }),
            after == Input::of(bytes@).pull().1,
            after.cut(high as nat).overflows(len),
            forall|n: nat| n < low ==> !(#[trigger] after.cut(n)).overflows(len),
        decreases high - low,
    {
        let middle: usize = low + (high - low) / 2;
        let part = slice_subrange(bytes, 0, width + middle);
        proof {
            assert(part@.take(width as int) =~= bytes@.take(width as int));
            lemma_head_same(bytes@, part@);
            assert(part@.skip(width as int) =~= after.unread.take(middle as int));
            assert(Input::of(part@).pull().1 == after.cut(middle as nat));
        }
        if overflows(part) {
            high = middle;
        } else {
            proof {
                assert forall|n: nat| n < middle + 1 implies !(#[trigger] after.cut(n)).overflows(
                    len,
                ) by {
                    if after.cut(n).overflows(len) {
                        lemma_overflow_grows(after, len, n, middle as nat);
                    }
                }
            }
            low = middle + 1;
        }
    }
    high
}

/// The byte string that comes next is at the front of the bytes that were taken of
/// it, and overflows there too.
proof fn lemma_part(before: Input, bytes: Seq<u8>, len: Option<usize>)
    requires
        before.front !is Held,
        head(before.unread).header == Ok::<Header, Flaw>(Header::Bytes(len)),
        before.pull().1.overflows(len),
        bytes == before.unread.take(
            (head(before.unread).width + before.pull().1.body(
                Kind::Bytes,
                len,
                MAX_LEN as nat,
            ).taken) as int,
        ),
    ensures
        head(bytes) == head(before.unread),
        Input::of(bytes).pull().1.overflows(len),
        Input::of(bytes).pull().1.unread == before.pull().1.unread.take(
            bytes.len() - head(bytes).width,
        ),
{
    let width = head(before.unread).width as int;
    let after = before.pull().1;
    let taken = after.body(Kind::Bytes, len, MAX_LEN as nat).taken;
    lemma_body(after, Kind::Bytes, len, MAX_LEN as nat);
    assert(bytes.take(width) =~= before.unread.take(width));
    lemma_head_same(before.unread, bytes);
    let part = Input::of(bytes).pull().1;
    assert(part.unread =~= after.unread.take(taken as int));
    lemma_overflow_cut(after, len, taken);
    lemma_overflow_moved(part, after.cut(taken), len);
}

/// Where the bytes that were taken of a byte string overflow, it does.
proof fn lemma_part_overflow(before: Input, bytes: Seq<u8>, len: Option<usize>, count: nat)
    requires
        Input::of(bytes).pull().1.unread.len() <= before.pull().1.unread.len(),
        Input::of(bytes).pull().1.unread == before.pull().1.unread.take(
            Input::of(bytes).pull().1.unread.len() as int,
        ),
        count <= Input::of(bytes).pull().1.unread.len(),
        Input::of(bytes).pull().1.cut(count).overflows(len),
        forall|n: nat| n < count ==> !(#[trigger] Input::of(bytes).pull().1.cut(n)).overflows(len),
    ensures
        before.pull().1.overflow_at(len, 0) == count,
{
    let after = before.pull().1;
    let part = Input::of(bytes).pull().1;
    assert forall|n: nat| n <= count implies #[trigger] after.cut(n).overflows(len) == part.cut(
        n,
    ).overflows(len) by {
        assert(after.cut(n).unread =~= part.cut(n).unread);
        lemma_overflow_moved(part.cut(n), after.cut(n), len);
    }
    assert forall|n: nat| n < count implies !(#[trigger] after.cut(n)).overflows(len) by {
        assert(!part.cut(n).overflows(len));
    }
    lemma_overflow_at(after, len, 0, count);
}

/// Goes back to where an integer is given up. Its byte string, of length `len`,
/// stands at `start`, has its contents from `body` on and was read up to `stop`;
/// `copy` and `back` start with as many bytes before it.
pub(crate) fn give_up<'a>(
    copy: Decoder<'a>,
    back: Decoder<'a>,
    start: usize,
    body: usize,
    stop: usize,
    len: Option<usize>,
) -> (decoder: Decoder<'a>)
    requires
        copy@ == Input::of(copy@.unread),
        back@ == Input::of(back@.unread),
        back@.unread.len() == copy@.unread.len(),
        back@.unread.skip(start as int) == copy@.unread.skip(start as int),
        start <= body <= stop <= copy@.unread.len(),
        ({
            let before = copy@.advanced(start as nat, Front::Empty);
            let (pulled, after) = before.pull();
            &&& head(before.unread) == (Head {
                header: Ok(Header::Bytes(len)),
                width: (body - start) as nat,
            })
            &&& after.overflows(len)
            &&& stop - body == after.body(Kind::Bytes, len, MAX_LEN as nat).taken
        }),
    ensures
        ({
            let after = copy@.advanced(start as nat, Front::Empty).pull().1;
            decoder@ == after.advanced(after.overflow_at(len, 0), Front::Empty)
        }),
{
    let ghost before = copy@.advanced(start as nat, Front::Empty);
    let ghost after = before.pull().1;
    let mut copy = copy;
    let mut back = back;
    let _ = copy.take(start);
    let bytes = copy.take(stop - start);
    let width: usize = body - start;
    proof {
        lemma_part(before, bytes@, len);
    }
    let count: usize = overflow_after(bytes.as_slice(), width, len);
    proof {
        lemma_part_overflow(before, bytes@, len, count as nat);
        assert(back@.unread.skip(body + count) =~= back@.unread.skip(start as int).skip(
            width + count,
        ));
        assert(after.unread.skip(count as int) =~= before.unread.skip(width + count));
    }
    let _ = back.take(body + count);
    back
}

} // verus!
