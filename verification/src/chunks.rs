//! How a text that is read in chunks ends where it is cut short or malformed.

use vstd::prelude::*;

use vstd::utf8::{length_of_first_scalar, pop_first_scalar, valid_first_scalar, valid_utf8};

use crate::error::Fault;
use crate::wire::{broken_text, gets_through, narrow_up_to, segment, valid_up_to, Kind};

verus! {

/// The whole characters at the front are among the bytes.
pub proof fn lemma_valid_up_to(bytes: Seq<u8>)
    ensures
        valid_up_to(bytes) <= bytes.len(),
    decreases bytes.len(),
{
    if valid_first_scalar(bytes) {
        lemma_valid_up_to(pop_first_scalar(bytes));
    }
}

/// No more bytes are taken of a broken text than there are.
pub proof fn lemma_broken_text(saved: Seq<u8>, bytes: Seq<u8>, len: nat, room: nat)
    ensures
        broken_text(saved, bytes, len, room).1 <= bytes.len(),
    decreases len,
{
    reveal_with_fuel(broken_text, 2);
    let size = if saved.len() + len <= room {
        saved.len() + len
    } else {
        room
    };
    let fresh = (size - saved.len()) as nat;
    if len > 0 && size > saved.len() && fresh <= bytes.len() {
        let chunk = saved + bytes.take(fresh as int);
        lemma_valid_up_to(chunk);
        let rest = chunk.skip(valid_up_to(chunk) as int);
        lemma_broken_text(rest, bytes.skip(fresh as int), (len - fresh) as nat, room);
    }
}

/// A text that is all there and gets through a buffer of four bytes is not cut
/// short.
proof fn lemma_malformed(saved: Seq<u8>, bytes: Seq<u8>, len: nat, room: nat)
    requires
        saved.len() <= 3,
        room >= 4,
        len <= bytes.len(),
    ensures
        !broken_text(saved, bytes, len, room).0,
    decreases len,
{
    reveal_with_fuel(broken_text, 2);
    let size = if saved.len() + len <= room {
        saved.len() + len
    } else {
        room
    };
    let fresh = (size - saved.len()) as nat;
    if len > 0 {
        let chunk = saved + bytes.take(fresh as int);
        lemma_valid_up_to(chunk);
        let rest = chunk.skip(valid_up_to(chunk) as int);
        if rest.len() <= 3 {
            lemma_malformed(rest, bytes.skip(fresh as int), (len - fresh) as nat, room);
        }
    }
}

/// The whole characters at the front of some bytes that fit a buffer fit it one by
/// one, and none is left behind them.
proof fn lemma_narrow(bytes: Seq<u8>, count: int, room: nat)
    requires
        0 <= count <= bytes.len(),
        count <= room,
    ensures
        ({
            let front = bytes.take(count);
            let at = valid_up_to(front);
            &&& at <= count
            &&& narrow_up_to(bytes, room) == at + narrow_up_to(bytes.skip(at as int), room)
            &&& valid_up_to(front.skip(at as int)) == 0
        }),
    decreases count,
{
    let front = bytes.take(count);
    if valid_first_scalar(front) {
        let width = length_of_first_scalar(front);
        assert(valid_first_scalar(bytes) && length_of_first_scalar(bytes) == width);
        let rest = pop_first_scalar(bytes);
        assert(pop_first_scalar(front) =~= rest.take(count - width));
        lemma_narrow(rest, count - width, room);
        let next = valid_up_to(rest.take(count - width)) as int;
        assert(bytes.skip(width + next) =~= rest.skip(next));
        assert(front.skip(width + next) =~= rest.take(count - width).skip(next));
    } else {
        assert(front.skip(0) =~= front);
        assert(bytes.skip(0) =~= bytes);
    }
}

/// A text that is all there and gets through a smaller buffer is not cut short.
proof fn lemma_malformed_narrow(saved: Seq<u8>, bytes: Seq<u8>, len: nat, room: nat)
    requires
        saved.len() <= room <= 3,
        valid_up_to(saved) == 0,
        len <= bytes.len(),
        narrow_up_to(saved + bytes, room) + room >= saved.len() + len,
    ensures
        !broken_text(saved, bytes, len, room).0,
    decreases len,
{
    reveal_with_fuel(broken_text, 2);
    let all = saved + bytes;
    let size = if saved.len() + len <= room {
        saved.len() + len
    } else {
        room
    };
    let fresh = (size - saved.len()) as nat;
    if len > 0 {
        if saved.len() == room {
            assert(saved =~= all.take(room as int));
            if valid_first_scalar(all) && length_of_first_scalar(all) <= room {
                assert(valid_first_scalar(saved));
                assert(false);
            }
        }
        let chunk = saved + bytes.take(fresh as int);
        assert(chunk =~= all.take(size as int));
        lemma_narrow(all, size as int, room);
        let at = valid_up_to(chunk) as int;
        let rest = chunk.skip(at);
        let later = bytes.skip(fresh as int);
        assert(rest + later =~= all.skip(at));
        lemma_malformed_narrow(rest, later, (len - fresh) as nat, room);
    }
}

/// A text that is all there and gets through the buffer is not cut short.
pub proof fn lemma_all_there(bytes: Seq<u8>, len: nat, room: nat)
    requires
        len <= bytes.len(),
        gets_through(Kind::Text, bytes, len, room),
    ensures
        !broken_text(seq![], bytes, len, room).0,
{
    if room >= 4 {
        lemma_malformed(seq![], bytes, len, room);
    } else if len > 0 {
        assert(Seq::<u8>::empty() + bytes =~= bytes);
        lemma_malformed_narrow(seq![], bytes, len, room);
    } else {
        reveal_with_fuel(broken_text, 2);
    }
}

/// What follows the whole characters of a text's front is less than a character,
/// and starts where one does.
pub proof fn lemma_cut_character(whole: Seq<u8>, count: int)
    requires
        valid_utf8(whole),
        0 <= count <= whole.len(),
    ensures
        ({
            let front = whole.take(count);
            &&& valid_up_to(front) <= front.len() <= valid_up_to(front) + 3
            &&& valid_utf8(whole.skip(valid_up_to(front) as int))
        }),
    decreases whole.len(),
{
    let front = whole.take(count);
    if count == 0 {
        assert(whole.skip(0) =~= whole);
    } else {
        let width = length_of_first_scalar(whole);
        if width <= count {
            assert(valid_first_scalar(front) && length_of_first_scalar(front) == width);
            let rest = pop_first_scalar(whole);
            assert(pop_first_scalar(front) =~= rest.take(count - width));
            lemma_cut_character(rest, count - width);
            let next = valid_up_to(rest.take(count - width));
            assert(whole.skip(width + next) =~= rest.skip(next as int));
        } else {
            assert(!valid_first_scalar(front));
            assert(whole.skip(0) =~= whole);
        }
    }
}

/// A text that is cut short is found to be so, and not malformed: the bytes end
/// first, wherever they are cut.
pub proof fn lemma_cut_text(saved: Seq<u8>, text: Seq<u8>, count: int, len: nat, room: nat)
    requires
        valid_utf8(saved + text),
        0 <= count <= text.len(),
        count < len,
    ensures
        broken_text(saved, text.take(count), len, room).0,
    decreases len,
{
    reveal_with_fuel(broken_text, 2);
    let bytes = text.take(count);
    let size = if saved.len() + len <= room {
        saved.len() + len
    } else {
        room
    };
    let fresh = (size - saved.len()) as nat;
    if size > saved.len() && fresh <= bytes.len() {
        let whole = saved + text;
        let chunk = saved + bytes.take(fresh as int);
        assert(chunk =~= whole.take(size as int));
        lemma_cut_character(whole, size as int);
        let at = valid_up_to(chunk) as int;
        let rest = chunk.skip(at);
        let later = text.skip(fresh as int);
        assert(rest + later =~= whole.skip(at));
        assert(bytes.skip(fresh as int) =~= later.take(count - fresh));
        lemma_cut_text(rest, later, count - fresh, (len - fresh) as nat, room);
    }
}

/// A text segment ends for want of bytes if they end too early and could go on as
/// a text, be it inside a character.
pub proof fn law_cut_text_ends(bytes: Seq<u8>, more: Seq<u8>, offset: nat, len: nat, room: nat)
    requires
        bytes.len() < len,
        valid_utf8(bytes + more),
    ensures
        segment(Kind::Text, bytes, offset, len, room).fault == Some(Fault::Io),
{
    let text = bytes + more;
    assert(Seq::<u8>::empty() + text =~= text);
    assert(text.take(bytes.len() as int) =~= bytes);
    lemma_cut_text(seq![], text, bytes.len() as int, len, room);
}

/// A text segment that is all there and gets through the buffer is malformed
/// exactly if its bytes are not UTF-8.
pub proof fn law_whole_text_is_judged(bytes: Seq<u8>, offset: nat, len: nat, room: nat)
    requires
        len <= bytes.len(),
        gets_through(Kind::Text, bytes, len, room),
    ensures
        segment(Kind::Text, bytes, offset, len, room).fault == if valid_utf8(
            bytes.take(len as int),
        ) {
            None
        } else {
            Some(Fault::Syntax(offset))
        },
{
    lemma_all_there(bytes, len, room);
}

} // verus!
