//! The bytes of an item: its head, and the segments of a string.
//!
//! An item starts with one byte: a major type in the upper three bits and a
//! minor value in the lower five. A minor value of 24 to 27 announces one, two,
//! four or eight bytes that hold the item's argument, big-endian; a smaller one
//! is the argument itself; 31 stands for an indefinite length or a break.

use vstd::prelude::*;

use vstd::utf8::{length_of_first_scalar, pop_first_scalar, valid_first_scalar, valid_utf8};

use crate::error::Fault;
use crate::header::{canonical, Header};

verus! {

/// The number that the bytes stand for, the most significant one first.
pub open spec fn big_endian(bytes: Seq<u8>) -> nat {
    bytes.fold_left(0nat, |high: nat, byte: u8| high * 256 + byte as nat)
}

/// Why no header can be read.
pub enum Flaw {
    /// The bytes end too early.
    Ended,
    /// The bytes stand for no header.
    Malformed,
}

/// What stands at the front of some bytes, and how many of them it takes.
pub struct Head {
    pub header: Result<Header, Flaw>,
    pub width: nat,
}

/// How many bytes of argument follow a first byte.
pub open spec fn argument_len(first: u8) -> nat {
    let minor = first % 32;
    if minor == 24 {
        1
    } else if minor == 25 {
        2
    } else if minor == 26 {
        4
    } else if minor == 27 {
        8
    } else {
        0
    }
}

/// The canonical bits of the double that equals a number of half or single
/// precision, given by its bytes.
pub uninterp spec fn widened(bytes: Seq<u8>) -> u64;

/// The canonical bits of the double that some argument bytes stand for.
pub open spec fn double(bytes: Seq<u8>) -> u64 {
    if bytes.len() == 8 {
        canonical(big_endian(bytes) as u64)
    } else {
        widened(bytes)
    }
}

/// A number that an item is made of, which cannot be indefinite.
pub open spec fn definite(argument: Option<nat>, make: spec_fn(u64) -> Header) -> Result<
    Header,
    Flaw,
> {
    match argument {
        Some(value) => Ok(make(value as u64)),
        None => Err(Flaw::Malformed),
    }
}

/// A length, which may be indefinite but has to fit the machine.
pub open spec fn length(argument: Option<nat>, make: spec_fn(Option<usize>) -> Header) -> Result<
    Header,
    Flaw,
> {
    match argument {
        Some(value) => if value <= usize::MAX {
            Ok(make(Some(value as usize)))
        } else {
            Err(Flaw::Malformed)
        },
        None => Ok(make(None)),
    }
}

/// The header that a first byte and its argument bytes stand for.
pub open spec fn header_of(first: u8, bytes: Seq<u8>) -> Result<Header, Flaw> {
    let minor = first % 32;
    let argument: Option<nat> = if minor < 24 {
        Some(minor as nat)
    } else if minor == 31 {
        None
    } else {
        Some(big_endian(bytes))
    };
    match first / 32 {
        0 => definite(argument, |x| Header::Positive(x)),
        1 => definite(argument, |x| Header::Negative(x)),
        2 => length(argument, |x| Header::Bytes(x)),
        3 => length(argument, |x| Header::Text(x)),
        4 => length(argument, |x| Header::Array(x)),
        5 => length(argument, |x| Header::Mapping(x)),
        6 => definite(argument, |x| Header::Tag(x)),
        _ => Ok(
            if minor < 24 {
                Header::Simple(minor)
            } else if minor == 24 {
                Header::Simple(bytes[0])
            } else if minor == 31 {
                Header::Break
            } else {
                Header::Float(double(bytes))
            },
        ),
    }
}

/// The head at the front of the bytes.
pub open spec fn head(bytes: Seq<u8>) -> Head {
    if bytes.len() == 0 {
        Head { header: Err(Flaw::Ended), width: 0 }
    } else if 28 <= bytes[0] % 32 <= 30 {
        Head { header: Err(Flaw::Malformed), width: 1 }
    } else if bytes.len() < 1 + argument_len(bytes[0]) {
        Head { header: Err(Flaw::Ended), width: 1 }
    } else {
        let width = 1 + argument_len(bytes[0]);
        Head { header: header_of(bytes[0], bytes.subrange(1, width as int)), width }
    }
}

/// The very bits of the double at the front of the bytes, if one stands there in
/// eight bytes: nothing is converted then.
pub open spec fn double_bits(bytes: Seq<u8>) -> Option<u64> {
    if head(bytes).width == 9 && head(bytes).header matches Ok(Header::Float(_)) {
        Some(big_endian(bytes.subrange(1, 9)) as u64)
    } else {
        None
    }
}

/// The fault of a flaw in the head at an offset.
pub open spec fn flaw_at(flaw: Flaw, offset: nat) -> Fault {
    match flaw {
        Flaw::Ended => Fault::Io,
        Flaw::Malformed => Fault::Syntax(offset),
    }
}

/// How many bytes the shortest head with this argument takes.
pub open spec fn shortest(argument: nat) -> nat {
    if argument < 24 {
        1
    } else if argument < 0x100 {
        2
    } else if argument < 0x1_0000 {
        3
    } else if argument < 0x1_0000_0000 {
        5
    } else {
        9
    }
}

/// How many bytes the shortest head of a double takes: three, five or nine, as
/// the number fits half, single or only double precision.
pub uninterp spec fn shortest_float(bits: u64) -> nat;

/// How many bytes the shortest form of a header takes.
pub open spec fn shortest_head(header: Header) -> nat {
    match header {
        Header::Positive(x) => shortest(x as nat),
        Header::Negative(x) => shortest(x as nat),
        Header::Tag(x) => shortest(x as nat),
        Header::Simple(x) => shortest(x as nat),
        Header::Bytes(Some(x)) => shortest(x as nat),
        Header::Text(Some(x)) => shortest(x as nat),
        Header::Array(Some(x)) => shortest(x as nat),
        Header::Mapping(Some(x)) => shortest(x as nat),
        Header::Float(bits) => shortest_float(bits),
        _ => 1,
    }
}

/// The two kinds of string.
pub enum Kind {
    Bytes,
    Text,
}

/// The contents of a string as far as they can be read, what ends them early,
/// and how many bytes were taken. The contents of a faulty text are left empty.
pub struct Body {
    pub content: Seq<u8>,
    pub fault: Option<Fault>,
    pub taken: nat,
}

/// How many bytes at the front are whole characters.
pub open spec fn valid_up_to(bytes: Seq<u8>) -> nat
    decreases bytes.len(),
{
    if valid_first_scalar(bytes) {
        (length_of_first_scalar(bytes) + valid_up_to(pop_first_scalar(bytes))) as nat
    } else {
        0
    }
}

/// How a text segment ends that is cut short or malformed, with `len` bytes of it
/// to come and some saved that are no whole character: whether the bytes end
/// before it is found malformed, and how many of them have been taken by then.
///
/// The text is read in chunks of `room` bytes, the saved ones first. What is left
/// of a chunk behind its whole characters is saved for the next one, up to three
/// bytes, so some malformed bytes are found out only later. What does not get
/// through the buffer at all, as [`gets_through`] has it, counts as cut short.
#[verifier::opaque]
pub open spec fn broken_text(saved: Seq<u8>, bytes: Seq<u8>, len: nat, room: nat) -> (bool, nat)
    decreases len,
{
    let size = if saved.len() + len <= room {
        saved.len() + len
    } else {
        room
    };
    let fresh = (size - saved.len()) as nat;
    if len == 0 {
        (false, 0)
    } else if size <= saved.len() || bytes.len() < fresh {
        (true, 0)
    } else {
        let chunk = saved + bytes.take(fresh as int);
        let rest = chunk.skip(valid_up_to(chunk) as int);
        if rest.len() > 3 {
            (false, fresh)
        } else {
            let (ended, taken) = broken_text(
                rest,
                bytes.skip(fresh as int),
                (len - fresh) as nat,
                room,
            );
            (ended, fresh + taken)
        }
    }
}

/// One segment of `len` bytes, whose head starts at `offset`, read `room` bytes
/// at a time: of a byte segment that ends early, the whole rooms are read.
pub open spec fn segment(kind: Kind, bytes: Seq<u8>, offset: nat, len: nat, room: nat) -> Body {
    let here = bytes.take(len as int);
    match kind {
        Kind::Bytes => if len <= bytes.len() {
            Body { content: here, fault: None, taken: len }
        } else {
            let whole = bytes.len() / room * room;
            Body { content: bytes.take(whole as int), fault: Some(Fault::Io), taken: whole }
        },
        Kind::Text => if len <= bytes.len() && valid_utf8(here) {
            Body { content: here, fault: None, taken: len }
        } else {
            let (ended, taken) = broken_text(seq![], bytes, len, room);
            Body {
                content: seq![],
                fault: Some(
                    if ended {
                        Fault::Io
                    } else {
                        Fault::Syntax(offset)
                    },
                ),
                taken,
            }
        },
    }
}

/// The length in the header of a string of this kind.
pub open spec fn string_len(kind: Kind, header: Header) -> Option<Option<usize>> {
    match (kind, header) {
        (Kind::Bytes, Header::Bytes(len)) => Some(len),
        (Kind::Text, Header::Text(len)) => Some(len),
        _ => None,
    }
}

/// `body` with some content before it, after `width` bytes.
pub open spec fn after(content: Seq<u8>, width: nat, body: Body) -> Body {
    Body { content: content + body.content, fault: body.fault, taken: width + body.taken }
}

/// The segments up to the break that ends them: `nested` strings of indefinite
/// length have been opened.
pub open spec fn segments(kind: Kind, bytes: Seq<u8>, offset: nat, nested: nat, room: nat) -> Body
    decreases bytes.len(),
{
    let front = head(bytes);
    let rest = bytes.skip(front.width as int);
    let stopped = |fault: Option<Fault>| Body { content: seq![], fault, taken: front.width };
    match front.header {
        Err(flaw) => stopped(Some(flaw_at(flaw, offset))),
        Ok(Header::Break) => if nested <= 1 {
            stopped(None)
        } else {
            after(
                seq![],
                front.width,
                segments(kind, rest, offset + front.width, (nested - 1) as nat, room),
            )
        },
        Ok(header) => match string_len(kind, header) {
            None => stopped(Some(Fault::Syntax(offset))),
            Some(None) => after(
                seq![],
                front.width,
                segments(kind, rest, offset + front.width, nested + 1, room),
            ),
            Some(Some(len)) => {
                let one = segment(kind, rest, offset, len as nat, room);
                if one.fault is Some {
                    after(seq![], front.width, one)
                } else {
                    after(
                        one.content,
                        front.width + one.taken,
                        segments(
                            kind,
                            rest.skip(one.taken as int),
                            offset + front.width + one.taken,
                            nested,
                            room,
                        ),
                    )
                }
            },
        },
    }
}

/// Whether any segment gets through a buffer of `room` bytes: nothing gets through
/// an empty one, and a character of a text takes up to four bytes.
pub open spec fn is_roomy(kind: Kind, room: nat) -> bool {
    match kind {
        Kind::Bytes => room > 0,
        Kind::Text => room >= 4,
    }
}

/// How many bytes at the front are whole characters of at most `room` bytes each.
pub open spec fn narrow_up_to(bytes: Seq<u8>, room: nat) -> nat
    decreases bytes.len(),
{
    if valid_first_scalar(bytes) && length_of_first_scalar(bytes) <= room {
        (length_of_first_scalar(bytes) + narrow_up_to(pop_first_scalar(bytes), room)) as nat
    } else {
        0
    }
}

/// Whether one segment of `len` bytes gets through a buffer of `room` bytes. In a
/// text, what follows the characters that do either fits the buffer up to the end
/// of the segment, or the bytes end before they fill it.
pub open spec fn gets_through(kind: Kind, bytes: Seq<u8>, len: nat, room: nat) -> bool {
    ||| len == 0
    ||| is_roomy(kind, room)
    ||| {
        let filled = narrow_up_to(bytes, room) + room;
        kind is Text && room > 0 && (filled >= len || filled > bytes.len())
    }
}

/// Whether all segments get through, up to the break or the fault that ends them.
pub open spec fn all_get_through(kind: Kind, bytes: Seq<u8>, nested: nat, room: nat) -> bool
    decreases bytes.len(),
{
    let front = head(bytes);
    let rest = bytes.skip(front.width as int);
    match front.header {
        Err(_) => true,
        Ok(Header::Break) => nested <= 1 || all_get_through(kind, rest, (nested - 1) as nat, room),
        Ok(header) => match string_len(kind, header) {
            None => true,
            Some(None) => all_get_through(kind, rest, nested + 1, room),
            Some(Some(len)) => gets_through(kind, rest, len as nat, room) && (segment(
                kind,
                rest,
                0,
                len as nat,
                room,
            ).fault is None ==> all_get_through(kind, rest.skip(len as int), nested, room)),
        },
    }
}

} // verus!
