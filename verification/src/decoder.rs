//! The decoder that takes headers and strings off the input.

use vstd::prelude::*;

use ciborium_ll::Error as Flaw;
use ciborium_ll::Header as Item;
use vstd::utf8::decode_utf8;

use crate::error::{outcome, Error, Fault};
use crate::header::{canonical, is_nan, Header};
use crate::wire::{
    all_get_through, double_bits, flaw_at, gets_through, head, is_roomy, segment, segments,
    shortest_float, shortest_head, widened, Body, Kind,
};

verus! {

/// A `ciborium_ll::Decoder` that reads from a byte slice, with that slice and the
/// header that was pulled last.
///
/// That type is generic over the reader, by a trait of its own crate; here the
/// reader is fixed. Every value of this type comes from [`Decoder::new`], so
/// its offset never passes the length of a slice.
#[verifier::external_body]
pub struct Decoder<'a> {
    input: &'a [u8],
    inner: ciborium_ll::Decoder<&'a [u8]>,
    last: Option<Item>,
}

/// Where the header that came last is.
pub enum Front {
    /// It has been followed up, or there was none.
    Empty,
    /// It has just been pulled, and can be pushed back.
    Pulled(Header),
    /// It has been pushed back, and is pulled again next.
    Held(Header),
}

/// The bytes that no header or string has been read from yet.
pub uninterp spec fn unread(decoder: Decoder<'_>) -> Seq<u8>;

/// Where the header that came last is.
pub uninterp spec fn front(decoder: Decoder<'_>) -> Front;

/// How many bytes have been read so far.
pub uninterp spec fn position(decoder: Decoder<'_>) -> nat;

/// What a decoder holds.
pub struct Input {
    pub unread: Seq<u8>,
    pub front: Front,
    pub position: nat,
}

/// A header or an error, both taken by their views.
pub open spec fn header_or_fault(result: Result<Header, Error>) -> Result<Header, Fault> {
    match result {
        Ok(header) => Ok(header@),
        Err(error) => Err(error@),
    }
}

/// Whether a header holds these very bits, if any are given.
pub open spec fn is_exact(header: Header, bits: Option<u64>) -> bool {
    bits is Some ==> header == Header::Float(bits->Some_0)
}

/// The bytes of all chunks in order.
pub open spec fn joined(chunks: Seq<Vec<u8>>) -> Seq<u8>
    decreases chunks.len(),
{
    if chunks.len() == 0 {
        seq![]
    } else {
        joined(chunks.drop_last()) + chunks.last()@
    }
}

/// The characters of all chunks in order.
pub open spec fn joined_text(chunks: Seq<String>) -> Seq<char>
    decreases chunks.len(),
{
    if chunks.len() == 0 {
        seq![]
    } else {
        joined_text(chunks.drop_last()) + chunks.last()@
    }
}

/// Whether a string came to its end, or what ended it early.
pub open spec fn ended(body: Body) -> Result<(), Fault> {
    match body.fault {
        None => Ok(()),
        Some(fault) => Err(fault),
    }
}

impl Input {
    /// The input that starts with these bytes.
    pub open spec fn of(bytes: Seq<u8>) -> Input {
        Input { unread: bytes, front: Front::Empty, position: 0 }
    }

    /// This input with other bytes to come.
    pub open spec fn with_unread(self, unread: Seq<u8>) -> Input {
        Input { unread, ..self }
    }

    /// The input after `width` more bytes.
    pub open spec fn advanced(self, width: nat, front: Front) -> Input {
        Input {
            unread: self.unread.skip(width as int),
            front,
            position: self.position + width,
        }
    }

    /// Whether this input is `before` with some bytes read.
    pub open spec fn is_past(self, before: Input) -> bool {
        &&& before.position <= self.position <= before.position + before.unread.len()
        &&& self.unread == before.unread.skip(self.position - before.position)
    }

    /// How much is left to pull, counted in bytes and headers pushed back.
    pub open spec fn pending(self) -> nat {
        self.unread.len() + if self.front is Held {
            1nat
        } else {
            0
        }
    }

    /// The next header: the one that was pushed back, or the one at the front
    /// of the unread bytes.
    pub open spec fn pull(self) -> (Result<Header, Fault>, Input) {
        match self.front {
            Front::Held(header) => (Ok(header), Input { front: Front::Pulled(header), ..self }),
            _ => {
                let next = head(self.unread);
                match next.header {
                    Ok(header) => (Ok(header), self.advanced(next.width, Front::Pulled(header))),
                    Err(flaw) => (
                        Err(flaw_at(flaw, self.position)),
                        self.advanced(next.width, Front::Empty),
                    ),
                }
            },
        }
    }

    /// The input once the header just pulled is back.
    pub open spec fn pushed(self) -> Input {
        match self.front {
            Front::Pulled(header) => Input { front: Front::Held(header), ..self },
            _ => self,
        }
    }

    /// The offset of the next header. A header that was pushed back counts by
    /// its shortest form.
    pub open spec fn offset(self) -> nat {
        match self.front {
            Front::Held(header) => (self.position - shortest_head(header)) as nat,
            _ => self.position,
        }
    }

    /// Whether [`Input::offset`] is the same on every machine. How many bytes
    /// the shortest form takes of a float that is not a number is not.
    pub open spec fn offset_is_certain(self) -> bool {
        match self.front {
            Front::Held(Header::Float(bits)) => !is_nan(bits),
            _ => true,
        }
    }

    /// The next header that is no tag, the offset where it starts, and the input
    /// after it.
    pub open spec fn untagged(self) -> (Result<Header, Fault>, nat, Input)
        decreases self.pending(),
    {
        let (pulled, after) = self.pull();
        match pulled {
            Ok(Header::Tag(_)) => after.untagged(),
            _ => (pulled, self.offset(), after),
        }
    }

    /// The very bits of the next header that is no tag, if that is a double that
    /// stands in eight bytes. One that was pushed back is put together anew, and
    /// its bits may change if it is not a number.
    pub open spec fn double_bits(self) -> Option<u64>
        decreases self.pending(),
    {
        let (pulled, after) = self.pull();
        match pulled {
            Ok(Header::Tag(_)) => after.double_bits(),
            _ => if self.front is Held {
                None
            } else {
                double_bits(self.unread)
            },
        }
    }

    /// The next `len` bytes.
    pub open spec fn read(self, len: nat) -> (Result<Seq<u8>, Fault>, Input) {
        if len <= self.unread.len() {
            (Ok(self.unread.take(len as int)), self.advanced(len, Front::Empty))
        } else {
            (Err(Fault::Io), Input { front: Front::Empty, ..self })
        }
    }

    /// The contents of the string whose header, with length `len`, was just
    /// pulled, read `room` bytes at a time.
    pub open spec fn body(self, kind: Kind, len: Option<usize>, room: nat) -> Body {
        match len {
            Some(len) => segment(kind, self.unread, self.pushed().offset(), len as nat, room),
            None => segments(kind, self.unread, self.position, 1, room),
        }
    }

    /// Whether that string gets through a buffer of `room` bytes.
    pub open spec fn gets_through(self, kind: Kind, len: Option<usize>, room: nat) -> bool {
        match len {
            Some(len) => gets_through(kind, self.unread, len as nat, room),
            None => is_roomy(kind, room) || all_get_through(kind, self.unread, 1, room),
        }
    }

    /// The input after that string.
    pub open spec fn after_body(self, kind: Kind, len: Option<usize>, room: nat) -> Input {
        self.advanced(self.body(kind, len, room).taken, Front::Empty)
    }
}

impl<'a> Decoder<'a> {
    pub open spec fn view(&self) -> Input {
        Input { unread: unread(*self), front: front(*self), position: position(*self) }
    }

    /// `ciborium_ll::Decoder::from`: the decoder starts at the first byte.
    #[verifier::external_body]
    pub(crate) fn new(input: &'a [u8]) -> (decoder: Decoder<'a>)
        ensures
            unread(decoder) == input@,
            front(decoder) == Front::Empty,
            position(decoder) == 0,
    {
        Decoder { input, inner: ciborium_ll::Decoder::from(input), last: None }
    }

    /// `ciborium_ll::Decoder::from`, with the slice that this decoder started with:
    /// what this one has not read is what the new one has after as many bytes.
    #[verifier::external_body]
    pub(crate) fn anew(&self) -> (decoder: Decoder<'a>)
        ensures
            front(decoder) == Front::Empty,
            position(decoder) == 0,
            position(*self) <= unread(decoder).len(),
            unread(decoder).skip(position(*self) as int) == unread(*self),
    {
        Decoder { input: self.input, inner: ciborium_ll::Decoder::from(self.input), last: None }
    }

    /// `ciborium_ll::Decoder::pull`: takes the next header, or the one that was
    /// pushed back. A malformed head is reported by the offset where it starts.
    /// What a float of half or single precision is widened to has a name; one of
    /// double precision keeps its bits.
    #[verifier::external_body]
    pub(crate) fn pull(&mut self) -> (result: Result<Header, Error>)
        ensures
            (header_or_fault(result), final(self)@) == old(self)@.pull(),
            front(*old(self)) !is Held ==> (result matches Ok(header) ==> is_exact(
                header,
                double_bits(unread(*old(self))),
            )),
            result matches Ok(Header::Float(bits)) ==> (front(*old(self)) !is Held && head(
                unread(*old(self)),
            ).width < 9 ==> canonical(bits) == widened(
                unread(*old(self)).subrange(1, head(unread(*old(self))).width as int),
            )),
    {
        let pulled = self.inner.pull().map_err(|fault| match fault { Flaw::Io(_) => Error::Io, Flaw::Syntax(x) => Error::Syntax(x) })?;
        self.last = Some(pulled);
        Ok(match pulled {
            Item::Positive(x) => Header::Positive(x),
            Item::Negative(x) => Header::Negative(x),
            Item::Float(x) => Header::Float(x.to_bits()),
            Item::Simple(x) => Header::Simple(x),
            Item::Tag(x) => Header::Tag(x),
            Item::Break => Header::Break,
            Item::Bytes(x) => Header::Bytes(x),
            Item::Text(x) => Header::Text(x),
            Item::Array(x) => Header::Array(x),
            Item::Map(x) => Header::Mapping(x)
        })
    }

    /// `ciborium_ll::Decoder::push`, with the header that was pulled last: it
    /// is the next to be pulled.
    #[verifier::external_body]
    pub(crate) fn push(&mut self)
        requires
            front(*old(self)) is Pulled,
        ensures
            final(self)@ == old(self)@.pushed(),
    {
        if let Some(header) = self.last {
            self.inner.push(header)
        }
    }

    /// `ciborium_ll::Decoder::offset`: the offset of the next header. One that
    /// was pushed back counts by the shortest form that it has; for a float
    /// this has a name. Of a float that is not a number only the three possible
    /// lengths are stated.
    #[verifier::external_body]
    pub(crate) fn offset(&mut self) -> (offset: usize)
        ensures
            final(self)@ == old(self)@,
            front(*old(self)) !is Held ==> offset == position(*old(self)),
            front(*old(self)) matches Front::Held(header) ==> (old(self)@.offset_is_certain()
                ==> offset + shortest_head(header) == position(*old(self))),
            front(*old(self)) matches Front::Held(Header::Float(bits)) ==> (!is_nan(bits) ==> offset
                + shortest_float(bits) == position(*old(self))),
            front(*old(self)) matches Front::Held(Header::Float(bits)) ==> position(*old(self))
                - offset == 3 || position(*old(self)) - offset == 5 || position(*old(self)) - offset
                == 9,
    {
        self.inner.offset()
    }

    /// `ciborium_io::Read::read_exact` of `ciborium_ll::Decoder`: fills `data`
    /// with the next bytes, or takes none if there are not enough.
    #[verifier::external_body]
    pub(crate) fn read_exact(&mut self, data: &mut [u8]) -> (result: Result<(), Error>)
        requires
            front(*old(self)) !is Held,
        ensures
            final(data)@.len() == old(data)@.len(),
            final(self)@ == old(self)@.read(old(data)@.len()).1,
            match old(self)@.read(old(data)@.len()).0 {
                Ok(bytes) => result is Ok && final(data)@ == bytes,
                Err(fault) => result matches Err(error) && error@ == fault,
            },
    {
        ciborium_io::Read::read_exact(&mut self.inner, data).map_err(|_| Error::Io)
    }

    /// `ciborium_ll::Decoder::bytes`, and its `Segments` and their `Segment`s
    /// pulled to the end with `buffer`: the chunks in order, and what ended them
    /// early. The types in between have no name outside their crate, so they
    /// cannot be kept from one call to the next.
    ///
    /// With an empty buffer, `Segment::pull` never gets past a byte.
    #[verifier::external_body]
    pub(crate) fn bytes(&mut self, len: Option<usize>, buffer: &mut [u8]) -> (result: (
        Vec<Vec<u8>>,
        Result<(), Error>,
    ))
        requires
            front(*old(self)) == Front::Pulled(Header::Bytes(len)),
            old(self)@.gets_through(Kind::Bytes, len, old(buffer)@.len()),
        ensures
            final(buffer)@.len() == old(buffer)@.len(),
            final(self)@ == old(self)@.after_body(Kind::Bytes, len, old(buffer)@.len()),
            ({
                let body = old(self)@.body(Kind::Bytes, len, old(buffer)@.len());
                &&& joined(result.0@) == body.content
                &&& outcome(result.1) == ended(body)
            }),
    {
        let mut chunks = Vec::new();
        let mut segments = self.inner.bytes(len);
        let mut pull = || -> Result<(), Flaw<ciborium_io::EndOfFile>> {
            while let Some(mut segment) = segments.pull()? {
                while let Some(chunk) = segment.pull(buffer)? {
                    chunks.push(chunk.to_vec());
                }
            }
            Ok(())
        };
        let end = pull().map_err(|fault| match fault { Flaw::Io(_) => Error::Io, Flaw::Syntax(x) => Error::Syntax(x) });
        (chunks, end)
    }

    /// `ciborium_ll::Decoder::text`, and its `Segments` and their `Segment`s
    /// pulled to the end with `buffer`: the chunks in order, if nothing ended
    /// them early. A text that is both cut short and malformed has the fault that
    /// is found first in the chunks, as [`broken_text`] says.
    ///
    /// Where a buffer has no room for a character, `Segment::pull` never gets
    /// past it.
    #[verifier::external_body]
    pub(crate) fn text(&mut self, len: Option<usize>, buffer: &mut [u8]) -> (result: Result<
        Vec<String>,
        Error,
    >)
        requires
            front(*old(self)) == Front::Pulled(Header::Text(len)),
            old(self)@.gets_through(Kind::Text, len, old(buffer)@.len()),
        ensures
            final(buffer)@.len() == old(buffer)@.len(),
            final(self)@ == old(self)@.after_body(Kind::Text, len, old(buffer)@.len()),
            ({
                let body = old(self)@.body(Kind::Text, len, old(buffer)@.len());
                match body.fault {
                    None => result matches Ok(chunks) && joined_text(chunks@) == decode_utf8(
                        body.content,
                    ),
                    Some(fault) => result matches Err(error) && error@ == fault,
                }
            }),
    {
        let mut chunks = Vec::new();
        let mut segments = self.inner.text(len);
        let mut pull = || -> Result<(), Flaw<ciborium_io::EndOfFile>> {
            while let Some(mut segment) = segments.pull()? {
                while let Some(chunk) = segment.pull(buffer)? {
                    chunks.push(chunk.to_string());
                }
            }
            Ok(())
        };
        pull().map_err(|fault| match fault { Flaw::Io(_) => Error::Io, Flaw::Syntax(x) => Error::Syntax(x) })?;
        Ok(chunks)
    }

    /// Takes the next `count` bytes, which are there.
    pub(crate) fn take(&mut self, count: usize) -> (bytes: Vec<u8>)
        requires
            old(self)@.front !is Held,
            count <= old(self)@.unread.len(),
        ensures
            bytes@ == old(self)@.unread.take(count as int),
            final(self)@ == old(self)@.advanced(count as nat, Front::Empty),
    {
        let mut bytes: Vec<u8> = vec![0u8; count];
        let _ = self.read_exact(bytes.as_mut_slice());
        bytes
    }

    /// Takes the next header that is no tag, and the offset where it starts.
    pub(crate) fn untagged(&mut self) -> (result: Result<(Header, usize), Error>)
        ensures
            final(self)@ == old(self)@.untagged().2,
            match result {
                Ok((header, offset)) => {
                    &&& old(self)@.untagged().0 == Ok::<Header, Fault>(header@)
                    &&& old(self)@.offset_is_certain() ==> offset == old(self)@.untagged().1
                    &&& !old(self)@.offset_is_certain() ==> old(self)@.position - offset == 3
                        || old(self)@.position - offset == 5 || old(self)@.position - offset == 9
                    &&& final(self)@.front == Front::Pulled(header@)
                    &&& is_exact(header, old(self)@.double_bits())
                },
                Err(error) => {
                    &&& old(self)@.untagged().0 == Err::<Header, Fault>(error@)
                    &&& old(self)@.double_bits() is None
                },
            },
    {
        loop
            invariant
                self@.untagged() == old(self)@.untagged(),
                self@.double_bits() == old(self)@.double_bits(),
                old(self)@.offset_is_certain() ==> self@.offset_is_certain(),
                self@.offset_is_certain() || self@ == old(self)@,
            decreases self@.pending(),
        {
            let offset: usize = self.offset();
            match self.pull() {
                Ok(Header::Tag(_)) => {},
                Ok(header) => {
                    return Ok((header, offset));
                },
                Err(error) => {
                    return Err(error);
                },
            }
        }
    }
}

} // verus!
