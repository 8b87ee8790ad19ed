//! What every read makes of the input: the value and what is left.

use vstd::prelude::*;

use vstd::utf8::decode_utf8;

use crate::accept::{
    any_in, bignum_in, bool_in, byte_buf_in, bytes_in, char_in, char_len_in, enum_in, float_in,
    i128_in, i64_in, identifier_len_in, integer_in, is_null, map_in, seq_in, str_len_in, string_in,
    text_in, u128_in, u64_in, unit_in, AnyKind, EnumStart, IntegerPart, ShortStart, Start,
};
use crate::bignum::{integer_of_bytes, significant, IntegerView, MAX_LEN};
use crate::budget::entered;
use crate::decoder::{Front, Input};
use crate::error::Fault;
use crate::header::Header;
use crate::wire::Kind;

verus! {

/// What a deserializer holds: its input, the size of its scratch buffer, and
/// the number of levels that may still be opened.
pub struct State {
    pub input: Input,
    pub room: nat,
    pub budget: nat,
}

/// The elements of an array, or the pairs of a map: how many are still to come,
/// if that is known.
pub type Len = Option<usize>;

/// Bytes, or the elements of an array that has been opened.
pub enum Elements {
    Bytes(Seq<u8>),
    Array(Len),
}

/// An enum that has been opened.
pub enum EnumForm {
    /// The item's tag, if it has one; the item itself comes next.
    Tag(Option<u64>),
    /// The variant comes next; no elements are counted.
    Variant(Len),
}

/// A value of any kind, as it shows itself.
pub enum Shown {
    Bool(bool),
    U64(u64),
    I64(i64),
    I128(i128),
    U128(u128),
    Float(u64),
    Null,
    Str(Seq<char>),
    Text(Seq<char>),
    Bytes(Elements),
    ByteBuf(Elements),
    Sequence(Elements),
    Mapping(Len),
    /// The item under this tag comes next.
    Tag(u64),
    /// The tag of an integer that does not fit, and the bytes of its magnitude.
    Bignum(u64, Seq<u8>),
}

/// The name of the enum by which an item's tag is asked for.
pub open spec fn tag_name() -> Seq<char> {
    "@@TAG@@"@
}

/// The fault of an integer that takes more bytes than are worked out.
pub open spec fn bigint_too_large() -> Fault {
    Fault::Semantic(None, "bigint too large"@)
}

/// `result` with its value put through `make`.
pub open spec fn mapped<A, B>(result: Result<A, Fault>, make: spec_fn(A) -> B) -> Result<B, Fault> {
    match result {
        Ok(value) => Ok(make(value)),
        Err(fault) => Err(fault),
    }
}

/// The sign of an integer, and its magnitude unless that is in a byte string.
pub type Sign = (bool, Option<u64>);

/// What `part` of an integer comes to, with `skipped` for a tag that makes no
/// difference.
pub open spec fn sign_of(
    part: Result<IntegerPart, Fault>,
    after: Input,
    skipped: (Result<Sign, Fault>, Input),
) -> (Result<Sign, Fault>, Input) {
    match part {
        Ok(IntegerPart::Small(negative, raw)) => (Ok((negative, Some(raw))), after),
        Ok(IntegerPart::Big(negative)) => (Ok((negative, None)), after),
        Ok(IntegerPart::Skip) => skipped,
        Err(fault) => (Err(fault), after),
    }
}

impl Input {
    /// How the next integer starts, and the input after that.
    pub open spec fn sign(self) -> (Result<Sign, Fault>, Input)
        decreases self.pending(),
    {
        let (pulled, after) = self.pull();
        match pulled {
            Ok(header) => sign_of(
                integer_in(header),
                after,
                if header is Tag {
                    after.sign()
                } else {
                    (Err(Fault::Io), after)
                },
            ),
            Err(fault) => (Err(fault), after),
        }
    }

    /// This input without what follows the next `count` bytes.
    pub open spec fn cut(self, count: nat) -> Input {
        Input { unread: self.unread.take(count as int), ..self }
    }

    /// Whether more bytes come of the byte string whose header, with length `len`,
    /// was just pulled than are worked out of an integer.
    pub open spec fn overflows(self, len: Option<usize>) -> bool {
        significant(self.body(Kind::Bytes, len, MAX_LEN as nat).content).len() > MAX_LEN
    }

    /// How many of the next bytes it takes, but at least `count`, until they do.
    pub open spec fn overflow_at(self, len: Option<usize>, count: nat) -> nat
        decreases self.unread.len() - count,
    {
        if count >= self.unread.len() || self.cut(count).overflows(len) {
            count
        } else {
            self.overflow_at(len, count + 1)
        }
    }
}

impl State {
    /// This state with another input.
    pub open spec fn with(self, input: Input) -> State {
        State { input, ..self }
    }

    /// This state with other bytes to come.
    pub open spec fn with_unread(self, unread: Seq<u8>) -> State {
        self.with(self.input.with_unread(unread))
    }

    /// This state without what follows the next `count` bytes.
    pub open spec fn cut(self, count: nat) -> State {
        self.with(self.input.cut(count))
    }

    /// This state with a scratch buffer of another size.
    pub open spec fn with_room(self, room: nat) -> State {
        State { room, ..self }
    }

    /// This state with another number of levels left.
    pub open spec fn with_budget(self, budget: nat) -> State {
        State { budget, ..self }
    }

    /// One more level opened, for `value`.
    pub open spec fn opening<T>(self, value: T) -> (Result<T, Fault>, State) {
        match entered(self.budget) {
            Ok(budget) => (Ok(value), self.with_budget(budget)),
            Err(fault) => (Err(fault), self),
        }
    }

    /// The innermost level closed.
    pub open spec fn closing(self) -> State {
        self.with_budget(self.budget + 1)
    }

    /// The contents of the string of bytes whose header was just pulled.
    pub open spec fn byte_string(self, len: Option<usize>) -> (Result<Seq<u8>, Fault>, State) {
        let body = self.input.body(Kind::Bytes, len, self.room);
        (
            match body.fault {
                None => Ok(body.content),
                Some(fault) => Err(fault),
            },
            self.with(self.input.after_body(Kind::Bytes, len, self.room)),
        )
    }

    /// Bytes, or an array opened.
    pub open spec fn elements(self, start: Start) -> (Result<Elements, Fault>, State) {
        match start {
            Start::Bytes(len) => {
                let (bytes, after) = self.byte_string(len);
                (mapped(bytes, |bytes| Elements::Bytes(bytes)), after)
            },
            Start::Array(len) => self.opening(Elements::Array(len)),
        }
    }

    /// The next `len` bytes as the text under a header that starts at `offset`.
    pub open spec fn short_text(self, len: nat, offset: nat) -> (Result<Seq<char>, Fault>, State) {
        let (read, after) = self.input.read(len);
        (
            match read {
                Ok(bytes) => text_in(bytes, offset),
                Err(fault) => Err(fault),
            },
            self.with(after),
        )
    }

    /// The integer with this sign in the byte string that comes next. The bytes
    /// are read a whole magnitude at a time, and one too many is an error unless
    /// they are kept, whatever else is wrong further on: nothing is read behind it.
    pub open spec fn bignum(self, negative: bool, keep: bool) -> (Result<IntegerView, Fault>, State) {
        let (pulled, after) = self.input.pull();
        match pulled {
            Ok(header) => match bignum_in(header) {
                Ok(len) => {
                    let body = after.body(Kind::Bytes, len, MAX_LEN as nat);
                    if !keep && after.overflows(len) {
                        (
                            Err(bigint_too_large()),
                            self.with(after.advanced(after.overflow_at(len, 0), Front::Empty)),
                        )
                    } else {
                        (
                            match body.fault {
                                Some(fault) => Err(fault),
                                None => Ok(integer_of_bytes(negative, body.content)),
                            },
                            self.with(after.after_body(Kind::Bytes, len, MAX_LEN as nat)),
                        )
                    }
                },
                Err(fault) => (Err(fault), self.with(after)),
            },
            Err(fault) => (Err(fault), self.with(after)),
        }
    }

    /// An integer, from the header `first` on if there is one.
    pub open spec fn integer(self, first: Option<Header>, keep: bool) -> (
        Result<IntegerView, Fault>,
        State,
    ) {
        let (sign, after) = match first {
            Some(header) => sign_of(integer_in(header), self.input, self.input.sign()),
            None => self.input.sign(),
        };
        match sign {
            Ok((negative, Some(raw))) => (
                Ok(IntegerView { negative, raw: raw as u128, overflow: seq![] }),
                self.with(after),
            ),
            Ok((negative, None)) => self.with(after).bignum(negative, keep),
            Err(fault) => (Err(fault), self.with(after)),
        }
    }

    /// An integer put through `accept`.
    pub open spec fn number<T>(self, accept: spec_fn(bool, u128) -> Result<T, Fault>) -> (
        Result<T, Fault>,
        State,
    ) {
        let (integer, after) = self.integer(None, false);
        (
            match integer {
                Ok(integer) => accept(integer.negative, integer.raw),
                Err(fault) => Err(fault),
            },
            after,
        )
    }

    /// A signed integer of at most 64 bits.
    pub open spec fn i64(self) -> (Result<i64, Fault>, State) {
        self.number(|negative, raw| i64_in(negative, raw))
    }

    /// A signed integer of 128 bits.
    pub open spec fn i128(self) -> (Result<i128, Fault>, State) {
        self.number(|negative, raw| i128_in(negative, raw))
    }

    /// An unsigned integer of at most 64 bits.
    pub open spec fn u64(self) -> (Result<u64, Fault>, State) {
        self.number(|negative, raw| u64_in(negative, raw))
    }

    /// An unsigned integer of 128 bits.
    pub open spec fn u128(self) -> (Result<u128, Fault>, State) {
        self.number(|negative, raw| u128_in(negative, raw))
    }

    /// The next header that is no tag, put through `accept` with its offset.
    pub open spec fn leaf<T>(self, accept: spec_fn(Header, nat) -> Result<T, Fault>) -> (
        Result<T, Fault>,
        State,
    ) {
        let (found, offset, after) = self.input.untagged();
        (
            match found {
                Ok(header) => accept(header, offset),
                Err(fault) => Err(fault),
            },
            self.with(after),
        )
    }

    /// A boolean.
    pub open spec fn bool(self) -> (Result<bool, Fault>, State) {
        self.leaf(|header, offset| bool_in(header, offset))
    }

    /// The bits of a floating point number.
    pub open spec fn float(self) -> (Result<u64, Fault>, State) {
        self.leaf(|header, offset| float_in(header))
    }

    /// The unit value.
    pub open spec fn unit(self) -> (Result<(), Fault>, State) {
        self.leaf(|header, offset| unit_in(header))
    }

    /// A character.
    pub open spec fn char(self) -> (Result<char, Fault>, State) {
        let (found, offset, after) = self.input.untagged();
        match found {
            Ok(header) => match char_len_in(header) {
                Ok(len) => {
                    let (text, after) = self.with(after).short_text(len as nat, offset);
                    (
                        match text {
                            Ok(text) => char_in(header, text),
                            Err(fault) => Err(fault),
                        },
                        after,
                    )
                },
                Err(fault) => (Err(fault), self.with(after)),
            },
            Err(fault) => (Err(fault), self.with(after)),
        }
    }

    /// A text whose length `accept` takes from its header.
    pub open spec fn short(self, accept: spec_fn(Header) -> Result<usize, Fault>) -> (
        Result<Seq<char>, Fault>,
        State,
    ) {
        let (found, offset, after) = self.input.untagged();
        match found {
            Ok(header) => match accept(header) {
                Ok(len) => self.with(after).short_text(len as nat, offset),
                Err(fault) => (Err(fault), self.with(after)),
            },
            Err(fault) => (Err(fault), self.with(after)),
        }
    }

    /// A text that fits the scratch buffer.
    pub open spec fn str(self) -> (Result<Seq<char>, Fault>, State) {
        self.short(|header| str_len_in(header, self.room))
    }

    /// An identifier that fits the scratch buffer.
    pub open spec fn identifier(self) -> (Result<Seq<char>, Fault>, State) {
        self.short(|header| identifier_len_in(header, self.room))
    }

    /// A text of any size.
    pub open spec fn string(self) -> (Result<Seq<char>, Fault>, State) {
        let (found, offset, after) = self.input.untagged();
        match found {
            Ok(header) => match string_in(header) {
                Ok(len) => {
                    let body = after.body(Kind::Text, len, self.room);
                    (
                        match body.fault {
                            None => Ok(decode_utf8(body.content)),
                            Some(fault) => Err(fault),
                        },
                        self.with(after.after_body(Kind::Text, len, self.room)),
                    )
                },
                Err(fault) => (Err(fault), self.with(after)),
            },
            Err(fault) => (Err(fault), self.with(after)),
        }
    }

    /// Bytes or an array, as `accept` takes it from the header.
    pub open spec fn list(self, accept: spec_fn(Header) -> Result<Start, Fault>) -> (
        Result<Elements, Fault>,
        State,
    ) {
        let (found, offset, after) = self.input.untagged();
        match found {
            Ok(header) => match accept(header) {
                Ok(start) => self.with(after).elements(start),
                Err(fault) => (Err(fault), self.with(after)),
            },
            Err(fault) => (Err(fault), self.with(after)),
        }
    }

    /// Bytes that fit the scratch buffer, or an array.
    pub open spec fn bytes(self) -> (Result<Elements, Fault>, State) {
        let (found, offset, after) = self.input.untagged();
        match found {
            Ok(header) => match bytes_in(header, self.room) {
                Ok(ShortStart::Bytes(len)) => {
                    let (read, after) = after.read(len as nat);
                    (mapped(read, |bytes| Elements::Bytes(bytes)), self.with(after))
                },
                Ok(ShortStart::Array(len)) => self.with(after).opening(Elements::Array(len)),
                Err(fault) => (Err(fault), self.with(after)),
            },
            Err(fault) => (Err(fault), self.with(after)),
        }
    }

    /// Bytes of any number, or an array.
    pub open spec fn byte_buf(self) -> (Result<Elements, Fault>, State) {
        self.list(|header| byte_buf_in(header))
    }

    /// An array, or bytes as its elements.
    pub open spec fn seq(self) -> (Result<Elements, Fault>, State) {
        self.list(|header| seq_in(header))
    }

    /// A map.
    pub open spec fn map(self) -> (Result<Len, Fault>, State) {
        let (found, offset, after) = self.input.untagged();
        match found {
            Ok(header) => match map_in(header) {
                Ok(len) => self.with(after).opening(len),
                Err(fault) => (Err(fault), self.with(after)),
            },
            Err(fault) => (Err(fault), self.with(after)),
        }
    }

    /// Whether the byte string that comes next, if one does, gets through the
    /// scratch buffer.
    pub open spec fn passes_bytes(self) -> bool {
        match self.input.untagged() {
            (Ok(Header::Bytes(len)), _, after) => after.gets_through(Kind::Bytes, len, self.room),
            _ => true,
        }
    }

    /// Whether the text that comes next, if one does, gets through the scratch
    /// buffer.
    pub open spec fn passes_text(self) -> bool {
        match self.input.untagged() {
            (Ok(Header::Text(len)), _, after) => after.gets_through(Kind::Text, len, self.room),
            _ => true,
        }
    }

    /// Whether the string that comes next, if one does, fits the scratch buffer or
    /// gets through it.
    pub open spec fn passes(self) -> bool {
        match self.input.pull() {
            (Ok(Header::Bytes(len)), after) => len is Some && len->Some_0 <= self.room
                || after.gets_through(Kind::Bytes, len, self.room),
            (Ok(Header::Text(len)), after) => len is Some && len->Some_0 <= self.room
                || after.gets_through(Kind::Text, len, self.room),
            _ => true,
        }
    }

    /// Whether a value is present: if so, it comes next.
    pub open spec fn option(self) -> (Result<bool, Fault>, State) {
        let (pulled, after) = self.input.pull();
        match pulled {
            Ok(header) => if is_null(header) {
                (Ok(false), self.with(after))
            } else {
                (Ok(true), self.with(after.pushed()))
            },
            Err(fault) => (Err(fault), self.with(after)),
        }
    }

    /// An enum of this name.
    pub open spec fn enumeration(self, name: Seq<char>) -> (Result<EnumForm, Fault>, State) {
        if name == tag_name() {
            let (pulled, after) = self.input.pull();
            match pulled {
                Ok(Header::Tag(tag)) => self.with(after).opening(EnumForm::Tag(Some(tag))),
                Ok(_) => self.with(after.pushed()).opening(EnumForm::Tag(None)),
                Err(fault) => (Err(fault), self.with(after)),
            }
        } else {
            let (found, offset, after) = self.input.untagged();
            match found {
                Ok(header) => match enum_in(header) {
                    Ok(EnumStart::Mapping) => self.with(after).opening(EnumForm::Variant(Some(0))),
                    Ok(EnumStart::Variant) => self.with(after.pushed()).opening(
                        EnumForm::Variant(Some(0)),
                    ),
                    Err(fault) => (Err(fault), self.with(after)),
                },
                Err(fault) => (Err(fault), self.with(after)),
            }
        }
    }

    /// A value of any kind: the header is looked at and put back, and the value
    /// is read as the kind that shows itself.
    pub open spec fn any(self) -> (Result<Shown, Fault>, State) {
        let (pulled, after) = self.input.pull();
        match pulled {
            Ok(header) => {
                let state = self.with(after.pushed());
                match any_in(header, self.room) {
                    Ok(kind) => state.shown(kind),
                    Err(fault) => (Err(fault), state),
                }
            },
            Err(fault) => (Err(fault), self.with(after)),
        }
    }

    /// A value of this kind.
    pub open spec fn shown(self, kind: AnyKind) -> (Result<Shown, Fault>, State) {
        match kind {
            AnyKind::U64 => (mapped(self.u64().0, |x| Shown::U64(x)), self.u64().1),
            AnyKind::I64 => (mapped(self.i64().0, |x| Shown::I64(x)), self.i64().1),
            AnyKind::I128 => (mapped(self.i128().0, |x| Shown::I128(x)), self.i128().1),
            AnyKind::Float => (mapped(self.float().0, |x| Shown::Float(x)), self.float().1),
            AnyKind::Bool => (mapped(self.bool().0, |x| Shown::Bool(x)), self.bool().1),
            AnyKind::Null => (mapped(self.option().0, |x| Shown::Null), self.option().1),
            AnyKind::Bytes => (mapped(self.bytes().0, |x| Shown::Bytes(x)), self.bytes().1),
            AnyKind::ByteBuf => (
                mapped(self.byte_buf().0, |x| Shown::ByteBuf(x)),
                self.byte_buf().1,
            ),
            AnyKind::Str => (mapped(self.str().0, |x| Shown::Str(x)), self.str().1),
            AnyKind::Text => (mapped(self.string().0, |x| Shown::Text(x)), self.string().1),
            AnyKind::Sequence => (mapped(self.seq().0, |x| Shown::Sequence(x)), self.seq().1),
            AnyKind::Mapping => (mapped(self.map().0, |x| Shown::Mapping(x)), self.map().1),
            AnyKind::Bignum(tag) => {
                let (integer, after) = self.with(self.input.pull().1).integer(
                    Some(Header::Tag(tag)),
                    true,
                );
                (
                    match integer {
                        Ok(integer) => big_shown(tag, integer),
                        Err(fault) => Err(fault),
                    },
                    after,
                )
            },
            AnyKind::Tag(tag) => self.with(self.input.pull().1).opening(Shown::Tag(tag)),
        }
    }
}

/// Whether another element comes of an array or a map with `len` still to come,
/// and what is left of both: an element that comes is the next item.
pub open spec fn next(len: Len, state: State) -> (Result<Option<()>, Fault>, Len, State) {
    match len {
        Some(0) => (Ok(None), len, state),
        Some(len) => (Ok(Some(())), Some((len - 1) as usize), state),
        None => {
            let (pulled, after) = state.input.pull();
            match pulled {
                Ok(Header::Break) => (Ok(None), len, state.with(after)),
                Ok(_) => (Ok(Some(())), len, state.with(after.pushed())),
                Err(fault) => (Err(fault), len, state.with(after)),
            }
        },
    }
}

/// How an integer in a byte string with this tag shows itself.
pub open spec fn big_shown(tag: u64, integer: IntegerView) -> Result<Shown, Fault> {
    if integer.negative {
        mapped(i128_in(true, integer.raw), |x| Shown::I128(x))
    } else if integer.overflow.len() > 0 {
        Ok(Shown::Bignum(tag, integer.overflow))
    } else {
        Ok(Shown::U128(integer.raw))
    }
}

} // verus!
