//! The deserializer.

use vstd::prelude::*;

use vstd::string::StringExecFns;

use crate::accept::{
    accept_any, accept_bignum, accept_bool, accept_byte_buf, accept_bytes, accept_char,
    accept_char_len, accept_enum, accept_float, accept_i128, accept_i64, accept_identifier_len,
    accept_integer, accept_map, accept_null, accept_seq, accept_str_len, accept_string, accept_text,
    accept_u128, accept_u64, accept_unit, any_in, float_or_fault, text_or_fault, AnyKind, EnumStart,
    IntegerPart, ShortStart, Start,
};
use crate::access::{Access, BytesAccess};
use crate::bignum::{lemma_significant_twice, Bignum, Integer, IntegerView};
use crate::budget::Budget;
use crate::decoder::{joined, joined_text, Decoder, Front, Input};
pub use crate::error::Error;
use crate::error::{outcome, Fault};
use crate::header::{canonical, Header};
use crate::laws::{lemma_body, lemma_pull};
use crate::overflow::give_up;
use crate::state::{big_shown, next, Elements, EnumForm, Len, Shown, State};
use crate::wire::Kind;

verus! {

/// A deserializer of CBOR.
pub struct Deserializer<'a, 'b> {
    decoder: Decoder<'a>,
    scratch: &'b mut [u8],
    budget: Budget,
}

impl<'a, 'b> Deserializer<'a, 'b> {
    pub closed spec fn view(&self) -> State {
        State {
            input: self.decoder@,
            room: self.scratch@.len(),
            budget: self.budget.left(),
        }
    }

    /// Opens a level, which [`Deserializer::leave`] closes.
    pub fn enter(&mut self) -> (result: Result<(), Error>)
        ensures
            (outcome(result), final(self)@) == old(self)@.opening(()),
    {
        self.budget.enter()
    }

    /// Closes a level that was opened.
    pub fn leave(&mut self)
        requires
            old(self)@.budget < usize::MAX,
        ensures
            final(self)@ == old(self)@.closing(),
    {
        self.budget.leave();
    }

    /// Takes a break that comes next, or leaves another item to come next.
    pub(crate) fn look_past_break(&mut self) -> (result: Result<Option<()>, Error>)
        ensures
            (outcome(result), None::<usize>, final(self)@) == next(None, old(self)@),
    {
        match self.decoder.pull() {
            Ok(Header::Break) => Ok(None),
            Ok(_) => {
                self.decoder.push();
                Ok(Some(()))
            },
            Err(error) => Err(error),
        }
    }

    /// Deserializes a boolean.
    pub fn deserialize_bool(&mut self) -> (result: Result<bool, Error>)
        ensures
            final(self)@ == old(self)@.bool().1,
            old(self)@.input.offset_is_certain() ==> outcome(result) == old(self)@.bool().0,
            !old(self)@.input.offset_is_certain() ==> (result matches Err(Error::Semantic(
                Some(offset),
                message,
            )) && message@ == "expected bool"@ && (old(self)@.input.position - offset == 3
                || old(self)@.input.position - offset == 5 || old(self)@.input.position - offset
                == 9)),
    {
        match self.decoder.untagged() {
            Ok((header, offset)) => accept_bool(header, offset),
            Err(error) => Err(error),
        }
    }

    /// Reads an integer, from the header that has been pulled already if there
    /// is one. With `should_append`, one that does not fit is no error, but comes
    /// with the bytes of its magnitude.
    pub fn integer(&mut self, header: Option<Header>, should_append: bool) -> (result: Result<
        Integer,
        Error,
    >)
        requires
            header is Some ==> old(self)@.input.front !is Held,
        ensures
            (integer_or_fault(result), final(self)@) == old(self)@.integer(
                seen(header),
                should_append,
            ),
    {
        let sign = match header {
            Some(header) => match accept_integer(header) {
                Ok(IntegerPart::Small(negative, raw)) => Ok((negative, Some(raw))),
                Ok(IntegerPart::Big(negative)) => Ok((negative, None)),
                Ok(IntegerPart::Skip) => self.sign(),
                Err(error) => Err(error),
            },
            None => self.sign(),
        };
        match sign {
            Ok((negative, Some(raw))) => {
                let integer = Integer { negative, raw: raw as u128, overflow: Vec::new() };
                assert(integer@.overflow =~= seq![]);
                Ok(integer)
            },
            Ok((negative, None)) => self.bignum(negative, should_append),
            Err(error) => Err(error),
        }
    }

    /// Reads how an integer starts: its sign, and its magnitude unless that is
    /// in the byte string that follows.
    fn sign(&mut self) -> (result: Result<(bool, Option<u64>), Error>)
        ensures
            outcome(result) == old(self)@.input.sign().0,
            final(self)@ == old(self)@.with(old(self)@.input.sign().1),
            result is Ok ==> final(self)@.input.front is Pulled,
    {
        loop
            invariant
                self@.input.sign() == old(self)@.input.sign(),
                self@ == old(self)@.with(self@.input),
            decreases self@.input.pending(),
        {
            match self.decoder.pull() {
                Ok(header) => match accept_integer(header) {
                    Ok(IntegerPart::Small(negative, raw)) => {
                        return Ok((negative, Some(raw)));
                    },
                    Ok(IntegerPart::Big(negative)) => {
                        return Ok((negative, None));
                    },
                    Ok(IntegerPart::Skip) => {},
                    Err(error) => {
                        return Err(error);
                    },
                },
                Err(error) => {
                    return Err(error);
                },
            }
        }
    }

    /// Deserializes a signed integer of 64 bits.
    pub fn deserialize_i64(&mut self) -> (result: Result<i64, Error>)
        ensures
            (outcome(result), final(self)@) == old(self)@.i64(),
    {
        match self.integer(None, false) {
            Ok(integer) => accept_i64(integer.negative, integer.raw),
            Err(error) => Err(error),
        }
    }

    /// Deserializes a signed integer of 128 bits.
    pub fn deserialize_i128(&mut self) -> (result: Result<i128, Error>)
        ensures
            (outcome(result), final(self)@) == old(self)@.i128(),
    {
        match self.integer(None, false) {
            Ok(integer) => accept_i128(integer.negative, integer.raw),
            Err(error) => Err(error),
        }
    }

    /// Deserializes an unsigned integer of 64 bits.
    pub fn deserialize_u64(&mut self) -> (result: Result<u64, Error>)
        ensures
            (outcome(result), final(self)@) == old(self)@.u64(),
    {
        match self.integer(None, false) {
            Ok(integer) => accept_u64(integer.negative, integer.raw),
            Err(error) => Err(error),
        }
    }

    /// Deserializes an unsigned integer of 128 bits.
    pub fn deserialize_u128(&mut self) -> (result: Result<u128, Error>)
        ensures
            (outcome(result), final(self)@) == old(self)@.u128(),
    {
        match self.integer(None, false) {
            Ok(integer) => accept_u128(integer.negative, integer.raw),
            Err(error) => Err(error),
        }
    }

    /// Deserializes a signed integer of 64 bits, for whoever cuts it down to 8.
    pub fn deserialize_i8(&mut self) -> (result: Result<i64, Error>)
        ensures
            (outcome(result), final(self)@) == old(self)@.i64(),
    {
        self.deserialize_i64()
    }

    /// Deserializes a signed integer of 64 bits, for whoever cuts it down to 16.
    pub fn deserialize_i16(&mut self) -> (result: Result<i64, Error>)
        ensures
            (outcome(result), final(self)@) == old(self)@.i64(),
    {
        self.deserialize_i64()
    }

    /// Deserializes a signed integer of 64 bits, for whoever cuts it down to 32.
    pub fn deserialize_i32(&mut self) -> (result: Result<i64, Error>)
        ensures
            (outcome(result), final(self)@) == old(self)@.i64(),
    {
        self.deserialize_i64()
    }

    /// Deserializes an unsigned integer of 64 bits, for whoever cuts it down to 8.
    pub fn deserialize_u8(&mut self) -> (result: Result<u64, Error>)
        ensures
            (outcome(result), final(self)@) == old(self)@.u64(),
    {
        self.deserialize_u64()
    }

    /// Deserializes an unsigned integer of 64 bits, for whoever cuts it down to 16.
    pub fn deserialize_u16(&mut self) -> (result: Result<u64, Error>)
        ensures
            (outcome(result), final(self)@) == old(self)@.u64(),
    {
        self.deserialize_u64()
    }

    /// Deserializes an unsigned integer of 64 bits, for whoever cuts it down to 32.
    pub fn deserialize_u32(&mut self) -> (result: Result<u64, Error>)
        ensures
            (outcome(result), final(self)@) == old(self)@.u64(),
    {
        self.deserialize_u64()
    }

    /// Deserializes a floating point number: the bits of its double precision
    /// form.
    pub fn deserialize_f64(&mut self) -> (result: Result<u64, Error>)
        ensures
            (float_or_fault(result), final(self)@) == old(self)@.float(),
            old(self)@.input.double_bits() matches Some(bits) ==> result == Ok::<u64, Error>(bits),
    {
        match self.decoder.untagged() {
            Ok((header, _)) => accept_float(header),
            Err(error) => Err(error),
        }
    }

    /// Deserializes a floating point number of single precision: the bits of its
    /// double precision form.
    pub fn deserialize_f32(&mut self) -> (result: Result<u64, Error>)
        ensures
            (float_or_fault(result), final(self)@) == old(self)@.float(),
            old(self)@.input.double_bits() matches Some(bits) ==> result == Ok::<u64, Error>(bits),
    {
        self.deserialize_f64()
    }

    /// Deserializes a character.
    pub fn deserialize_char(&mut self) -> (result: Result<char, Error>)
        ensures
            (outcome(result), final(self)@) == old(self)@.char(),
    {
        let (header, offset) = match self.decoder.untagged() {
            Ok(found) => found,
            Err(error) => {
                return Err(error);
            },
        };
        let len: usize = match accept_char_len(header) {
            Ok(len) => len,
            Err(error) => {
                return Err(error);
            },
        };
        let mut buffer = [0u8; 4];
        let whole: &mut [u8] = &mut buffer;
        let (data, _) = whole.split_at_mut(len);
        if let Err(error) = self.decoder.read_exact(data) {
            return Err(error);
        }
        match accept_text(data, offset) {
            Ok(text) => accept_char(header, text),
            Err(error) => Err(error),
        }
    }

    /// Reads the text of `len` bytes under a header that starts at `offset`.
    fn short_text(&mut self, len: usize, offset: usize) -> (result: Result<&str, Error>)
        requires
            len <= old(self)@.room,
            old(self)@.input.front !is Held,
        ensures
            (text_or_fault(result), final(self)@) == old(self)@.short_text(
                len as nat,
                offset as nat,
            ),
    {
        let (data, _) = self.scratch.split_at_mut(len);
        if let Err(error) = self.decoder.read_exact(data) {
            return Err(error);
        }
        accept_text(data, offset)
    }

    /// Deserializes a text that fits the scratch buffer.
    pub fn deserialize_str(&mut self) -> (result: Result<&str, Error>)
        ensures
            (text_or_fault(result), final(self)@) == old(self)@.str(),
    {
        let (header, offset) = match self.decoder.untagged() {
            Ok(found) => found,
            Err(error) => {
                return Err(error);
            },
        };
        match accept_str_len(header, self.scratch.len()) {
            Ok(len) => self.short_text(len, offset),
            Err(error) => Err(error),
        }
    }

    /// Deserializes an identifier that fits the scratch buffer: a text, or bytes
    /// that encode one.
    pub fn deserialize_identifier(&mut self) -> (result: Result<&str, Error>)
        ensures
            (text_or_fault(result), final(self)@) == old(self)@.identifier(),
    {
        let (header, offset) = match self.decoder.untagged() {
            Ok(found) => found,
            Err(error) => {
                return Err(error);
            },
        };
        match accept_identifier_len(header, self.scratch.len()) {
            Ok(len) => self.short_text(len, offset),
            Err(error) => Err(error),
        }
    }

    /// Deserializes a text of any size.
    pub fn deserialize_string(&mut self) -> (result: Result<String, Error>)
        requires
            old(self)@.passes_text(),
        ensures
            (string_or_fault(result), final(self)@) == old(self)@.string(),
    {
        let header = match self.decoder.untagged() {
            Ok((header, _)) => header,
            Err(error) => {
                return Err(error);
            },
        };
        let len = match accept_string(header) {
            Ok(len) => len,
            Err(error) => {
                return Err(error);
            },
        };
        let chunks = match self.decoder.text(len, self.scratch) {
            Ok(chunks) => chunks,
            Err(error) => {
                return Err(error);
            },
        };
        let mut buffer = String::new();
        let mut index: usize = 0;
        while index < chunks.len()
            invariant
                index <= chunks@.len(),
                buffer@ == joined_text(chunks@.take(index as int)),
            decreases chunks@.len() - index,
        {
            assert(chunks@.take(index + 1).drop_last() =~= chunks@.take(index as int));
            buffer.append(chunks[index].as_str());
            index = index + 1;
        }
        assert(chunks@.take(index as int) =~= chunks@);
        Ok(buffer)
    }

    /// Reads the byte string whose header was just pulled.
    fn byte_string(&mut self, len: Option<usize>) -> (result: Result<Vec<u8>, Error>)
        requires
            old(self)@.input.front == Front::Pulled(Header::Bytes(len)),
            old(self)@.input.gets_through(Kind::Bytes, len, old(self)@.room),
        ensures
            (buffer_or_fault(result), final(self)@) == old(self)@.byte_string(len),
    {
        let (chunks, end) = self.decoder.bytes(len, self.scratch);
        let mut buffer: Vec<u8> = Vec::with_capacity(safe_size_hint(len));
        let mut index: usize = 0;
        while index < chunks.len()
            invariant
                index <= chunks@.len(),
                buffer@ == joined(chunks@.take(index as int)),
            decreases chunks@.len() - index,
        {
            assert(chunks@.take(index + 1).drop_last() =~= chunks@.take(index as int));
            buffer.extend_from_slice(chunks[index].as_slice());
            index = index + 1;
        }
        assert(chunks@.take(index as int) =~= chunks@);
        match end {
            Ok(()) => Ok(buffer),
            Err(error) => Err(error),
        }
    }

    /// Deserializes bytes that fit the scratch buffer, or opens an array.
    pub fn deserialize_bytes(&mut self) -> (result: Result<BytesVisit<'_>, Error>)
        ensures
            (bytes_or_fault(result), final(self)@) == old(self)@.bytes(),
    {
        let header = match self.decoder.untagged() {
            Ok((header, _)) => header,
            Err(error) => {
                return Err(error);
            },
        };
        match accept_bytes(header, self.scratch.len()) {
            Ok(ShortStart::Bytes(len)) => {
                let (data, _) = self.scratch.split_at_mut(len);
                match self.decoder.read_exact(data) {
                    Ok(()) => Ok(BytesVisit::Bytes(data)),
                    Err(error) => Err(error),
                }
            },
            Ok(ShortStart::Array(len)) => match Access::new(self, len) {
                Ok(access) => Ok(BytesVisit::Access(access)),
                Err(error) => Err(error),
            },
            Err(error) => Err(error),
        }
    }

    /// Deserializes bytes of any number, or opens an array.
    pub fn deserialize_byte_buf(&mut self) -> (result: Result<ByteBufVisit, Error>)
        requires
            old(self)@.passes_bytes(),
        ensures
            (byte_buf_or_fault(result), final(self)@) == old(self)@.byte_buf(),
    {
        let header = match self.decoder.untagged() {
            Ok((header, _)) => header,
            Err(error) => {
                return Err(error);
            },
        };
        match accept_byte_buf(header) {
            Ok(Start::Bytes(len)) => match self.byte_string(len) {
                Ok(buffer) => Ok(ByteBufVisit::ByteBuf(buffer)),
                Err(error) => Err(error),
            },
            Ok(Start::Array(len)) => match Access::new(self, len) {
                Ok(access) => Ok(ByteBufVisit::Access(access)),
                Err(error) => Err(error),
            },
            Err(error) => Err(error),
        }
    }

    /// Opens an array, or deserializes bytes as its elements.
    pub fn deserialize_seq(&mut self) -> (result: Result<SeqVisitAction, Error>)
        requires
            old(self)@.passes_bytes(),
        ensures
            (seq_or_fault(result), final(self)@) == old(self)@.seq(),
    {
        let header = match self.decoder.untagged() {
            Ok((header, _)) => header,
            Err(error) => {
                return Err(error);
            },
        };
        match accept_seq(header) {
            Ok(Start::Array(len)) => match Access::new(self, len) {
                Ok(access) => Ok(SeqVisitAction::Access(access)),
                Err(error) => Err(error),
            },
            Ok(Start::Bytes(len)) => match self.byte_string(len) {
                Ok(buffer) => Ok(SeqVisitAction::BytesAccess(BytesAccess::new(buffer))),
                Err(error) => Err(error),
            },
            Err(error) => Err(error),
        }
    }

    /// Opens a tuple: an array of any length.
    pub fn deserialize_tuple(&mut self, _len: usize) -> (result: Result<SeqVisitAction, Error>)
        requires
            old(self)@.passes_bytes(),
        ensures
            (seq_or_fault(result), final(self)@) == old(self)@.seq(),
    {
        self.deserialize_seq()
    }

    /// Opens a tuple struct: an array of any length.
    pub fn deserialize_tuple_struct(&mut self, _name: &str, _len: usize) -> (result: Result<
        SeqVisitAction,
        Error,
    >)
        requires
            old(self)@.passes_bytes(),
        ensures
            (seq_or_fault(result), final(self)@) == old(self)@.seq(),
    {
        self.deserialize_seq()
    }

    /// Opens a map.
    pub fn deserialize_map(&mut self) -> (result: Result<Access, Error>)
        ensures
            (access_or_fault(result), final(self)@) == old(self)@.map(),
    {
        let header = match self.decoder.untagged() {
            Ok((header, _)) => header,
            Err(error) => {
                return Err(error);
            },
        };
        match accept_map(header) {
            Ok(len) => Access::new(self, len),
            Err(error) => Err(error),
        }
    }

    /// Opens a struct: a map.
    pub fn deserialize_struct(&mut self, _name: &str, _fields: &[&str]) -> (result: Result<
        Access,
        Error,
    >)
        ensures
            (access_or_fault(result), final(self)@) == old(self)@.map(),
    {
        self.deserialize_map()
    }

    /// Whether a value is present: if so, it is the next item.
    pub fn deserialize_option(&mut self) -> (result: Result<bool, Error>)
        ensures
            (outcome(result), final(self)@) == old(self)@.option(),
    {
        match self.decoder.pull() {
            Ok(header) => if accept_null(header) {
                Ok(false)
            } else {
                self.decoder.push();
                Ok(true)
            },
            Err(error) => Err(error),
        }
    }

    /// Deserializes the unit value.
    pub fn deserialize_unit(&mut self) -> (result: Result<(), Error>)
        ensures
            (outcome(result), final(self)@) == old(self)@.unit(),
    {
        match self.decoder.untagged() {
            Ok((header, _)) => accept_unit(header),
            Err(error) => Err(error),
        }
    }

    /// Deserializes a unit struct: the unit value.
    pub fn deserialize_unit_struct(&mut self, _name: &str) -> (result: Result<(), Error>)
        ensures
            (outcome(result), final(self)@) == old(self)@.unit(),
    {
        self.deserialize_unit()
    }

    /// Opens an enum. One by the name `@@TAG@@` is the tag of the next item, if
    /// it has one; any other starts with its variant.
    pub fn deserialize_enum(&mut self, name: &str) -> (result: Result<EnumVisitAction, Error>)
        ensures
            (enum_or_fault(result), final(self)@) == old(self)@.enumeration(name@),
    {
        if name.to_owned() == "@@TAG@@".to_owned() {
            let tag = match self.decoder.pull() {
                Ok(Header::Tag(tag)) => Some(tag),
                Ok(_) => {
                    self.decoder.push();
                    None
                },
                Err(error) => {
                    return Err(error);
                },
            };
            return match self.enter() {
                Ok(()) => Ok(EnumVisitAction::TagAccess(tag)),
                Err(error) => Err(error),
            };
        }
        let header = match self.decoder.untagged() {
            Ok((header, _)) => header,
            Err(error) => {
                return Err(error);
            },
        };
        match accept_enum(header) {
            Ok(EnumStart::Mapping) => {},
            Ok(EnumStart::Variant) => self.decoder.push(),
            Err(error) => {
                return Err(error);
            },
        }
        match Access::new(self, Some(0)) {
            Ok(access) => Ok(EnumVisitAction::Access(access)),
            Err(error) => Err(error),
        }
    }

    /// Whether values have a form for people to read: they do not.
    pub fn is_human_readable(&self) -> (readable: bool)
        ensures
            !readable,
    {
        false
    }

    /// Deserializes a value of any kind, as it shows itself.
    ///
    /// After [`Visit::Tag`] one level is open, which [`Deserializer::leave`]
    /// closes once the item under the tag has been read.
    pub fn deserialize_any(&mut self) -> (result: Result<Visit<'_>, Error>)
        requires
            old(self)@.passes(),
        ensures
            (visit_or_fault(result), final(self)@) == old(self)@.any(),
    {
        let header = match self.decoder.pull() {
            Ok(header) => header,
            Err(error) => {
                return Err(error);
            },
        };
        self.decoder.push();
        match accept_any(header, self.scratch.len()) {
            Ok(kind) => self.show(kind),
            Err(error) => Err(error),
        }
    }

    /// Reads the value of this kind whose header was just pushed back.
    fn show(&mut self, kind: AnyKind) -> (result: Result<Visit<'_>, Error>)
        requires
            old(self)@.passes(),
            old(self)@.input.front is Held,
            any_in(old(self)@.input.front->Held_0, old(self)@.room) == Ok::<AnyKind, Fault>(kind),
        ensures
            visit_or_fault(result) == old(self)@.shown(kind).0,
            final(self)@ == old(self)@.shown(kind).1,
    {
        match kind {
            AnyKind::U64 => match self.deserialize_u64() {
                Ok(value) => Ok(Visit::U64(value)),
                Err(error) => Err(error),
            },
            AnyKind::I64 => match self.deserialize_i64() {
                Ok(value) => Ok(Visit::I64(value)),
                Err(error) => Err(error),
            },
            AnyKind::I128 => match self.deserialize_i128() {
                Ok(value) => Ok(Visit::I128(value)),
                Err(error) => Err(error),
            },
            AnyKind::Float => match self.deserialize_f64() {
                Ok(bits) => Ok(Visit::Float(bits)),
                Err(error) => Err(error),
            },
            AnyKind::Bool => match self.deserialize_bool() {
                Ok(value) => Ok(Visit::Bool(value)),
                Err(error) => Err(error),
            },
            AnyKind::Null => match self.deserialize_option() {
                Ok(_) => Ok(Visit::Null),
                Err(error) => Err(error),
            },
            AnyKind::Bytes => match self.deserialize_bytes() {
                Ok(bytes) => Ok(Visit::Bytes(bytes)),
                Err(error) => Err(error),
            },
            AnyKind::ByteBuf => match self.deserialize_byte_buf() {
                Ok(bytes) => Ok(Visit::ByteBuf(bytes)),
                Err(error) => Err(error),
            },
            AnyKind::Str => match self.deserialize_str() {
                Ok(text) => Ok(Visit::Str(text)),
                Err(error) => Err(error),
            },
            AnyKind::Text => match self.deserialize_string() {
                Ok(text) => Ok(Visit::Text(text)),
                Err(error) => Err(error),
            },
            AnyKind::Sequence => match self.deserialize_seq() {
                Ok(elements) => Ok(Visit::Sequence(elements)),
                Err(error) => Err(error),
            },
            AnyKind::Mapping => match self.deserialize_map() {
                Ok(access) => Ok(Visit::Mapping(access)),
                Err(error) => Err(error),
            },
            AnyKind::Bignum(tag) => {
                if let Err(error) = self.decoder.pull() {
                    return Err(error);
                }
                match self.integer(Some(Header::Tag(tag)), true) {
                    Ok(integer) => show_bignum(tag, integer),
                    Err(error) => Err(error),
                }
            },
            AnyKind::Tag(tag) => {
                if let Err(error) = self.decoder.pull() {
                    return Err(error);
                }
                match self.enter() {
                    Ok(()) => Ok(Visit::Tag(tag)),
                    Err(error) => Err(error),
                }
            },
        }
    }

    /// Deserializes a value that nobody looks at: a value of any kind.
    pub fn deserialize_ignored_any(&mut self) -> (result: Result<Visit<'_>, Error>)
        requires
            old(self)@.passes(),
        ensures
            (visit_or_fault(result), final(self)@) == old(self)@.any(),
    {
        self.deserialize_any()
    }

    /// Reads the byte string that holds an integer of this sign.
    fn bignum(&mut self, negative: bool, keep: bool) -> (result: Result<Integer, Error>)
        requires
            old(self)@.input.front !is Held,
        ensures
            (integer_or_fault(result), final(self)@) == old(self)@.bignum(negative, keep),
    {
        let start: usize = self.decoder.offset();
        let copy = self.decoder.anew();
        let back = self.decoder.anew();
        let ghost before = self@.input;
        let pulled = match self.decoder.pull() {
            Ok(header) => header,
            Err(error) => {
                return Err(error);
            },
        };
        let len = match accept_bignum(pulled) {
            Ok(len) => len,
            Err(error) => {
                return Err(error);
            },
        };
        let body: usize = self.decoder.offset();
        let mut buffer = [0u8; 16];
        let (chunks, end) = self.decoder.bytes(len, &mut buffer);
        proof {
            lemma_pull(before);
            lemma_body(before.pull().1, Kind::Bytes, len, 16);
            lemma_significant_twice(joined(chunks@));
        }
        let magnitude = match Bignum::collect(&chunks, keep) {
            Ok(magnitude) => magnitude,
            Err(error) => {
                let stop: usize = self.decoder.offset();
                self.decoder = give_up(copy, back, start, body, stop, len);
                return Err(error);
            },
        };
        match end {
            Ok(()) => Ok(magnitude.finish(negative)),
            Err(error) => Err(error),
        }
    }
}

/// An integer or an error, both taken by their views.
pub open spec fn integer_or_fault(result: Result<Integer, Error>) -> Result<IntegerView, Fault> {
    match result {
        Ok(integer) => Ok(integer@),
        Err(error) => Err(error@),
    }
}

/// A header, if there is one, taken by its view.
pub open spec fn seen(header: Option<Header>) -> Option<Header> {
    match header {
        Some(header) => Some(header@),
        None => None,
    }
}

/// The size of the scratch buffer where none is given.
pub const SCRATCH_LEN: usize = 4096;

/// The recursion limit where none is given.
pub const RECURSION_LIMIT: usize = 256;

/// What a new deserializer holds.
pub open spec fn fresh(bytes: Seq<u8>, room: nat, limit: nat) -> State {
    State { input: Input::of(bytes), room, budget: limit }
}

/// Deserializes as CBOR from bytes, using a 4KB buffer on the stack.
///
/// If you want to deserialize faster at the cost of more memory, consider using
/// [`from_reader_with_buffer`] with a larger buffer, for example 64KB.
pub fn from_reader<T, F>(reader: &[u8], deserialize: F) -> (result: Result<T, Error>) where
    F: for <'x, 'y, 'z>FnOnce(&'x mut Deserializer<'y, 'z>) -> Result<T, Error>,

    requires
        forall|de: &mut Deserializer<'_, '_>|
            de@ == fresh(reader@, SCRATCH_LEN as nat, RECURSION_LIMIT as nat) ==> call_requires(
                deserialize,
                (de,),
            ),
    ensures
        exists|de: &mut Deserializer<'_, '_>|
            {
                &&& de@ == fresh(reader@, SCRATCH_LEN as nat, RECURSION_LIMIT as nat)
                &&& call_ensures(deserialize, (de,), result)
            },
{
    let mut scratch = [0u8; 4096];
    from_reader_with_buffer(reader, &mut scratch, deserialize)
}

/// Deserializes as CBOR from bytes, using a caller-specific buffer as a
/// temporary scratch space.
pub fn from_reader_with_buffer<T, F>(
    reader: &[u8],
    scratch_buffer: &mut [u8],
    deserialize: F,
) -> (result: Result<T, Error>) where
    F: for <'x, 'y, 'z>FnOnce(&'x mut Deserializer<'y, 'z>) -> Result<T, Error>,

    requires
        forall|de: &mut Deserializer<'_, '_>|
            de@ == fresh(reader@, old(scratch_buffer)@.len(), RECURSION_LIMIT as nat)
                ==> call_requires(deserialize, (de,)),
    ensures
        exists|de: &mut Deserializer<'_, '_>|
            {
                &&& de@ == fresh(reader@, old(scratch_buffer)@.len(), RECURSION_LIMIT as nat)
                &&& call_ensures(deserialize, (de,), result)
            },
{
    let mut de = deserializer_from_reader_with_buffer(reader, scratch_buffer);
    let reference = &mut de;
    assert(reference@ == fresh(reader@, old(scratch_buffer)@.len(), RECURSION_LIMIT as nat));
    deserialize(reference)
}

/// Deserializes as CBOR from bytes, with a specified maximum recursion limit.
/// Inputs that are nested beyond the specified limit will result in
/// [`Error::RecursionLimitExceeded`].
///
/// Set a high recursion limit at your own risk (of stack exhaustion)!
pub fn from_reader_with_recursion_limit<T, F>(
    reader: &[u8],
    recurse_limit: usize,
    deserialize: F,
) -> (result: Result<T, Error>) where
    F: for <'x, 'y, 'z>FnOnce(&'x mut Deserializer<'y, 'z>) -> Result<T, Error>,

    requires
        forall|de: &mut Deserializer<'_, '_>|
            de@ == fresh(reader@, SCRATCH_LEN as nat, recurse_limit as nat) ==> call_requires(
                deserialize,
                (de,),
            ),
    ensures
        exists|de: &mut Deserializer<'_, '_>|
            {
                &&& de@ == fresh(reader@, SCRATCH_LEN as nat, recurse_limit as nat)
                &&& call_ensures(deserialize, (de,), result)
            },
{
    let mut scratch = [0u8; 4096];
    let mut de = deserializer_from_reader_with_buffer_and_recursion_limit(
        reader,
        &mut scratch,
        recurse_limit,
    );
    let reference = &mut de;
    assert(reference@ == fresh(reader@, SCRATCH_LEN as nat, recurse_limit as nat));
    deserialize(reference)
}

/// Returns a deserializer with a specified scratch buffer.
pub fn deserializer_from_reader_with_buffer<'a, 'b>(
    reader: &'a [u8],
    scratch_buffer: &'b mut [u8],
) -> (de: Deserializer<'a, 'b>)
    ensures
        de@ == fresh(reader@, old(scratch_buffer)@.len(), RECURSION_LIMIT as nat),
{
    deserializer_from_reader_with_buffer_and_recursion_limit(
        reader,
        scratch_buffer,
        RECURSION_LIMIT,
    )
}

/// Returns a deserializer with a specified scratch buffer and maximum recursion
/// limit. Inputs that are nested beyond the specified limit will result in
/// [`Error::RecursionLimitExceeded`].
///
/// Set a high recursion limit at your own risk (of stack exhaustion)!
pub fn deserializer_from_reader_with_buffer_and_recursion_limit<'a, 'b>(
    reader: &'a [u8],
    scratch_buffer: &'b mut [u8],
    recurse_limit: usize,
) -> (de: Deserializer<'a, 'b>)
    ensures
        de@ == fresh(reader@, old(scratch_buffer)@.len(), recurse_limit as nat),
{
    Deserializer {
        decoder: Decoder::new(reader),
        scratch: scratch_buffer,
        budget: Budget::new(recurse_limit),
    }
}

/// Bytes that fit the scratch buffer, or an array that was opened.
pub enum BytesVisit<'x> {
    Bytes(&'x [u8]),
    Access(Access),
}

/// Bytes of any number, or an array that was opened.
pub enum ByteBufVisit {
    ByteBuf(Vec<u8>),
    Access(Access),
}

/// An array that was opened, or bytes as its elements.
pub enum SeqVisitAction {
    Access(Access),
    BytesAccess(BytesAccess),
}

/// An enum that was opened.
pub enum EnumVisitAction {
    /// The tag of the next item, if it has one.
    TagAccess(Option<u64>),
    /// The variant, which comes next, and its contents.
    Access(Access),
}

/// A value of any kind, as it shows itself.
pub enum Visit<'x> {
    Bool(bool),
    U64(u64),
    I64(i64),
    I128(i128),
    U128(u128),
    /// A floating point number, by the bits of its double precision form.
    Float(u64),
    Null,
    /// A text that fits the scratch buffer.
    Str(&'x str),
    /// Another text.
    Text(String),
    /// Bytes that fit the scratch buffer.
    Bytes(BytesVisit<'x>),
    /// Other bytes.
    ByteBuf(ByteBufVisit),
    Sequence(SeqVisitAction),
    Mapping(Access),
    /// A tag; the item under it comes next.
    Tag(u64),
    /// The tag of an integer that does not fit, and the bytes of its magnitude.
    Bignum(u64, Vec<u8>),
}

/// How an integer in a byte string with this tag shows itself.
pub fn show_bignum<'x>(tag: u64, integer: Integer) -> (result: Result<Visit<'x>, Error>)
    ensures
        visit_or_fault(result) == big_shown(tag, integer@),
{
    if integer.negative {
        match accept_i128(true, integer.raw) {
            Ok(value) => Ok(Visit::I128(value)),
            Err(error) => Err(error),
        }
    } else if integer.overflow.len() > 0 {
        Ok(Visit::Bignum(tag, integer.overflow))
    } else {
        Ok(Visit::U128(integer.raw))
    }
}

/// A value of any kind or an error, both taken by their views.
pub open spec fn visit_or_fault(result: Result<Visit<'_>, Error>) -> Result<Shown, Fault> {
    match result {
        Ok(visit) => Ok(
            match visit {
                Visit::Bool(value) => Shown::Bool(value),
                Visit::U64(value) => Shown::U64(value),
                Visit::I64(value) => Shown::I64(value),
                Visit::I128(value) => Shown::I128(value),
                Visit::U128(value) => Shown::U128(value),
                Visit::Float(bits) => Shown::Float(canonical(bits)),
                Visit::Null => Shown::Null,
                Visit::Str(text) => Shown::Str(text@),
                Visit::Text(text) => Shown::Text(text@),
                Visit::Bytes(bytes) => Shown::Bytes(bytes_or_fault(Ok(bytes))->Ok_0),
                Visit::ByteBuf(bytes) => Shown::ByteBuf(byte_buf_or_fault(Ok(bytes))->Ok_0),
                Visit::Sequence(elements) => Shown::Sequence(seq_or_fault(Ok(elements))->Ok_0),
                Visit::Mapping(access) => Shown::Mapping(access.len()),
                Visit::Tag(tag) => Shown::Tag(tag),
                Visit::Bignum(tag, bytes) => Shown::Bignum(tag, bytes@),
            },
        ),
        Err(error) => Err(error@),
    }
}

/// A text or an error, both taken by their views.
pub open spec fn string_or_fault(result: Result<String, Error>) -> Result<Seq<char>, Fault> {
    match result {
        Ok(text) => Ok(text@),
        Err(error) => Err(error@),
    }
}

/// Bytes or an error, both taken by their views.
pub open spec fn buffer_or_fault(result: Result<Vec<u8>, Error>) -> Result<Seq<u8>, Fault> {
    match result {
        Ok(bytes) => Ok(bytes@),
        Err(error) => Err(error@),
    }
}

/// Bytes, an array or an error, all taken by their views.
pub open spec fn bytes_or_fault(result: Result<BytesVisit<'_>, Error>) -> Result<Elements, Fault> {
    match result {
        Ok(BytesVisit::Bytes(bytes)) => Ok(Elements::Bytes(bytes@)),
        Ok(BytesVisit::Access(access)) => Ok(Elements::Array(access.len())),
        Err(error) => Err(error@),
    }
}

/// Bytes, an array or an error, all taken by their views.
pub open spec fn byte_buf_or_fault(result: Result<ByteBufVisit, Error>) -> Result<Elements, Fault> {
    match result {
        Ok(ByteBufVisit::ByteBuf(bytes)) => Ok(Elements::Bytes(bytes@)),
        Ok(ByteBufVisit::Access(access)) => Ok(Elements::Array(access.len())),
        Err(error) => Err(error@),
    }
}

/// Bytes, an array or an error, all taken by their views.
pub open spec fn seq_or_fault(result: Result<SeqVisitAction, Error>) -> Result<Elements, Fault> {
    match result {
        Ok(SeqVisitAction::BytesAccess(bytes)) => Ok(Elements::Bytes(bytes@)),
        Ok(SeqVisitAction::Access(access)) => Ok(Elements::Array(access.len())),
        Err(error) => Err(error@),
    }
}

/// A map or an error, both taken by their views.
pub open spec fn access_or_fault(result: Result<Access, Error>) -> Result<Len, Fault> {
    match result {
        Ok(access) => Ok(access.len()),
        Err(error) => Err(error@),
    }
}

/// An enum or an error, both taken by their views. Where the variant comes next
/// there are no elements to count.
pub open spec fn enum_or_fault(result: Result<EnumVisitAction, Error>) -> Result<EnumForm, Fault> {
    match result {
        Ok(EnumVisitAction::TagAccess(tag)) => Ok(EnumForm::Tag(tag)),
        Ok(EnumVisitAction::Access(access)) => Ok(EnumForm::Variant(access.len())),
        Err(error) => Err(error@),
    }
}

/// How much to allocate for a string of this length before it is read.
pub open spec fn hinted(len: Option<usize>) -> usize {
    match len {
        Some(len) => if len <= 1024 {
            len
        } else {
            1024
        },
        None => 0,
    }
}

/// How much to allocate for a string of this length before it is read: no more
/// than a kilobyte, whatever length the input claims.
pub fn safe_size_hint(len: Option<usize>) -> (hint: usize)
    ensures
        hint == hinted(len),
{
    match len {
        Some(len) => if len <= 1024 {
            len
        } else {
            1024
        },
        None => 0,
    }
}

} // verus!
