//! The elements of arrays and maps, one at a time.

use vstd::prelude::*;

use crate::de::Deserializer;
use crate::error::{outcome, Error, Fault};
use crate::state::{next, Len};

verus! {

/// The elements that are still to come of an array or a map that was opened.
#[derive(Debug)]
pub struct Access {
    remaining: Option<usize>,
}

/// Whether another element comes.
#[derive(Debug, Clone, Copy, PartialEq, Eq)]
pub enum Next {
    /// None does.
    End,
    /// One does.
    Item,
    /// One does unless the next header is a break.
    Look,
}

impl Access {
    /// How many elements are still to come, if that is known.
    pub closed spec fn len(&self) -> Len {
        self.remaining
    }

    /// The elements under a header with this length.
    pub fn with_len(len: Option<usize>) -> (access: Access)
        ensures
            access.len() == len,
    {
        Access { remaining: len }
    }

    /// Opens a level of `de` for the elements under a header with this length.
    pub fn new(de: &mut Deserializer<'_, '_>, len: Option<usize>) -> (result: Result<Access, Error>)
        ensures
            final(de)@ == old(de)@.opening(len).1,
            match result {
                Ok(access) => old(de)@.opening(len).0 == Ok::<Len, Fault>(access.len()),
                Err(error) => old(de)@.opening(len).0 == Err::<Len, Fault>(error@),
            },
    {
        match de.enter() {
            Ok(()) => Ok(Access::with_len(len)),
            Err(error) => Err(error),
        }
    }

    /// Closes the level that [`Access::new`] opened.
    pub fn close(self, de: &mut Deserializer<'_, '_>)
        requires
            old(de)@.budget < usize::MAX,
        ensures
            final(de)@ == old(de)@.closing(),
    {
        de.leave();
    }

    /// Counts off the next element.
    pub fn advance(&mut self) -> (next: Next)
        ensures
            match old(self).len() {
                Some(0) => next == Next::End && final(self).len() == old(self).len(),
                Some(len) => next == Next::Item && final(self).len() == Some((len - 1) as usize),
                None => next == Next::Look && final(self).len() == old(self).len(),
            },
    {
        match self.remaining {
            Some(0) => Next::End,
            Some(len) => {
                self.remaining = Some(len - 1);
                Next::Item
            },
            None => Next::Look,
        }
    }

    /// Whether another key comes: if so, it is the next item of `de`.
    pub fn next_key_seed_impl(&mut self, de: &mut Deserializer<'_, '_>) -> (result: Result<
        Option<()>,
        Error,
    >)
        ensures
            (outcome(result), final(self).len(), final(de)@) == next(old(self).len(), old(de)@),
    {
        match self.advance() {
            Next::End => Ok(None),
            Next::Item => Ok(Some(())),
            Next::Look => de.look_past_break(),
        }
    }

    /// Whether another key comes: if so, it is the next item of `de`.
    pub fn next_key_seed(&mut self, de: &mut Deserializer<'_, '_>) -> (result: Result<
        Option<()>,
        Error,
    >)
        ensures
            (outcome(result), final(self).len(), final(de)@) == next(old(self).len(), old(de)@),
    {
        self.next_key_seed_impl(de)
    }

    /// Whether another element comes: if so, it is the next item of `de`.
    pub fn next_element_seed(&mut self, de: &mut Deserializer<'_, '_>) -> (result: Result<
        Option<()>,
        Error,
    >)
        ensures
            (outcome(result), final(self).len(), final(de)@) == next(old(self).len(), old(de)@),
    {
        self.next_key_seed_impl(de)
    }

    /// How many elements are still to come, if that is known.
    pub fn size_hint(&self) -> (hint: Option<usize>)
        ensures
            hint == self.len(),
    {
        self.remaining
    }
}

/// The bytes that are still to come of a byte string that was read.
pub struct BytesAccess {
    index: usize,
    bytes: Vec<u8>,
}

impl View for BytesAccess {
    type V = Seq<u8>;

    closed spec fn view(&self) -> Seq<u8> {
        self.bytes@.skip(self.index as int)
    }
}

impl BytesAccess {
    #[verifier::type_invariant]
    closed spec fn wf(&self) -> bool {
        self.index <= self.bytes@.len()
    }

    /// All of the bytes.
    pub fn new(bytes: Vec<u8>) -> (access: BytesAccess)
        ensures
            access@ == bytes@,
    {
        let access = BytesAccess { index: 0, bytes };
        assert(access@ =~= bytes@);
        access
    }

    /// The next byte, if there is one.
    pub fn next_element_seed(&mut self) -> (byte: Option<u8>)
        ensures
            old(self)@.len() == 0 ==> byte is None && final(self)@ == old(self)@,
            old(self)@.len() > 0 ==> byte == Some(old(self)@[0]) && final(self)@
                == old(self)@.drop_first(),
    {
        proof {
            use_type_invariant(&*self);
        }
        if self.index < self.bytes.len() {
            let byte: u8 = self.bytes[self.index];
            self.index = self.index + 1;
            assert(self@ =~= old(self)@.drop_first());
            Some(byte)
        } else {
            None
        }
    }

    /// How many bytes are still to come.
    pub fn size_hint(&self) -> (hint: Option<usize>)
        ensures
            hint matches Some(len) && len == self@.len(),
    {
        proof {
            use_type_invariant(self);
        }
        Some(self.bytes.len() - self.index)
    }
}

} // verus!
