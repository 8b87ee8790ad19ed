//! Integers that are written as the bytes of their magnitude.

use vstd::prelude::*;

use vstd::arithmetic::power::{lemma_pow_adds, lemma_pow_increases, pow};

use crate::decoder::joined;
use crate::error::{outcome, Error, Fault};
use crate::wire::big_endian;

verus! {

/// How many bytes the largest magnitude takes that is worked out.
pub const MAX_LEN: usize = 16;

/// The bytes from the first one on that is not zero.
pub open spec fn significant(bytes: Seq<u8>) -> Seq<u8>
    decreases bytes.len(),
{
    if bytes.len() > 0 && bytes[0] == 0 {
        significant(bytes.drop_first())
    } else {
        bytes
    }
}

/// The number with this sign and magnitude, which for a negative number is one
/// less than its distance from zero.
pub open spec fn number(negative: bool, raw: u128) -> int {
    if negative {
        -1 - raw
    } else {
        raw as int
    }
}

/// An integer as it is read: its sign, its magnitude as in [`number`], and the
/// bytes of the magnitude where that does not fit.
pub struct Integer {
    pub negative: bool,
    pub raw: u128,
    pub overflow: Vec<u8>,
}

/// The mathematical counterpart of [`Integer`].
pub struct IntegerView {
    pub negative: bool,
    pub raw: u128,
    pub overflow: Seq<u8>,
}

impl View for Integer {
    type V = IntegerView;

    open spec fn view(&self) -> IntegerView {
        IntegerView { negative: self.negative, raw: self.raw, overflow: self.overflow@ }
    }
}

/// The integer with this sign whose magnitude is written in `bytes`: if that
/// does not fit, the bytes themselves, which stand beside a zero.
pub open spec fn integer_of_bytes(negative: bool, bytes: Seq<u8>) -> IntegerView {
    let digits = significant(bytes);
    if digits.len() <= MAX_LEN {
        IntegerView { negative, raw: big_endian(digits) as u128, overflow: seq![] }
    } else {
        IntegerView { negative: false, raw: 0, overflow: digits }
    }
}

/// The magnitude of an integer as far as its bytes have come in.
pub struct Bignum {
    digits: Vec<u8>,
    keep: bool,
}

impl Bignum {
    /// The significant bytes so far.
    pub closed spec fn digits(&self) -> Seq<u8> {
        self.digits@
    }

    /// Whether more bytes are kept than fit a magnitude.
    pub closed spec fn keeps(&self) -> bool {
        self.keep
    }

    /// Whether the bytes so far stand for a magnitude.
    pub open spec fn wf(&self) -> bool {
        &&& self.digits().len() > 0 ==> self.digits()[0] != 0
        &&& self.digits().len() > MAX_LEN ==> self.keeps()
    }

    /// No bytes yet. With `keep`, a magnitude that does not fit is no error.
    pub fn new(keep: bool) -> (bignum: Bignum)
        ensures
            bignum.wf(),
            bignum.digits() == Seq::<u8>::empty(),
            bignum.keeps() == keep,
    {
        Bignum { digits: Vec::new(), keep }
    }

    /// Takes in the next byte.
    pub fn push(&mut self, byte: u8) -> (result: Result<(), Error>)
        requires
            old(self).wf(),
        ensures
            final(self).keeps() == old(self).keeps(),
            outcome(result) == (if significant(old(self).digits().push(byte)).len() <= MAX_LEN
                || old(self).keeps() {
                Ok(())
            } else {
                Err::<(), Fault>(Fault::Semantic(None, "bigint too large"@))
            }),
            result is Ok ==> final(self).wf() && final(self).digits() == significant(
                old(self).digits().push(byte),
            ),
    {
        proof {
            if old(self).digits().len() == 0 {
                lemma_significant_zero(old(self).digits().push(byte));
            }
        }
        if self.digits.len() == 0 && byte == 0 {
            return Ok(());
        }
        if self.digits.len() >= MAX_LEN && !self.keep {
            return Err(Error::custom("bigint too large"));
        }
        self.digits.push(byte);
        Ok(())
    }

    /// Takes in all bytes of all chunks.
    pub fn collect(chunks: &Vec<Vec<u8>>, keep: bool) -> (result: Result<Bignum, Error>)
        ensures
            result is Ok <==> keep || significant(joined(chunks@)).len() <= MAX_LEN,
            match result {
                Ok(bignum) => bignum.wf() && bignum.digits() == significant(joined(chunks@)),
                Err(error) => error@ == Fault::Semantic(None, "bigint too large"@),
            },
    {
        let mut bignum = Bignum::new(keep);
        let mut index: usize = 0;
        while index < chunks.len()
            invariant
                index <= chunks@.len(),
                bignum.wf(),
                bignum.keeps() == keep,
                bignum.digits() == significant(joined(chunks@.take(index as int))),
            decreases chunks@.len() - index,
        {
            let ghost before = joined(chunks@.take(index as int));
            let chunk = &chunks[index];
            proof {
                assert(chunks@.take(index + 1).drop_last() =~= chunks@.take(index as int));
                assert(joined(chunks@.take(index + 1)) == before + chunk@);
                lemma_joined_prefix(chunks@, index + 1);
                assert(before + chunk@.take(0) =~= before);
            }
            let mut at: usize = 0;
            while at < chunk.len()
                invariant
                    at <= chunk@.len(),
                    bignum.wf(),
                    bignum.keeps() == keep,
                    bignum.digits() == significant(before + chunk@.take(at as int)),
                    significant(before + chunk@).len() <= significant(joined(chunks@)).len(),
                decreases chunk@.len() - at,
            {
                proof {
                    let bytes = before + chunk@.take(at as int);
                    assert(before + chunk@.take(at + 1) =~= bytes.push(chunk@[at as int]));
                    lemma_significant_push(bytes, chunk@[at as int]);
                    assert(before + chunk@ =~= bytes.push(chunk@[at as int]) + chunk@.skip(at + 1));
                    lemma_significant_prefix(
                        bytes.push(chunk@[at as int]),
                        chunk@.skip(at + 1),
                    );
                }
                if let Err(error) = bignum.push(chunk[at]) {
                    return Err(error);
                }
                at = at + 1;
            }
            assert(chunk@.take(at as int) =~= chunk@);
            index = index + 1;
        }
        assert(chunks@.take(index as int) =~= chunks@);
        Ok(bignum)
    }

    /// The integer with this sign.
    pub fn finish(self, negative: bool) -> (integer: Integer)
        requires
            self.wf(),
        ensures
            integer@ == integer_of_bytes(negative, self.digits()),
    {
        if self.digits.len() > MAX_LEN {
            return Integer { negative: false, raw: 0, overflow: self.digits };
        }
        let mut raw: u128 = 0;
        let mut index: usize = 0;
        while index < self.digits.len()
            invariant
                index <= self.digits@.len() <= MAX_LEN,
                raw == big_endian(self.digits@.take(index as int)),
            decreases self.digits@.len() - index,
        {
            proof {
                let taken = self.digits@.take(index + 1);
                assert(taken.drop_last() =~= self.digits@.take(index as int));
                lemma_big_endian_fits(taken);
            }
            raw = raw * 256 + self.digits[index] as u128;
            index = index + 1;
        }
        assert(self.digits@.take(index as int) =~= self.digits@);
        let integer = Integer { negative, raw, overflow: Vec::new() };
        assert(integer@.overflow =~= seq![]);
        integer
    }
}

proof fn lemma_significant_zero(bytes: Seq<u8>)
    requires
        bytes.len() == 1,
    ensures
        significant(bytes) == if bytes[0] == 0 {
            seq![]
        } else {
            bytes
        },
{
    reveal_with_fuel(significant, 2);
    assert(bytes.drop_first() =~= seq![]);
}

/// Numbers of `n` bytes stay below `256` to the power of `n`.
pub proof fn lemma_big_endian_bound(bytes: Seq<u8>)
    ensures
        big_endian(bytes) < pow(256, bytes.len()),
    decreases bytes.len(),
{
    reveal(pow);
    if bytes.len() > 0 {
        lemma_big_endian_bound(bytes.drop_last());
        lemma_pow_adds(256, (bytes.len() - 1) as nat, 1);
        assert(pow(256, 1) == 256) by {
            reveal_with_fuel(pow, 2);
        }
    }
}

/// A magnitude of at most sixteen bytes fits.
pub proof fn lemma_big_endian_fits(bytes: Seq<u8>)
    requires
        bytes.len() <= MAX_LEN,
    ensures
        big_endian(bytes) <= u128::MAX,
{
    lemma_big_endian_bound(bytes);
    lemma_pow_increases(256, bytes.len(), 16);
    assert(pow(256, 16) == 0x1_0000_0000_0000_0000_0000_0000_0000_0000) by {
        reveal_with_fuel(pow, 17);
    }
}

/// Leading zeros do not change the number, and a byte more makes the same
/// difference before and after they are left out.
pub proof fn lemma_significant_push(bytes: Seq<u8>, byte: u8)
    ensures
        significant(bytes.push(byte)) == significant(significant(bytes).push(byte)),
    decreases bytes.len(),
{
    if bytes.len() > 0 && bytes[0] == 0 {
        assert(bytes.push(byte).drop_first() =~= bytes.drop_first().push(byte));
        lemma_significant_push(bytes.drop_first(), byte);
    }
}

/// What the first chunks hold is a prefix of what all of them hold, so no more
/// of it is significant.
proof fn lemma_joined_prefix(chunks: Seq<Vec<u8>>, count: int)
    requires
        0 <= count <= chunks.len(),
    ensures
        significant(joined(chunks.take(count))).len() <= significant(joined(chunks)).len(),
    decreases chunks.len(),
{
    if count < chunks.len() {
        assert(chunks.drop_last().take(count) =~= chunks.take(count));
        lemma_joined_prefix(chunks.drop_last(), count);
        lemma_significant_prefix(joined(chunks.drop_last()), chunks.last()@);
    } else {
        assert(chunks.take(count) =~= chunks);
    }
}

/// What is significant of the significant bytes is all of them.
pub proof fn lemma_significant_twice(bytes: Seq<u8>)
    ensures
        significant(significant(bytes)) == significant(bytes),
    decreases bytes.len(),
{
    if bytes.len() > 0 && bytes[0] == 0 {
        lemma_significant_twice(bytes.drop_first());
    }
}

/// More bytes never make fewer of them significant.
pub proof fn lemma_significant_prefix(bytes: Seq<u8>, more: Seq<u8>)
    ensures
        significant(bytes).len() <= significant(bytes + more).len(),
    decreases bytes.len(),
{
    if bytes.len() > 0 && bytes[0] == 0 {
        assert((bytes + more).drop_first() =~= bytes.drop_first() + more);
        lemma_significant_prefix(bytes.drop_first(), more);
    }
}

} // verus!
