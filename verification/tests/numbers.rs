use ciborium::accept::{accept_float, accept_i128, accept_i64, accept_u128, accept_u64};
use ciborium::bignum::Bignum;
use ciborium::de::{
    deserializer_from_reader_with_buffer, from_reader, show_bignum, Deserializer, Visit,
};
use ciborium::error::Error;
use ciborium::header::{Header, BIGNEG, BIGPOS};

fn read<T>(bytes: &[u8], read: impl FnOnce(&mut Deserializer<'_, '_>) -> T) -> T {
    let mut scratch = [0u8; 64];
    let mut de = deserializer_from_reader_with_buffer(bytes, &mut scratch);
    read(&mut de)
}

fn unsigned(bytes: &[u8]) -> Result<u64, Error> {
    read(bytes, |de| de.deserialize_u64())
}

fn signed(bytes: &[u8]) -> Result<i64, Error> {
    read(bytes, |de| de.deserialize_i64())
}

fn double(bytes: &[u8]) -> Result<f64, Error> {
    read(bytes, |de| de.deserialize_f64().map(f64::from_bits))
}

fn custom(message: &str) -> Error {
    Error::Semantic(None, message.to_string())
}

fn bignum(tag: u8, magnitude: &[u8]) -> Vec<u8> {
    let mut bytes = vec![tag, 0x58, magnitude.len() as u8];
    bytes.extend_from_slice(magnitude);
    bytes
}

#[test]
fn unsigned_in_every_width() {
    assert_eq!(unsigned(&[0x00]), Ok(0));
    assert_eq!(unsigned(&[0x17]), Ok(23));
    assert_eq!(unsigned(&[0x18, 0x18]), Ok(24));
    assert_eq!(unsigned(&[0x19, 0x03, 0xe8]), Ok(1000));
    assert_eq!(unsigned(&[0x1a, 0x00, 0x0f, 0x42, 0x40]), Ok(1_000_000));
    assert_eq!(
        unsigned(&[0x1b, 0xff, 0xff, 0xff, 0xff, 0xff, 0xff, 0xff, 0xff]),
        Ok(u64::MAX)
    );
}

#[test]
fn unsigned_in_more_bytes_than_it_needs() {
    assert_eq!(unsigned(&[0x18, 0x05]), Ok(5));
    assert_eq!(unsigned(&[0x19, 0x00, 0x05]), Ok(5));
    assert_eq!(unsigned(&[0x1a, 0, 0, 0, 5]), Ok(5));
    assert_eq!(unsigned(&[0x1b, 0, 0, 0, 0, 0, 0, 0, 5]), Ok(5));
}

#[test]
fn unsigned_is_read_by_every_integer_type() {
    let bytes = [0x19, 0x03, 0xe8];
    assert_eq!(read(&bytes, |de| de.deserialize_u8()), Ok(1000));
    assert_eq!(read(&bytes, |de| de.deserialize_u16()), Ok(1000));
    assert_eq!(read(&bytes, |de| de.deserialize_u32()), Ok(1000));
    assert_eq!(read(&bytes, |de| de.deserialize_u128()), Ok(1000));
    assert_eq!(read(&bytes, |de| de.deserialize_i8()), Ok(1000));
    assert_eq!(read(&bytes, |de| de.deserialize_i16()), Ok(1000));
    assert_eq!(read(&bytes, |de| de.deserialize_i32()), Ok(1000));
    assert_eq!(read(&bytes, |de| de.deserialize_i64()), Ok(1000));
    assert_eq!(read(&bytes, |de| de.deserialize_i128()), Ok(1000));
}

#[test]
fn negative_integers() {
    assert_eq!(signed(&[0x20]), Ok(-1));
    assert_eq!(signed(&[0x29]), Ok(-10));
    assert_eq!(signed(&[0x39, 0x03, 0xe7]), Ok(-1000));
    let least = [0x3b, 0x7f, 0xff, 0xff, 0xff, 0xff, 0xff, 0xff, 0xff];
    assert_eq!(signed(&least), Ok(i64::MIN));
    assert_eq!(read(&least, |de| de.deserialize_i128()), Ok(i64::MIN as i128));
}

#[test]
fn negative_integer_below_64_bits() {
    let bytes = [0x3b, 0xff, 0xff, 0xff, 0xff, 0xff, 0xff, 0xff, 0xff];
    assert_eq!(signed(&bytes), Err(custom("integer too large")));
    assert_eq!(read(&bytes, |de| de.deserialize_i128()), Ok(-18446744073709551616));
    assert!(read(&bytes, |de| matches!(
        de.deserialize_any(),
        Ok(Visit::I128(-18446744073709551616))
    )));
}

#[test]
fn negative_integer_is_not_unsigned() {
    assert_eq!(unsigned(&[0x20]), Err(custom("unexpected negative integer")));
    assert_eq!(
        read(&[0x20], |de| de.deserialize_u128()),
        Err(custom("unexpected negative integer"))
    );
}

#[test]
fn unsigned_beyond_signed_64_bits() {
    let bytes = [0x1b, 0x80, 0, 0, 0, 0, 0, 0, 0];
    assert_eq!(signed(&bytes), Err(custom("integer too large")));
    assert_eq!(read(&bytes, |de| de.deserialize_i128()), Ok(1 << 63));
}

#[test]
fn bignums() {
    let magnitude = [1, 0, 0, 0, 0, 0, 0, 0, 0];
    let positive = bignum(0xc2, &magnitude);
    let negative = bignum(0xc3, &magnitude);
    assert_eq!(read(&positive, |de| de.deserialize_u128()), Ok(18446744073709551616));
    assert_eq!(read(&positive, |de| de.deserialize_i128()), Ok(18446744073709551616));
    assert_eq!(unsigned(&positive), Err(custom("integer too large")));
    assert_eq!(signed(&positive), Err(custom("integer too large")));
    assert_eq!(read(&negative, |de| de.deserialize_i128()), Ok(-18446744073709551617));
    assert_eq!(signed(&negative), Err(custom("integer too large")));
    assert_eq!(unsigned(&negative), Err(custom("unexpected negative integer")));
    assert!(read(&positive, |de| matches!(
        de.deserialize_any(),
        Ok(Visit::U128(18446744073709551616))
    )));
    assert!(read(&negative, |de| matches!(
        de.deserialize_any(),
        Ok(Visit::I128(-18446744073709551617))
    )));
}

#[test]
fn bignum_of_sixteen_bytes() {
    let positive = bignum(0xc2, &[0xff; 16]);
    let negative = bignum(0xc3, &[0xff; 16]);
    assert_eq!(read(&positive, |de| de.deserialize_u128()), Ok(u128::MAX));
    assert_eq!(
        read(&positive, |de| de.deserialize_i128()),
        Err(custom("integer too large"))
    );
    assert_eq!(
        read(&negative, |de| de.deserialize_i128()),
        Err(custom("integer too large"))
    );
    assert!(read(&negative, |de| matches!(
        de.deserialize_any(),
        Err(error) if error == custom("integer too large")
    )));
}

#[test]
fn bignum_with_leading_zeros() {
    let mut magnitude = vec![0u8; 20];
    magnitude.push(7);
    magnitude.push(0);
    assert_eq!(unsigned(&bignum(0xc2, &magnitude)), Ok(1792));
    assert_eq!(signed(&bignum(0xc3, &magnitude)), Ok(-1793));
    assert_eq!(unsigned(&bignum(0xc2, &[])), Ok(0));
    assert_eq!(signed(&bignum(0xc3, &[0, 0])), Ok(-1));
}

#[test]
fn bignum_that_is_too_large() {
    let mut magnitude = vec![0u8];
    magnitude.push(1);
    magnitude.extend_from_slice(&[2; 16]);
    let bytes = bignum(0xc2, &magnitude);
    assert_eq!(unsigned(&bytes), Err(custom("bigint too large")));
    assert_eq!(signed(&bytes), Err(custom("bigint too large")));
    assert_eq!(
        read(&bytes, |de| de.deserialize_u128()),
        Err(custom("bigint too large"))
    );
    for tag in [2u64, 3] {
        let bytes = bignum(0xc0 + tag as u8, &magnitude);
        assert!(read(&bytes, |de| matches!(
            de.deserialize_any(),
            Ok(Visit::Bignum(t, digits)) if t == tag && digits == magnitude[1..]
        )));
    }
}

#[test]
fn bignum_that_is_too_large_and_cut_short() {
    let mut bytes = vec![0xc2, 0x58, 40];
    bytes.extend_from_slice(&[1; 32]);
    assert_eq!(unsigned(&bytes), Err(custom("bigint too large")));
    assert!(read(&bytes, |de| matches!(de.deserialize_any(), Err(Error::Io))));
}

#[test]
fn bignum_in_segments() {
    assert_eq!(unsigned(&[0xc2, 0x5f, 0x41, 0x01, 0x40, 0x42, 0x00, 0x02, 0xff]), Ok(65538));
}

#[test]
fn bignum_of_no_bytes() {
    assert_eq!(
        unsigned(&[0xc2, 0x61, 0x61]),
        Err(custom("invalid type: string, expected bytes"))
    );
}

#[test]
fn integer_under_other_tags() {
    assert_eq!(unsigned(&[0xc0, 0xd8, 0x20, 0x05]), Ok(5));
    assert_eq!(unsigned(&[0xc1, 0xc2, 0x41, 0x05]), Ok(5));
}

#[test]
fn integer_that_is_none() {
    assert_eq!(unsigned(&[0x60]), Err(custom("invalid type: string, expected integer")));
    assert_eq!(
        unsigned(&[0xfb, 0x3f, 0xf8, 0, 0, 0, 0, 0, 0]),
        Err(custom("invalid type: floating point `1.5`, expected integer"))
    );
}

#[test]
fn integer_from_a_header() {
    let bytes = [0x41, 0x09];
    assert!(read(&bytes, |de| matches!(
        de.integer(Some(Header::Tag(BIGNEG)), false),
        Ok(integer) if integer.negative && integer.raw == 9 && integer.overflow.is_empty()
    )));
    assert!(read(&bytes, |de| matches!(
        de.integer(Some(Header::Positive(3)), true),
        Ok(integer) if !integer.negative && integer.raw == 3
    )));
    assert!(read(&[0x24], |de| matches!(
        de.integer(Some(Header::Tag(77)), false),
        Ok(integer) if integer.negative && integer.raw == 4
    )));
}

#[test]
fn numbers_as_integers() {
    assert_eq!(accept_i64(true, 0), Ok(-1));
    assert_eq!(accept_i64(true, i64::MAX as u128), Ok(i64::MIN));
    assert_eq!(accept_i64(false, 1 << 63), Err(custom("integer too large")));
    assert_eq!(accept_i128(true, i128::MAX as u128), Ok(i128::MIN));
    assert_eq!(accept_i128(false, 1 << 127), Err(custom("integer too large")));
    assert_eq!(accept_u64(false, u64::MAX as u128), Ok(u64::MAX));
    assert_eq!(accept_u64(false, 1 << 64), Err(custom("integer too large")));
    assert_eq!(accept_u64(true, 0), Err(custom("unexpected negative integer")));
    assert_eq!(accept_u128(false, u128::MAX), Ok(u128::MAX));
    assert_eq!(accept_u128(true, 0), Err(custom("unexpected negative integer")));
}

#[test]
fn magnitude_byte_by_byte() {
    let mut bignum = Bignum::new(false);
    for byte in [0, 0, 1, 2] {
        assert_eq!(bignum.push(byte), Ok(()));
    }
    assert_eq!(bignum.finish(false).raw, 258);

    let mut bignum = Bignum::new(false);
    for _ in 0..16 {
        assert_eq!(bignum.push(1), Ok(()));
    }
    assert_eq!(bignum.push(1), Err(custom("bigint too large")));

    let mut bignum = Bignum::new(true);
    for _ in 0..17 {
        assert_eq!(bignum.push(1), Ok(()));
    }
    let integer = bignum.finish(true);
    assert!(!integer.negative && integer.raw == 0 && integer.overflow == vec![1; 17]);
}

#[test]
fn magnitude_of_chunks() {
    let chunks = vec![vec![0, 1], vec![], vec![2]];
    match Bignum::collect(&chunks, false) {
        Ok(bignum) => assert_eq!(bignum.finish(true).raw, 258),
        Err(error) => panic!("{:?}", error),
    }
    assert!(matches!(
        Bignum::collect(&vec![vec![1; 10], vec![1; 10]], false),
        Err(error) if error == custom("bigint too large")
    ));
}

#[test]
fn bignum_shows_itself() {
    let integer = |negative: bool, bytes: &[u8]| match Bignum::collect(&vec![bytes.to_vec()], true) {
        Ok(bignum) => bignum.finish(negative),
        Err(error) => panic!("{:?}", error),
    };
    assert!(matches!(show_bignum(BIGPOS, integer(false, &[9])), Ok(Visit::U128(9))));
    assert!(matches!(show_bignum(BIGNEG, integer(true, &[9])), Ok(Visit::I128(-10))));
    assert!(matches!(
        show_bignum(BIGNEG, integer(true, &[1; 17])),
        Ok(Visit::Bignum(3, bytes)) if bytes == [1; 17]
    ));
}

#[test]
fn doubles() {
    assert_eq!(double(&[0xf9, 0x00, 0x00]), Ok(0.0));
    assert_eq!(double(&[0xf9, 0x3c, 0x00]), Ok(1.0));
    assert_eq!(double(&[0xf9, 0x00, 0x01]), Ok(5.960464477539063e-8));
    assert_eq!(double(&[0xf9, 0x7c, 0x00]), Ok(f64::INFINITY));
    assert_eq!(double(&[0xfa, 0x47, 0xc3, 0x50, 0x00]), Ok(100000.0));
    assert_eq!(double(&[0xfb, 0x3f, 0xf1, 0x99, 0x99, 0x99, 0x99, 0x99, 0x9a]), Ok(1.1));
    assert!(matches!(double(&[0xf9, 0x7e, 0x00]), Ok(x) if x.is_nan()));
    assert!(matches!(double(&[0xfb, 0x7f, 0xf8, 0, 0, 0, 0, 0, 0]), Ok(x) if x.is_nan()));
    assert_eq!(read(&[0xc1, 0xf9, 0xc4, 0x00], |de| de.deserialize_f32()), Ok((-4.0f64).to_bits()));
    assert!(read(&[0xf9, 0x3c, 0x00], |de| matches!(
        de.deserialize_any(),
        Ok(Visit::Float(bits)) if f64::from_bits(bits) == 1.0
    )));
}

#[test]
fn double_that_is_none() {
    assert_eq!(double(&[0x05]), Err(custom("invalid type: integer `5`, expected float")));
    assert_eq!(double(&[0x24]), Err(custom("invalid type: integer `-5`, expected float")));
}

#[test]
fn negative_integer_in_a_message_is_cut_to_64_bits() {
    assert_eq!(
        double(&[0x3b, 0xff, 0xff, 0xff, 0xff, 0xff, 0xff, 0xff, 0xff]),
        Err(custom("invalid type: integer `0`, expected float"))
    );
}

#[test]
fn heads_that_are_malformed() {
    assert_eq!(unsigned(&[0x1c]), Err(Error::Syntax(0)));
    assert_eq!(unsigned(&[0x1f]), Err(Error::Syntax(0)));
    assert_eq!(unsigned(&[0xc1, 0x3e]), Err(Error::Syntax(1)));
    assert_eq!(
        read(&[0x01, 0x1d], |de| (de.deserialize_u64(), de.deserialize_u64())),
        (Ok(1), Err(Error::Syntax(1)))
    );
}

#[test]
fn heads_that_are_cut_short() {
    assert_eq!(unsigned(&[]), Err(Error::Io));
    assert_eq!(unsigned(&[0x18]), Err(Error::Io));
    assert_eq!(unsigned(&[0x1b, 0, 0, 0]), Err(Error::Io));
    assert_eq!(unsigned(&[0xc2]), Err(Error::Io));
}

#[test]
fn values_one_after_another() {
    let bytes = [0x18, 0x2a, 0x20, 0xf9, 0x3c, 0x00, 0x07];
    read(&bytes, |de| {
        assert_eq!(de.deserialize_u64(), Ok(42));
        assert_eq!(de.deserialize_i64(), Ok(-1));
        assert_eq!(de.deserialize_f64(), Ok(1.0f64.to_bits()));
        assert_eq!(de.deserialize_u8(), Ok(7));
        assert_eq!(de.deserialize_u8(), Err(Error::Io));
    });
}

#[test]
fn number_from_reader() {
    assert_eq!(from_reader(&[0x18, 0x2a], |de| de.deserialize_u64()), Ok(42));
}

#[test]
fn bignum_is_given_up_in_the_chunk_that_is_too_much() {
    let mut bytes = vec![0xc2, 0x58, 40];
    bytes.extend_from_slice(&[1; 40]);
    read(&bytes, |de| {
        assert_eq!(de.deserialize_u64(), Err(custom("bigint too large")));
        for _ in 0..8 {
            assert_eq!(de.deserialize_u64(), Ok(1));
        }
        assert_eq!(de.deserialize_u64(), Err(Error::Io));
    });
}

#[test]
fn bignum_in_segments_is_given_up_in_the_chunk_that_is_too_much() {
    let mut bytes = vec![0x00, 0xc3, 0x5f, 0x42, 0, 0, 0x4a];
    bytes.extend_from_slice(&[2; 10]);
    bytes.push(0x49);
    bytes.extend_from_slice(&[3; 9]);
    bytes.extend_from_slice(&[0x41, 0x04, 0xff, 0x1c]);
    read(&bytes, |de| {
        assert_eq!(de.deserialize_u64(), Ok(0));
        assert_eq!(de.deserialize_i128(), Err(custom("bigint too large")));
        assert!(matches!(de.deserialize_any(), Ok(Visit::Bytes(_))));
        assert_eq!(
            de.deserialize_bool(),
            Err(Error::Semantic(Some(29), "expected bool".to_string()))
        );
        assert_eq!(de.deserialize_u64(), Err(Error::Syntax(30)));
    });
}

#[test]
fn double_that_is_not_a_number_keeps_its_bits() {
    let bytes = [0xc1, 0xfb, 0xff, 0xf0, 0, 0, 0, 0, 0, 7];
    assert_eq!(read(&bytes, |de| de.deserialize_f64()), Ok(0xfff0_0000_0000_0007));
    assert_eq!(accept_float(Header::Float(0x7ff8_0000_0000_0009)), Ok(0x7ff8_0000_0000_0009));
}
