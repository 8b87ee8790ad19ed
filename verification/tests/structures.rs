use ciborium::accept::{
    accept_any, accept_bignum, accept_bool, accept_byte_buf, accept_bytes, accept_enum,
    accept_float, accept_integer, accept_map, accept_null, accept_seq, accept_unit, AnyKind,
    EnumStart, IntegerPart, ShortStart, Start,
};
use ciborium::access::{Access, BytesAccess, Next};
use ciborium::budget::Budget;
use ciborium::de::{
    deserializer_from_reader_with_buffer, deserializer_from_reader_with_buffer_and_recursion_limit,
    from_reader, from_reader_with_recursion_limit, BytesVisit, Deserializer, EnumVisitAction,
    SeqVisitAction, Visit,
};
use ciborium::error::Error;
use ciborium::header::{Header, FALSE, NULL, TRUE, UNDEFINED};

fn read<T>(bytes: &[u8], read: impl FnOnce(&mut Deserializer<'_, '_>) -> T) -> T {
    let mut scratch = [0u8; 64];
    let mut de = deserializer_from_reader_with_buffer(bytes, &mut scratch);
    read(&mut de)
}

fn limited<T>(bytes: &[u8], limit: usize, read: impl FnOnce(&mut Deserializer<'_, '_>) -> T) -> T {
    let mut scratch = [0u8; 64];
    let mut de =
        deserializer_from_reader_with_buffer_and_recursion_limit(bytes, &mut scratch, limit);
    read(&mut de)
}

fn custom(message: &str) -> Error {
    Error::Semantic(None, message.to_string())
}

fn elements(
    mut access: Access,
    per_element: usize,
    de: &mut Deserializer<'_, '_>,
) -> Result<usize, Error> {
    let mut items: usize = 0;
    while access.next_element_seed(de)?.is_some() {
        for _ in 0..per_element {
            items += whole(de)?;
        }
    }
    access.close(de);
    Ok(items)
}

/// Reads the next item and all that it holds, and counts the items.
fn whole(de: &mut Deserializer<'_, '_>) -> Result<usize, Error> {
    let visit = de.deserialize_any()?;
    Ok(1 + match visit {
        Visit::Sequence(SeqVisitAction::Access(access)) => elements(access, 1, de)?,
        Visit::Mapping(access) => elements(access, 2, de)?,
        Visit::Tag(_) => {
            let items = whole(de)?;
            de.leave();
            items
        }
        _ => 0,
    })
}

#[test]
fn booleans() {
    assert_eq!(read(&[0xf4], |de| de.deserialize_bool()), Ok(false));
    assert_eq!(read(&[0xf5], |de| de.deserialize_bool()), Ok(true));
    assert_eq!(read(&[0xc1, 0xf5], |de| de.deserialize_bool()), Ok(true));
    assert!(read(&[0xf4], |de| matches!(de.deserialize_any(), Ok(Visit::Bool(false)))));
}

#[test]
fn booleans_that_are_none() {
    let found = |offset: usize| Err(Error::Semantic(Some(offset), "expected bool".to_string()));
    assert_eq!(read(&[0x00], |de| de.deserialize_bool()), found(0));
    assert_eq!(read(&[0xc1, 0xf6], |de| de.deserialize_bool()), found(1));
    assert_eq!(
        read(&[0xf5, 0x20], |de| (de.deserialize_bool(), de.deserialize_bool())),
        (Ok(true), found(1))
    );
}

#[test]
fn header_put_back_counts_by_its_shortest_form() {
    let offset = |bytes: &[u8]| {
        read(bytes, |de| {
            assert_eq!(de.deserialize_option(), Ok(true));
            match de.deserialize_bool() {
                Err(Error::Semantic(Some(offset), _)) => offset,
                other => panic!("{:?}", other),
            }
        })
    };
    assert_eq!(offset(&[0x01]), 0);
    assert_eq!(offset(&[0x19, 0x00, 0x01]), 2);
    assert_eq!(offset(&[0x19, 0x01, 0x00]), 0);
    assert_eq!(offset(&[0xfb, 0x3f, 0xf0, 0, 0, 0, 0, 0, 0]), 6);
    assert_eq!(offset(&[0xfb, 0x3f, 0xf1, 0x99, 0x99, 0x99, 0x99, 0x99, 0x9a]), 0);
}

#[test]
fn options() {
    assert_eq!(read(&[0xf6], |de| de.deserialize_option()), Ok(false));
    assert_eq!(read(&[0xf7], |de| de.deserialize_option()), Ok(false));
    assert_eq!(read(&[], |de| de.deserialize_option()), Err(Error::Io));
    read(&[0x18, 0x2a, 0xf6], |de| {
        assert_eq!(de.deserialize_option(), Ok(true));
        assert_eq!(de.deserialize_u64(), Ok(42));
        assert_eq!(de.deserialize_option(), Ok(false));
    });
    read(&[0xc1, 0xf6], |de| {
        assert_eq!(de.deserialize_option(), Ok(true));
        assert_eq!(de.deserialize_unit(), Ok(()));
    });
    assert!(read(&[0xf7], |de| matches!(de.deserialize_any(), Ok(Visit::Null))));
}

#[test]
fn units() {
    assert_eq!(read(&[0xf6], |de| de.deserialize_unit()), Ok(()));
    assert_eq!(read(&[0xf7], |de| de.deserialize_unit_struct("Unit")), Ok(()));
    assert_eq!(read(&[0xc1, 0xf7], |de| de.deserialize_unit()), Ok(()));
    assert_eq!(
        read(&[0xf4], |de| de.deserialize_unit()),
        Err(custom("invalid type: boolean `false`, expected unit"))
    );
}

#[test]
fn array_of_known_length() {
    read(&[0x83, 0x01, 0x02, 0x03, 0x04], |de| {
        let mut access = match de.deserialize_seq() {
            Ok(SeqVisitAction::Access(access)) => access,
            _ => panic!("no array"),
        };
        assert_eq!(access.size_hint(), Some(3));
        for value in 1..4 {
            assert_eq!(access.next_element_seed(de), Ok(Some(())));
            assert_eq!(de.deserialize_u64(), Ok(value));
        }
        assert_eq!(access.size_hint(), Some(0));
        assert_eq!(access.next_element_seed(de), Ok(None));
        assert_eq!(access.next_element_seed(de), Ok(None));
        access.close(de);
        assert_eq!(de.deserialize_u64(), Ok(4));
    });
}

#[test]
fn array_up_to_a_break() {
    read(&[0x9f, 0x01, 0x19, 0x00, 0x02, 0xff, 0x03], |de| {
        let mut access = match de.deserialize_tuple(2) {
            Ok(SeqVisitAction::Access(access)) => access,
            _ => panic!("no array"),
        };
        assert_eq!(access.size_hint(), None);
        assert_eq!(access.next_element_seed(de), Ok(Some(())));
        assert_eq!(de.deserialize_u64(), Ok(1));
        assert_eq!(access.next_element_seed(de), Ok(Some(())));
        assert_eq!(de.deserialize_u64(), Ok(2));
        assert_eq!(access.next_element_seed(de), Ok(None));
        access.close(de);
        assert_eq!(de.deserialize_u64(), Ok(3));
    });
    read(&[0x9f], |de| {
        let mut access = match de.deserialize_tuple_struct("Pair", 2) {
            Ok(SeqVisitAction::Access(access)) => access,
            _ => panic!("no array"),
        };
        assert_eq!(access.next_element_seed(de), Err(Error::Io));
    });
}

#[test]
fn array_for_bytes() {
    read(&[0xc1, 0x82, 0x01, 0x02], |de| match de.deserialize_bytes() {
        Ok(BytesVisit::Access(access)) => assert_eq!(access.size_hint(), Some(2)),
        _ => panic!("no array"),
    });
}

#[test]
fn arrays_that_are_none() {
    assert!(read(&[0xa0], |de| matches!(
        de.deserialize_seq(),
        Err(error) if error == custom("invalid type: map, expected array")
    )));
}

#[test]
fn map_of_known_length() {
    read(&[0xa2, 0x61, 0x61, 0x01, 0x61, 0x62, 0x02], |de| {
        let mut access = match de.deserialize_struct("Pair", &["a", "b"]) {
            Ok(access) => access,
            Err(error) => panic!("{:?}", error),
        };
        assert_eq!(access.size_hint(), Some(2));
        assert_eq!(access.next_key_seed(de), Ok(Some(())));
        assert_eq!(de.deserialize_identifier(), Ok("a"));
        assert_eq!(de.deserialize_u64(), Ok(1));
        assert_eq!(access.next_key_seed(de), Ok(Some(())));
        assert_eq!(de.deserialize_identifier(), Ok("b"));
        assert_eq!(de.deserialize_u64(), Ok(2));
        assert_eq!(access.next_key_seed(de), Ok(None));
        access.close(de);
    });
}

#[test]
fn map_up_to_a_break() {
    read(&[0xc9, 0xbf, 0x01, 0x02, 0xff], |de| {
        let mut access = match de.deserialize_map() {
            Ok(access) => access,
            Err(error) => panic!("{:?}", error),
        };
        assert_eq!(access.size_hint(), None);
        assert_eq!(access.next_key_seed_impl(de), Ok(Some(())));
        assert_eq!(de.deserialize_u64(), Ok(1));
        assert_eq!(de.deserialize_u64(), Ok(2));
        assert_eq!(access.next_key_seed_impl(de), Ok(None));
    });
    assert!(read(&[0x80], |de| matches!(
        de.deserialize_map(),
        Err(error) if error == custom("invalid type: sequence, expected map")
    )));
}

#[test]
fn enum_by_its_variant() {
    read(&[0x61, 0x41], |de| {
        match de.deserialize_enum("Letter") {
            Ok(EnumVisitAction::Access(access)) => assert_eq!(access.size_hint(), Some(0)),
            _ => panic!("no variant"),
        }
        assert_eq!(de.deserialize_identifier(), Ok("A"));
    });
    read(&[0xc1, 0xa1, 0x61, 0x41, 0x05], |de| {
        assert!(matches!(de.deserialize_enum("Letter"), Ok(EnumVisitAction::Access(_))));
        assert_eq!(de.deserialize_identifier(), Ok("A"));
        assert_eq!(de.deserialize_u64(), Ok(5));
    });
    for bytes in [[0xa2], [0xbf]] {
        assert!(read(&bytes, |de| matches!(
            de.deserialize_enum("Letter"),
            Err(error) if error == custom("invalid type: map, expected enum")
        )));
    }
}

#[test]
fn enum_by_its_tag() {
    read(&[0xd8, 0x2a, 0x05], |de| {
        assert!(matches!(de.deserialize_enum("@@TAG@@"), Ok(EnumVisitAction::TagAccess(Some(42)))));
        assert_eq!(de.deserialize_u64(), Ok(5));
    });
    read(&[0x05], |de| {
        assert!(matches!(de.deserialize_enum("@@TAG@@"), Ok(EnumVisitAction::TagAccess(None))));
        assert_eq!(de.deserialize_u64(), Ok(5));
    });
    read(&[0xc2, 0x41, 0x05], |de| {
        assert!(matches!(de.deserialize_enum("@@TAG@@"), Ok(EnumVisitAction::TagAccess(Some(2)))));
        assert!(matches!(de.deserialize_bytes(), Ok(BytesVisit::Bytes(&[5]))));
    });
    assert!(read(&[], |de| matches!(de.deserialize_enum("@@TAG@@"), Err(Error::Io))));
}

#[test]
fn containers_show_themselves() {
    assert!(read(&[0x82], |de| matches!(
        de.deserialize_any(),
        Ok(Visit::Sequence(SeqVisitAction::Access(access))) if access.size_hint() == Some(2)
    )));
    assert!(read(&[0xa2], |de| matches!(
        de.deserialize_any(),
        Ok(Visit::Mapping(access)) if access.size_hint() == Some(2)
    )));
    read(&[0xd8, 0x2a, 0x05], |de| {
        assert!(matches!(de.deserialize_any(), Ok(Visit::Tag(42))));
        assert!(matches!(de.deserialize_ignored_any(), Ok(Visit::U64(5))));
        de.leave();
    });
    assert!(read(&[0x38, 0x63], |de| matches!(de.deserialize_any(), Ok(Visit::I64(-100)))));
}

#[test]
fn items_that_show_nothing() {
    assert!(read(&[0xe0], |de| matches!(
        de.deserialize_any(),
        Err(error) if error == custom("invalid type: simple, expected known simple value")
    )));
    assert!(read(&[0xf8, 0xff], |de| matches!(
        de.deserialize_any(),
        Err(error) if error == custom("invalid type: simple, expected known simple value")
    )));
    assert!(read(&[0xff], |de| matches!(
        de.deserialize_any(),
        Err(error) if error == custom("invalid type: break, expected non-break")
    )));
    assert!(read(&[0x1e], |de| matches!(de.deserialize_any(), Err(Error::Syntax(0)))));
}

#[test]
fn nothing_is_for_people_to_read() {
    assert!(!read(&[], |de| de.is_human_readable()));
}

#[test]
fn whole_items() {
    assert_eq!(read(&[0x83, 0x01, 0x82, 0x02, 0x03, 0xa1, 0x61, 0x61, 0xc1, 0x04], whole), Ok(9));
    assert_eq!(read(&[0x9f, 0xbf, 0x01, 0x9f, 0xff, 0xff, 0xff], whole), Ok(4));
    assert_eq!(read(&[0x82, 0x01], whole), Err(Error::Io));
}

#[test]
fn nesting_up_to_the_limit() {
    for nesting in 0..6usize {
        for head in [0x81, 0x9f, 0xc1] {
            let mut bytes = vec![head; nesting];
            bytes.push(0x07);
            if head == 0x9f {
                bytes.extend_from_slice(&vec![0xff; nesting]);
            }
            for limit in 0..6usize {
                let result = limited(&bytes, limit, whole);
                if nesting <= limit {
                    assert_eq!(result, Ok(nesting + 1));
                } else {
                    assert_eq!(result, Err(Error::RecursionLimitExceeded));
                }
            }
        }
    }
}

#[test]
fn nesting_beside_each_other_is_not_nesting() {
    let bytes = [0x84, 0x80, 0xa0, 0xc1, 0x01, 0x81, 0x02];
    assert_eq!(limited(&bytes, 2, whole), Ok(7));
    assert_eq!(limited(&bytes, 1, whole), Err(Error::RecursionLimitExceeded));
    assert_eq!(limited(&[0x81, 0xc2, 0x41, 0x01], 1, whole), Ok(2));
}

#[test]
fn limit_comes_before_later_faults() {
    let bytes = [0x82, 0x81, 0x01, 0x1c];
    assert_eq!(limited(&bytes, 1, whole), Err(Error::RecursionLimitExceeded));
    assert_eq!(limited(&bytes, 2, whole), Err(Error::Syntax(3)));
}

#[test]
fn limit_where_none_is_given() {
    let mut bytes = vec![0x81; 256];
    bytes.push(0x00);
    assert_eq!(from_reader(&bytes, whole), Ok(257));
    bytes.insert(0, 0x81);
    assert_eq!(from_reader(&bytes, whole), Err(Error::RecursionLimitExceeded));
    assert_eq!(from_reader_with_recursion_limit(&bytes, 257, whole), Ok(258));
    assert_eq!(
        from_reader_with_recursion_limit(&bytes, 3, whole),
        Err(Error::RecursionLimitExceeded)
    );
}

#[test]
fn levels_are_spent_by_what_opens() {
    limited(&[0x80, 0xa0, 0x61, 0x61, 0x05], 1, |de| {
        match de.deserialize_seq() {
            Ok(SeqVisitAction::Access(access)) => access.close(de),
            _ => panic!("no array"),
        }
        match de.deserialize_map() {
            Ok(access) => access.close(de),
            Err(error) => panic!("{:?}", error),
        }
        assert!(matches!(de.deserialize_enum("Letter"), Ok(EnumVisitAction::Access(_))));
        assert_eq!(de.deserialize_str(), Ok("a"));
        assert_eq!(de.enter(), Err(Error::RecursionLimitExceeded));
        assert!(matches!(
            de.deserialize_enum("@@TAG@@"),
            Err(Error::RecursionLimitExceeded)
        ));
        de.leave();
        assert_eq!(de.enter(), Ok(()));
        assert_eq!(de.deserialize_u64(), Ok(5));
    });
    for bytes in [[0x80], [0xa0]] {
        assert_eq!(limited(&bytes, 0, whole), Err(Error::RecursionLimitExceeded));
    }
    assert_eq!(limited(&[0x05], 0, whole), Ok(1));
}

#[test]
fn opening_with_no_level_left() {
    let refused = |read: &dyn Fn(&mut Deserializer<'_, '_>) -> Option<Error>, bytes: &[u8]| {
        assert_eq!(limited(bytes, 0, |de| read(de)), Some(Error::RecursionLimitExceeded));
    };
    refused(&|de| de.deserialize_bytes().err(), &[0x80]);
    refused(&|de| de.deserialize_byte_buf().err(), &[0x80]);
    refused(&|de| de.deserialize_seq().err(), &[0x80]);
    refused(&|de| de.deserialize_map().err(), &[0xa0]);
    refused(&|de| Access::new(de, None).err(), &[]);
    refused(&|de| de.deserialize_enum("Letter").err(), &[0x61, 0x41]);
}

#[test]
fn elements_are_counted() {
    let mut access = Access::with_len(Some(2));
    assert_eq!(access.advance(), Next::Item);
    assert_eq!(access.advance(), Next::Item);
    assert_eq!(access.advance(), Next::End);
    assert_eq!(access.advance(), Next::End);
    let mut access = Access::with_len(None);
    assert_eq!(access.advance(), Next::Look);
    assert_eq!(access.size_hint(), None);
}

#[test]
fn bytes_are_counted() {
    let mut access = BytesAccess::new(vec![7, 8]);
    assert_eq!(access.size_hint(), Some(2));
    assert_eq!(access.next_element_seed(), Some(7));
    assert_eq!(access.size_hint(), Some(1));
}

#[test]
fn budgets() {
    let mut budget = Budget::new(1);
    assert_eq!(budget.enter(), Ok(()));
    assert_eq!(budget.enter(), Err(Error::RecursionLimitExceeded));
    budget.leave();
    assert_eq!(budget.enter(), Ok(()));
}

#[test]
fn headers_that_are_accepted() {
    assert_eq!(accept_integer(Header::Positive(1)), Ok(IntegerPart::Small(false, 1)));
    assert_eq!(accept_integer(Header::Negative(1)), Ok(IntegerPart::Small(true, 1)));
    assert_eq!(accept_integer(Header::Tag(2)), Ok(IntegerPart::Big(false)));
    assert_eq!(accept_integer(Header::Tag(3)), Ok(IntegerPart::Big(true)));
    assert_eq!(accept_integer(Header::Tag(4)), Ok(IntegerPart::Skip));
    assert_eq!(accept_bignum(Header::Bytes(Some(3))), Ok(Some(3)));
    assert_eq!(accept_bool(Header::Simple(TRUE), 3), Ok(true));
    assert_eq!(accept_float(Header::Float(9)), Ok(9));
    assert_eq!(accept_bytes(Header::Bytes(Some(3)), 3), Ok(ShortStart::Bytes(3)));
    assert_eq!(accept_bytes(Header::Array(None), 3), Ok(ShortStart::Array(None)));
    assert_eq!(accept_byte_buf(Header::Bytes(None)), Ok(Start::Bytes(None)));
    assert_eq!(accept_byte_buf(Header::Array(Some(1))), Ok(Start::Array(Some(1))));
    assert_eq!(accept_seq(Header::Bytes(Some(1))), Ok(Start::Bytes(Some(1))));
    assert_eq!(accept_seq(Header::Array(Some(1))), Ok(Start::Array(Some(1))));
    assert_eq!(accept_map(Header::Mapping(Some(1))), Ok(Some(1)));
    assert_eq!(accept_enum(Header::Mapping(Some(1))), Ok(EnumStart::Mapping));
    assert_eq!(accept_enum(Header::Text(None)), Ok(EnumStart::Variant));
    assert!(accept_null(Header::Simple(NULL)));
    assert!(accept_null(Header::Simple(UNDEFINED)));
    assert!(!accept_null(Header::Simple(FALSE)));
    assert_eq!(accept_unit(Header::Simple(NULL)), Ok(()));
}

#[test]
fn headers_of_any_kind() {
    assert_eq!(accept_any(Header::Positive(0), 4), Ok(AnyKind::U64));
    assert_eq!(accept_any(Header::Negative(i64::MAX as u64), 4), Ok(AnyKind::I64));
    assert_eq!(accept_any(Header::Negative(1 << 63), 4), Ok(AnyKind::I128));
    assert_eq!(accept_any(Header::Bytes(Some(4)), 4), Ok(AnyKind::Bytes));
    assert_eq!(accept_any(Header::Bytes(Some(5)), 4), Ok(AnyKind::ByteBuf));
    assert_eq!(accept_any(Header::Bytes(None), 4), Ok(AnyKind::ByteBuf));
    assert_eq!(accept_any(Header::Text(Some(4)), 4), Ok(AnyKind::Str));
    assert_eq!(accept_any(Header::Text(Some(5)), 4), Ok(AnyKind::Text));
    assert_eq!(accept_any(Header::Array(None), 4), Ok(AnyKind::Sequence));
    assert_eq!(accept_any(Header::Mapping(None), 4), Ok(AnyKind::Mapping));
    assert_eq!(accept_any(Header::Tag(3), 4), Ok(AnyKind::Bignum(3)));
    assert_eq!(accept_any(Header::Tag(4), 4), Ok(AnyKind::Tag(4)));
    assert_eq!(accept_any(Header::Float(0), 4), Ok(AnyKind::Float));
    assert_eq!(accept_any(Header::Simple(FALSE), 4), Ok(AnyKind::Bool));
    assert_eq!(accept_any(Header::Simple(UNDEFINED), 4), Ok(AnyKind::Null));
}

#[test]
fn messages_name_what_was_found() {
    let message = |header: Header| match header.expected("thing") {
        Error::Semantic(None, message) => message,
        other => panic!("{:?}", other),
    };
    assert_eq!(message(Header::Positive(7)), "invalid type: integer `7`, expected thing");
    assert_eq!(message(Header::Negative(7)), "invalid type: integer `-8`, expected thing");
    assert_eq!(
        message(Header::Float(1.0f64.to_bits())),
        "invalid type: floating point `1.0`, expected thing"
    );
    assert_eq!(
        message(Header::Float(f64::NAN.to_bits())),
        message(Header::Float(f64::NAN.to_bits() | 1))
    );
    assert_eq!(message(Header::Simple(TRUE)), "invalid type: boolean `true`, expected thing");
    assert_eq!(message(Header::Simple(FALSE)), "invalid type: boolean `false`, expected thing");
    assert_eq!(message(Header::Simple(NULL)), "invalid type: null, expected thing");
    assert_eq!(message(Header::Simple(UNDEFINED)), "invalid type: undefined, expected thing");
    assert_eq!(message(Header::Simple(1)), "invalid type: simple, expected thing");
    assert_eq!(message(Header::Tag(1)), "invalid type: tag, expected thing");
    assert_eq!(message(Header::Break), "invalid type: break, expected thing");
    assert_eq!(message(Header::Bytes(None)), "invalid type: bytes, expected thing");
    assert_eq!(message(Header::Text(None)), "invalid type: string, expected thing");
    assert_eq!(message(Header::Array(None)), "invalid type: sequence, expected thing");
    assert_eq!(message(Header::Mapping(None)), "invalid type: map, expected thing");
}

#[test]
fn errors_by_hand() {
    assert_eq!(Error::custom("no"), Error::Semantic(None, "no".to_string()));
    assert_eq!(Error::semantic(Some(3), "no"), Error::Semantic(Some(3), "no".to_string()));
}

#[test]
fn items_that_are_cut_short() {
    let bytes = [
        0x85, 0x19, 0x01, 0x00, 0xbf, 0x61, 0x61, 0xc2, 0x42, 0x01, 0x02, 0xff, 0x62, 0xc3, 0xbc,
        0x5f, 0x41, 0x00, 0xff, 0xfb, 0x3f, 0xf1, 0x99, 0x99, 0x99, 0x99, 0x99, 0x9a,
    ];
    assert_eq!(read(&bytes, whole), Ok(8));
    for count in 0..bytes.len() {
        assert_eq!(read(&bytes[..count], whole), Err(Error::Io));
    }
}

#[test]
fn successive_items() {
    let first = [0x82, 0x01, 0x61, 0x61];
    let second = [0xa1, 0x02, 0xf6];
    let mut bytes = first.to_vec();
    bytes.extend_from_slice(&second);
    let alone = (read(&first, whole), read(&second, whole));
    assert_eq!(alone, (Ok(3), Ok(3)));
    assert_eq!(read(&bytes, |de| (whole(de), whole(de))), alone);
}

#[test]
fn buffers_and_limits_make_no_difference() {
    let bytes = [0x83, 0x64, 0x49, 0x45, 0x54, 0x46, 0x43, 1, 2, 3, 0x81, 0x00];
    for room in 0..9 {
        for limit in 2..5 {
            let mut scratch = vec![7u8; room + 4];
            let mut de = deserializer_from_reader_with_buffer_and_recursion_limit(
                &bytes,
                &mut scratch,
                limit,
            );
            assert_eq!(whole(&mut de), Ok(5));
        }
    }
}
