use ciborium::accept::{
    accept_char, accept_char_len, accept_identifier_len, accept_str_len, accept_string, accept_text,
};
use ciborium::de::{
    deserializer_from_reader_with_buffer, from_reader_with_buffer, safe_size_hint, ByteBufVisit,
    BytesVisit, Deserializer, SeqVisitAction, Visit,
};
use ciborium::error::Error;
use ciborium::header::Header;

fn read<T>(bytes: &[u8], room: usize, read: impl FnOnce(&mut Deserializer<'_, '_>) -> T) -> T {
    let mut scratch = vec![0u8; room];
    let mut de = deserializer_from_reader_with_buffer(bytes, &mut scratch);
    read(&mut de)
}

fn character(bytes: &[u8]) -> Result<char, Error> {
    read(bytes, 0, |de| de.deserialize_char())
}

fn short(bytes: &[u8], room: usize) -> Result<String, Error> {
    read(bytes, room, |de| de.deserialize_str().map(str::to_string))
}

fn identifier(bytes: &[u8], room: usize) -> Result<String, Error> {
    read(bytes, room, |de| de.deserialize_identifier().map(str::to_string))
}

fn text(bytes: &[u8], room: usize) -> Result<String, Error> {
    read(bytes, room, |de| de.deserialize_string())
}

fn short_bytes(bytes: &[u8], room: usize) -> Result<Vec<u8>, Error> {
    read(bytes, room, |de| match de.deserialize_bytes()? {
        BytesVisit::Bytes(bytes) => Ok(bytes.to_vec()),
        BytesVisit::Access(_) => panic!("an array"),
    })
}

fn byte_buf(bytes: &[u8], room: usize) -> Result<Vec<u8>, Error> {
    read(bytes, room, |de| match de.deserialize_byte_buf()? {
        ByteBufVisit::ByteBuf(bytes) => Ok(bytes),
        ByteBufVisit::Access(_) => panic!("an array"),
    })
}

fn custom(message: &str) -> Error {
    Error::Semantic(None, message.to_string())
}

#[test]
fn characters() {
    assert_eq!(character(&[0x61, 0x61]), Ok('a'));
    assert_eq!(character(&[0x62, 0xc3, 0xbc]), Ok('\u{fc}'));
    assert_eq!(character(&[0x63, 0xe6, 0xb0, 0xb4]), Ok('\u{6c34}'));
    assert_eq!(character(&[0x64, 0xf0, 0x90, 0x85, 0x91]), Ok('\u{10151}'));
    assert_eq!(character(&[0xc5, 0x61, 0x7a]), Ok('z'));
    assert_eq!(character(&[0x78, 0x01, 0x61]), Ok('a'));
}

#[test]
fn characters_that_are_none() {
    let found = Err(custom("invalid type: string, expected char"));
    assert_eq!(character(&[0x60]), found);
    assert_eq!(character(&[0x62, 0x61, 0x62]), found);
    assert_eq!(character(&[0x65, 0x61, 0x62, 0x63, 0x64, 0x65]), found);
    assert_eq!(character(&[0x7f, 0x61, 0x61, 0xff]), found);
    assert_eq!(
        character(&[0x41, 0x61]),
        Err(custom("invalid type: bytes, expected char"))
    );
    assert_eq!(character(&[0x62, 0xc3, 0x28]), Err(Error::Syntax(0)));
    assert_eq!(character(&[0xc1, 0x61, 0xff]), Err(Error::Syntax(1)));
    assert_eq!(character(&[0x62, 0x61]), Err(Error::Io));
}

#[test]
fn short_texts() {
    assert_eq!(short(&[0x60], 0), Ok(String::new()));
    assert_eq!(short(&[0x64, 0x49, 0x45, 0x54, 0x46], 4), Ok("IETF".to_string()));
    assert_eq!(short(&[0xd8, 0x20, 0x62, 0xc3, 0xbc], 2), Ok("\u{fc}".to_string()));
}

#[test]
fn short_texts_that_are_none() {
    let found = Err(custom("invalid type: string, expected str"));
    assert_eq!(short(&[0x64, 0x49, 0x45, 0x54, 0x46], 3), found);
    assert_eq!(short(&[0x7f, 0x61, 0x61, 0xff], 9), found);
    assert_eq!(short(&[0x41, 0x61], 9), Err(custom("invalid type: bytes, expected str")));
    assert_eq!(short(&[0x61, 0xff], 9), Err(Error::Syntax(0)));
    assert_eq!(short(&[0x63, 0x61], 9), Err(Error::Io));
}

#[test]
fn identifiers() {
    assert_eq!(identifier(&[0x62, 0x68, 0x69], 2), Ok("hi".to_string()));
    assert_eq!(identifier(&[0x42, 0x68, 0x69], 2), Ok("hi".to_string()));
    assert_eq!(identifier(&[0xc7, 0x42, 0x68, 0x69], 2), Ok("hi".to_string()));
    assert_eq!(
        identifier(&[0x42, 0x68, 0x69], 1),
        Err(custom("invalid type: bytes, expected str or bytes"))
    );
    assert_eq!(
        identifier(&[0x05], 9),
        Err(custom("invalid type: integer `5`, expected str or bytes"))
    );
    assert_eq!(identifier(&[0xc7, 0x41, 0x80], 9), Err(Error::Syntax(1)));
}

#[test]
fn texts_of_any_size() {
    let bytes = [0x64, 0x49, 0x45, 0x54, 0x46];
    for room in 1..6 {
        assert_eq!(text(&bytes, room), Ok("IETF".to_string()));
    }
    assert_eq!(text(&[0x60], 0), Ok(String::new()));
    assert_eq!(text(&[0xc1, 0x61, 0x61], 4), Ok("a".to_string()));
}

#[test]
fn text_whose_characters_cross_the_buffer() {
    let expected = "a\u{fc}\u{6c34}\u{10151}z";
    let mut bytes = vec![0x60 + expected.len() as u8];
    bytes.extend_from_slice(expected.as_bytes());
    for room in 4..14 {
        assert_eq!(text(&bytes, room), Ok(expected.to_string()));
    }
}

#[test]
fn text_through_a_buffer_for_its_widest_character() {
    let expected = "a\u{fc}b\u{fc}\u{fc}c";
    let mut bytes = vec![0x60 + expected.len() as u8];
    bytes.extend_from_slice(expected.as_bytes());
    assert_eq!(text(&bytes, 2), Ok(expected.to_string()));
    assert_eq!(text(&bytes, 3), Ok(expected.to_string()));
}

#[test]
fn text_in_segments() {
    let bytes = [
        0x7f, 0x65, 0x73, 0x74, 0x72, 0x65, 0x61, 0x60, 0x64, 0x6d, 0x69, 0x6e, 0x67, 0xff,
    ];
    assert_eq!(text(&bytes, 4), Ok("streaming".to_string()));
    assert_eq!(text(&[0x7f, 0xff], 0), Ok(String::new()));
    assert_eq!(text(&[0x7f, 0x7f, 0x61, 0x61, 0xff, 0x61, 0x62, 0xff], 4), Ok("ab".to_string()));
}

#[test]
fn texts_that_are_malformed() {
    assert_eq!(text(&[0x61, 0xff], 4), Err(Error::Syntax(0)));
    assert_eq!(text(&[0xc1, 0x62, 0xc3, 0x28], 4), Err(Error::Syntax(1)));
    assert_eq!(text(&[0x7f, 0x61, 0x61, 0x61, 0xc3, 0xff], 4), Err(Error::Syntax(3)));
    assert_eq!(text(&[0x7f, 0x41, 0x61, 0xff], 4), Err(Error::Syntax(1)));
    assert_eq!(text(&[0x65, 0x61, 0x62], 4), Err(Error::Io));
    assert_eq!(text(&[0x7f, 0x61, 0x61], 4), Err(Error::Io));
    assert_eq!(text(&[0x41, 0x61], 4), Err(custom("invalid type: bytes, expected string")));
}

#[test]
fn bytes_that_fit_the_buffer() {
    assert_eq!(short_bytes(&[0x43, 1, 2, 3], 3), Ok(vec![1, 2, 3]));
    assert_eq!(short_bytes(&[0xc4, 0x43, 1, 2, 3], 3), Ok(vec![1, 2, 3]));
    assert_eq!(short_bytes(&[0x40], 0), Ok(vec![]));
    let found = Err(custom("invalid type: bytes, expected bytes"));
    assert_eq!(short_bytes(&[0x43, 1, 2, 3], 2), found);
    assert_eq!(short_bytes(&[0x5f, 0xff], 2), found);
    assert_eq!(short_bytes(&[0x43, 1, 2], 3), Err(Error::Io));
    assert_eq!(
        short_bytes(&[0xa0], 3),
        Err(custom("invalid type: map, expected bytes"))
    );
}

#[test]
fn bytes_of_any_number() {
    for room in 1..5 {
        assert_eq!(byte_buf(&[0x43, 1, 2, 3], room), Ok(vec![1, 2, 3]));
        assert_eq!(byte_buf(&[0x5f, 0x42, 1, 2, 0x40, 0x41, 3, 0xff], room), Ok(vec![1, 2, 3]));
    }
    assert_eq!(byte_buf(&[0x40], 0), Ok(vec![]));
    assert_eq!(byte_buf(&[0x5f, 0x40, 0xff], 0), Ok(vec![]));
    assert_eq!(byte_buf(&[0x5f], 0), Err(Error::Io));
    assert_eq!(byte_buf(&[0x43, 1, 2], 2), Err(Error::Io));
    assert_eq!(byte_buf(&[0x5f, 0x61, 0x61, 0xff], 2), Err(Error::Syntax(1)));
    assert_eq!(
        byte_buf(&[0xf6], 2),
        Err(custom("invalid type: null, expected byte buffer"))
    );
}

#[test]
fn bytes_as_elements() {
    read(&[0xc1, 0x5f, 0x42, 1, 2, 0x41, 3, 0xff], 1, |de| match de.deserialize_seq() {
        Ok(SeqVisitAction::BytesAccess(mut bytes)) => {
            assert_eq!(bytes.size_hint(), Some(3));
            assert_eq!(bytes.next_element_seed(), Some(1));
            assert_eq!(bytes.next_element_seed(), Some(2));
            assert_eq!(bytes.size_hint(), Some(1));
            assert_eq!(bytes.next_element_seed(), Some(3));
            assert_eq!(bytes.next_element_seed(), None);
            assert_eq!(bytes.next_element_seed(), None);
            assert_eq!(bytes.size_hint(), Some(0));
        }
        _ => panic!("no bytes"),
    });
}

#[test]
fn strings_show_themselves() {
    let text = [0x62, 0x68, 0x69];
    assert!(read(&text, 2, |de| matches!(de.deserialize_any(), Ok(Visit::Str("hi")))));
    assert!(read(&text, 1, |de| matches!(
        de.deserialize_any(),
        Ok(Visit::Text(text)) if text == "hi"
    )));
    let bytes = [0x42, 0x68, 0x69];
    assert!(read(&bytes, 2, |de| matches!(
        de.deserialize_any(),
        Ok(Visit::Bytes(BytesVisit::Bytes(&[0x68, 0x69])))
    )));
    assert!(read(&bytes, 1, |de| matches!(
        de.deserialize_any(),
        Ok(Visit::ByteBuf(ByteBufVisit::ByteBuf(bytes))) if bytes == [0x68, 0x69]
    )));
}

#[test]
fn short_and_long_reads_agree() {
    let bytes = [0x64, 0x49, 0x45, 0x54, 0x46];
    assert_eq!(short(&bytes, 4), text(&bytes, 4));
    assert_eq!(short(&bytes, 4), identifier(&bytes, 4));
    let bytes = [0x43, 1, 2, 3];
    assert_eq!(short_bytes(&bytes, 3), byte_buf(&bytes, 3));
}

#[test]
fn string_from_reader_with_buffer() {
    let mut scratch = [0u8; 4];
    assert_eq!(
        from_reader_with_buffer(&[0x62, 0x68, 0x69], &mut scratch, |de| de.deserialize_string()),
        Ok("hi".to_string())
    );
}

#[test]
fn lengths_in_headers() {
    assert_eq!(accept_char_len(Header::Text(Some(4))), Ok(4));
    assert_eq!(
        accept_char_len(Header::Text(Some(5))),
        Err(custom("invalid type: string, expected char"))
    );
    assert_eq!(accept_str_len(Header::Text(Some(8)), 8), Ok(8));
    assert_eq!(
        accept_str_len(Header::Text(Some(9)), 8),
        Err(custom("invalid type: string, expected str"))
    );
    assert_eq!(accept_identifier_len(Header::Bytes(Some(8)), 8), Ok(8));
    assert_eq!(
        accept_identifier_len(Header::Text(None), 8),
        Err(custom("invalid type: string, expected str or bytes"))
    );
    assert_eq!(accept_string(Header::Text(None)), Ok(None));
    assert_eq!(
        accept_string(Header::Break),
        Err(custom("invalid type: break, expected string"))
    );
}

#[test]
fn texts_in_bytes() {
    assert_eq!(accept_text(&[0xc3, 0xbc], 7), Ok("\u{fc}"));
    assert_eq!(accept_text(&[0xc3], 7), Err(Error::Syntax(7)));
    assert_eq!(accept_char(Header::Text(Some(2)), "\u{fc}"), Ok('\u{fc}'));
    assert_eq!(
        accept_char(Header::Text(Some(0)), ""),
        Err(custom("invalid type: string, expected char"))
    );
}

#[test]
fn size_hints_are_bounded() {
    assert_eq!(safe_size_hint(None), 0);
    assert_eq!(safe_size_hint(Some(0)), 0);
    assert_eq!(safe_size_hint(Some(1024)), 1024);
    assert_eq!(safe_size_hint(Some(1025)), 1024);
    assert_eq!(safe_size_hint(Some(usize::MAX)), 1024);
}

#[test]
fn broken_texts_through_a_small_buffer() {
    for room in 1..5 {
        assert_eq!(text(&[0x65, 0x61, 0x62], room), Err(Error::Io));
        assert_eq!(text(&[0x61, 0xff], room), Err(Error::Syntax(0)));
    }
    assert_eq!(text(&[0x63, 0x61, 0xe6, 0xb0], 2), Err(Error::Syntax(0)));
    assert_eq!(text(&[0x64, 0x61, 0xe6, 0xb0], 3), Err(Error::Io));
    assert!(read(&[0x65, 0x61, 0x62], 2, |de| matches!(de.deserialize_any(), Err(Error::Io))));
}

#[test]
fn texts_cut_inside_a_character() {
    for room in 2..6 {
        assert_eq!(text(&[0x62, 0xc3], room), Err(Error::Io));
    }
    let whole = "a\u{fc}\u{6c34}\u{10151}z".as_bytes();
    for room in 4..13 {
        for count in 0..whole.len() {
            let mut bytes = vec![0x60 + whole.len() as u8];
            bytes.extend_from_slice(&whole[..count]);
            assert_eq!(text(&bytes, room), Err(Error::Io));
        }
    }
}

#[test]
fn malformed_texts_are_found_out_chunk_by_chunk() {
    assert_eq!(text(&[0x68, 0xff, 0x61, 0x61, 0x61], 4), Err(Error::Syntax(0)));
    assert_eq!(text(&[0x68, 0x61, 0xff, 0x61, 0x61], 4), Err(Error::Io));
    assert_eq!(text(&[0x68, 0x61, 0xff, 0x61], 3), Err(Error::Io));
}
