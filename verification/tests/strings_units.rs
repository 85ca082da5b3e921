use core_json::{non_ascii_utf8_codepoint_len, read_hex, utf8_codepoint_to_char, validate_hex};

#[test]
fn string_test_non_ascii_utf8_codepoint_len() {
    let mut unicode = 1;
    while char::from_u32(unicode).map(char::len_utf8).unwrap_or(0) != 2 {
        unicode <<= 1;
    }
    assert_eq!(
        non_ascii_utf8_codepoint_len(char::from_u32(unicode).unwrap().to_string().as_bytes()[0]),
        2
    );
    while char::from_u32(unicode).map(char::len_utf8).unwrap_or(0) != 3 {
        unicode <<= 1;
    }
    assert_eq!(
        non_ascii_utf8_codepoint_len(char::from_u32(unicode).unwrap().to_string().as_bytes()[0]),
        3
    );
    while char::from_u32(unicode).map(char::len_utf8).unwrap_or(0) != 4 {
        unicode <<= 1;
    }
    assert_eq!(
        non_ascii_utf8_codepoint_len(char::from_u32(unicode).unwrap().to_string().as_bytes()[0]),
        4
    );
}

#[test]
fn unicode_test_non_ascii_utf8_codepoint_len() {
    let mut unicode = 1;
    while char::from_u32(unicode).map(char::len_utf8).unwrap_or(0) != 2 {
        unicode <<= 1;
    }
    assert_eq!(
        non_ascii_utf8_codepoint_len(char::from_u32(unicode).unwrap().to_string().as_bytes()[0]),
        2
    );
    while char::from_u32(unicode).map(char::len_utf8).unwrap_or(0) != 3 {
        unicode <<= 1;
    }
    assert_eq!(
        non_ascii_utf8_codepoint_len(char::from_u32(unicode).unwrap().to_string().as_bytes()[0]),
        3
    );
    while char::from_u32(unicode).map(char::len_utf8).unwrap_or(0) != 4 {
        unicode <<= 1;
    }
    assert_eq!(
        non_ascii_utf8_codepoint_len(char::from_u32(unicode).unwrap().to_string().as_bytes()[0]),
        4
    );
}

#[test]
fn string_test_validate_hex() {
    let mut hex = [0, b'f', b'f', b'f'];
    for i in u8::MIN..=u8::MAX {
        hex[0] = i;
        assert_eq!(validate_hex(hex), hex[0].is_ascii_hexdigit());
    }
}

#[test]
fn hex_test_validate_hex() {
    let mut hex = [0, b'f', b'f', b'f'];
    for i in u8::MIN..=u8::MAX {
        hex[0] = i;
        assert_eq!(validate_hex(hex), hex[0].is_ascii_hexdigit());
    }
}

#[test]
fn test_utf8_codepoint_to_char() {
    let mut unicode = 1;
    while char::from_u32(unicode).map(char::len_utf8).unwrap_or(0) != 2 {
        unicode <<= 1;
    }
    assert_eq!(
        utf8_codepoint_to_char(char::from_u32(unicode).unwrap().to_string().as_bytes()).unwrap(),
        char::from_u32(unicode).unwrap()
    );
    while char::from_u32(unicode).map(char::len_utf8).unwrap_or(0) != 3 {
        unicode <<= 1;
    }
    assert_eq!(
        utf8_codepoint_to_char(char::from_u32(unicode).unwrap().to_string().as_bytes()).unwrap(),
        char::from_u32(unicode).unwrap()
    );
    while char::from_u32(unicode).map(char::len_utf8).unwrap_or(0) != 4 {
        unicode <<= 1;
    }
    assert_eq!(
        utf8_codepoint_to_char(char::from_u32(unicode).unwrap().to_string().as_bytes()).unwrap(),
        char::from_u32(unicode).unwrap()
    );
}

#[test]
fn test_read_hex() {
    assert_eq!(read_hex([b'0', b'0', b'4', b'1']).unwrap(), 0x41);
    assert_eq!(read_hex([b'f', b'F', b'a', b'A']).unwrap(), 0xFFAA);
    assert_eq!(read_hex([b'd', b'8', b'3', b'd']).unwrap(), 0xD83D);
    assert!(read_hex([b'0', b'0', b'0', b'g']).is_err());
}
