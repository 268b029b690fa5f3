use gdk_display::translate::{flag_from_native, text_to_native};

#[test]
fn zero_is_false() {
    assert!(!flag_from_native(0));
}

#[test]
fn one_is_true() {
    assert!(flag_from_native(1));
}

#[test]
fn any_other_value_is_true() {
    assert!(flag_from_native(2));
    assert!(flag_from_native(-1));
    assert!(flag_from_native(i32::MAX));
    assert!(flag_from_native(i32::MIN));
}

#[test]
fn display_name_gets_a_terminator() {
    assert_eq!(text_to_native(":0"), Some(vec![b':', b'0', 0]));
    assert_eq!(
        text_to_native("host:1.0"),
        Some(vec![b'h', b'o', b's', b't', b':', b'1', b'.', b'0', 0])
    );
}

#[test]
fn empty_text_is_a_lone_terminator() {
    assert_eq!(text_to_native(""), Some(vec![0]));
}

#[test]
fn text_beyond_ascii_keeps_its_utf8_bytes() {
    assert_eq!(text_to_native("é"), Some(vec![0xC3, 0xA9, 0]));
    assert_eq!(text_to_native("日本"), Some(vec![0xE6, 0x97, 0xA5, 0xE6, 0x9C, 0xAC, 0]));
}

#[test]
fn interior_nul_is_refused() {
    assert_eq!(text_to_native("a\0b"), None);
}

#[test]
fn leading_and_trailing_nul_are_refused() {
    assert_eq!(text_to_native("\0"), None);
    assert_eq!(text_to_native("\0abc"), None);
    assert_eq!(text_to_native("abc\0"), None);
}

#[test]
fn native_form_is_one_byte_longer_and_ends_in_its_only_nul() {
    let id = "launcher-42_TIME1234";
    let buf = text_to_native(id).unwrap();
    assert_eq!(buf.len(), id.len() + 1);
    assert_eq!(buf.iter().position(|b| *b == 0), Some(id.len()));
    assert_eq!(&buf[..id.len()], id.as_bytes());
}
