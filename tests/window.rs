use ffremote::window::{parse_window, window_arg, WindowError};

#[test]
fn window_decimal_and_hex() {
    assert!(matches!(parse_window("123"), Ok(123)));
    assert!(matches!(parse_window("0x1a"), Ok(26)));
    assert!(matches!(parse_window("0x1A"), Ok(26)));
    assert!(matches!(parse_window("+7"), Ok(7)));
    assert!(matches!(parse_window("0xffffffff"), Ok(4294967295)));
    assert!(matches!(parse_window("4294967295"), Ok(4294967295)));
}

#[test]
fn window_rejects_bad_input() {
    assert!(matches!(parse_window(""), Err(WindowError::Invalid)));
    assert!(matches!(parse_window("0x"), Err(WindowError::Invalid)));
    assert!(matches!(parse_window("4294967296"), Err(WindowError::Invalid)));
    assert!(matches!(parse_window("0x100000000"), Err(WindowError::Invalid)));
    assert!(matches!(parse_window("1a"), Err(WindowError::Invalid)));
    assert!(matches!(parse_window("-1"), Err(WindowError::Invalid)));
    assert!(matches!(parse_window("+"), Err(WindowError::Invalid)));
}

#[test]
fn window_missing() {
    assert!(matches!(window_arg(None), Err(WindowError::Missing)));
    assert!(matches!(window_arg(Some("0x10")), Ok(16)));
}

#[test]
fn window_given_but_unparsable() {
    assert!(matches!(window_arg(Some("zz")), Err(WindowError::Invalid)));
    assert!(matches!(window_arg(Some("")), Err(WindowError::Invalid)));
}
