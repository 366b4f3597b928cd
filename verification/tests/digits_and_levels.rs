use gpio_api::digits::{parse_index, u32_text};
use gpio_api::line::{level_str, LineError};

#[test]
fn renders_decimal() {
    assert_eq!(u32_text(0), "0");
    assert_eq!(u32_text(7), "7");
    assert_eq!(u32_text(10), "10");
    assert_eq!(u32_text(509), "509");
    assert_eq!(u32_text(u32::MAX), "4294967295");
}

#[test]
fn parses_plain_indices() {
    assert_eq!(parse_index("0"), Some(0));
    assert_eq!(parse_index("1"), Some(1));
    assert_eq!(parse_index("27"), Some(27));
    assert_eq!(parse_index("000"), Some(0));
    assert_eq!(parse_index("018"), Some(18));
}

#[test]
fn rejects_non_indices() {
    assert_eq!(parse_index(""), None);
    assert_eq!(parse_index("-1"), None);
    assert_eq!(parse_index("+1"), None);
    assert_eq!(parse_index("two"), None);
    assert_eq!(parse_index("1 "), None);
    assert_eq!(parse_index("1.5"), None);
}

#[test]
fn rejects_oversized_indices() {
    assert_eq!(parse_index("18446744073709551615"), Some(usize::MAX));
    assert_eq!(parse_index("18446744073709551616"), None);
    assert_eq!(parse_index("99999999999999999999999999999999"), None);
}

#[test]
fn level_texts() {
    assert_eq!(level_str(&Ok(0)), "0");
    assert_eq!(level_str(&Ok(1)), "1");
    assert_eq!(level_str(&Ok(2)), "err");
    assert_eq!(level_str(&Ok(255)), "err");
    let failed: Result<u8, LineError> = Err(LineError {
        message: String::from("read failed"),
    });
    assert_eq!(level_str(&failed), "err");
}

#[test]
fn line_error_keeps_its_message() {
    let e = LineError {
        message: String::from("permission denied"),
    };
    assert_eq!(e.text().as_str(), "permission denied");
}
