use pistachio_dictionary::error::AppError;
use pistachio_dictionary::text::{is_whitespace, push_decimal, push_decimal_i64, trim};

#[test]
fn trim_removes_unicode_whitespace() {
    assert_eq!(trim("  \t hello world \n"), "hello world");
    assert_eq!(trim("\u{3000}开心\u{00A0}"), "开心");
    assert_eq!(trim("   "), "");
    assert_eq!(trim(""), "");
    assert_eq!(trim("x"), "x");
}

#[test]
fn whitespace_matches_std() {
    for c in ['\t', '\n', '\u{B}', '\u{C}', '\r', ' ', '\u{85}', '\u{A0}', '\u{1680}', '\u{2000}', '\u{200A}', '\u{2028}', '\u{2029}', '\u{202F}', '\u{205F}', '\u{3000}', 'a', '0', '开', '\u{200B}', '\u{FEFF}'] {
        assert_eq!(is_whitespace(c), c.is_whitespace(), "char {:?}", c);
    }
}

#[test]
fn decimal_rendering() {
    let mut s = String::from("n=");
    push_decimal(&mut s, 0);
    assert_eq!(s, "n=0");
    let mut s = String::new();
    push_decimal(&mut s, 1234567890);
    assert_eq!(s, "1234567890");
    let mut s = String::new();
    push_decimal(&mut s, u64::MAX);
    assert_eq!(s, u64::MAX.to_string());
    let mut s = String::new();
    push_decimal_i64(&mut s, -42);
    assert_eq!(s, "-42");
    let mut s = String::new();
    push_decimal_i64(&mut s, i64::MIN);
    assert_eq!(s, i64::MIN.to_string());
}

#[test]
fn error_messages() {
    assert_eq!(AppError::Db("disk I/O error".into()).message(), "database error: disk I/O error");
    assert_eq!(AppError::Io("denied".into()).message(), "io error: denied");
    assert_eq!(AppError::Network("timeout".into()).message(), "network error: timeout");
    assert_eq!(AppError::NotFound("list 7".into()).message(), "not found: list 7");
    assert_eq!(
        AppError::Duplicate("'开心' is already in list 'HSK'".into()).message(),
        "duplicate: '开心' is already in list 'HSK'"
    );
    assert_eq!(AppError::Invalid("bad".into()).message(), "invalid input: bad");
    assert_eq!(
        AppError::SyncNotConfigured.message(),
        "sync not configured: set a Bingqilin server URL and token first"
    );
    assert_eq!(AppError::Other("anything".into()).message(), "anything");
}

#[test]
fn duplicate_errors_carry_the_ui_prefix() {
    let e = AppError::Duplicate("x".into());
    assert!(e.message().starts_with("duplicate:"));
    for e in [
        AppError::Db("duplicate: x".into()),
        AppError::NotFound("duplicate: x".into()),
        AppError::Invalid("x".into()),
        AppError::SyncNotConfigured,
    ] {
        assert!(!e.message().starts_with("duplicate:"));
    }
}
