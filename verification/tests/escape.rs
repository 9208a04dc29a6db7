use backup_catalog::escape::EscapedString;

#[test]
fn test_escape_good() {
    let ascii = b"Hello world!";
    let escaped = ascii.escaped();
    assert_eq!(escaped, "Hello world!");
}

#[test]
fn test_escape_zero() {
    let ascii = b"Hello \0 world!";
    let escaped = ascii.escaped();
    assert_eq!(escaped, "Hello \0 world!");
}

#[test]
fn test_escape_wrong_unicode() {
    let ascii = b"Hello \xC3\x28 world!";
    let escaped = ascii.escaped();
    assert_eq!(escaped, "Hello \\xC3( world!");
}

#[test]
fn test_escape_wrong_unicode_another() {
    let ascii = b"Hello \xF4\xBF\xBF\xBF world!";
    let escaped = ascii.escaped();
    assert_eq!(escaped, "Hello \\xF4\\xBF\\xBF\\xBF world!");
}
