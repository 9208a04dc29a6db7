use std::collections::hash_map::DefaultHasher;
use std::hash::Hasher;
use std::path::PathBuf;

use backup_catalog::escape::EscapedString;
use backup_catalog::crop::u64_to_ascii;
use backup_catalog::path::{EncodedPath, External, Local};

fn external(bytes: &[u8]) -> EncodedPath<External> {
    EncodedPath::from_vec(bytes.to_vec())
}

#[test]
fn normalized_turns_the_separator_into_slashes() {
    let p = EncodedPath::normalized(b"a\\b\\c/d".to_vec(), b'\\');
    assert_eq!(p.as_bytes(), b"a/b/c/d");
    let p = EncodedPath::normalized(b"a:b".to_vec(), b':');
    assert_eq!(p.as_bytes(), b"a/b");
    let p = EncodedPath::normalized(b"a/b".to_vec(), b'/');
    assert_eq!(p.as_bytes(), b"a/b");
    let p = EncodedPath::normalized(Vec::new(), b'/');
    assert_eq!(p.as_bytes(), b"");
}

#[test]
fn from_vec_keeps_the_length_and_the_slashes() {
    let p = external(b"dir/sub/file.txt");
    assert_eq!(p.as_bytes(), b"dir/sub/file.txt");
    let q = external(b"x\xffy");
    assert_eq!(q.as_bytes().len(), 3);
}

#[test]
fn to_raw_turns_slashes_into_the_separator() {
    let p: EncodedPath<Local> = external(b"a/b/c").cast_to();
    assert_eq!(p.to_raw(b'\\'), b"a\\b\\c");
    assert_eq!(p.to_raw(b'/'), b"a/b/c");
}

#[test]
fn path_goes_to_bytes_and_back() {
    let given = PathBuf::from("some").join("dir").join("file.bin");
    let encoded = EncodedPath::from_path(given.clone());
    assert_eq!(encoded.as_bytes(), b"some/dir/file.bin");
    assert_eq!(encoded.to_path().unwrap(), given);
}

#[test]
fn cast_and_clone_keep_the_bytes() {
    let p = external(b"a/b");
    let q: EncodedPath<Local> = p.clone().cast_to();
    assert_eq!(q.as_bytes(), p.as_bytes());
}

#[test]
fn split_parent_parts_at_the_last_slash() {
    let p = external(b"dir/sub/file.txt");
    assert_eq!(p.split_parent(), (&b"dir/sub"[..], &b"/file.txt"[..]));
    let p = external(b"/file");
    assert_eq!(p.split_parent(), (&b""[..], &b"/file"[..]));
    let p = external(b"dir/");
    assert_eq!(p.split_parent(), (&b"dir"[..], &b"/"[..]));
}

#[test]
fn split_parent_of_a_bare_name_has_no_parent() {
    let p = external(b"file.txt");
    assert_eq!(p.split_parent(), (&b""[..], &b"file.txt"[..]));
    let p = external(b"");
    assert_eq!(p.split_parent(), (&b""[..], &b""[..]));
}

#[test]
fn number_is_written_to_base_forty_one() {
    assert_eq!(&u64_to_ascii(0), b"YYYYYYYYYYYY");
    assert_eq!(&u64_to_ascii(1), b"XYYYYYYYYYYY");
    assert_eq!(&u64_to_ascii(24), b"AYYYYYYYYYYY");
    assert_eq!(&u64_to_ascii(25), b"9YYYYYYYYYYY");
    assert_eq!(&u64_to_ascii(34), b"0YYYYYYYYYYY");
    assert_eq!(&u64_to_ascii(35), b"#YYYYYYYYYYY");
    assert_eq!(&u64_to_ascii(36), b"_YYYYYYYYYYY");
    assert_eq!(&u64_to_ascii(37), b"=YYYYYYYYYYY");
    assert_eq!(&u64_to_ascii(38), b"!YYYYYYYYYYY");
    assert_eq!(&u64_to_ascii(39), b"+YYYYYYYYYYY");
    assert_eq!(&u64_to_ascii(40), b"-YYYYYYYYYYY");
    assert_eq!(&u64_to_ascii(41), b"YXYYYYYYYYYY");
    assert_eq!(&u64_to_ascii(41 * 41 + 2 * 41 + 3), b"VWXYYYYYYYYY");
}

#[test]
fn number_of_any_size_fits_twelve_symbols() {
    // 18446744073709551615 = sum of d_i * 41^i
    let mut left = u64::MAX;
    let mut digits = Vec::new();
    for _ in 0..12 {
        digits.push((left % 41) as usize);
        left /= 41;
    }
    assert_eq!(left, 0);
    let alphabet = b"YXWVUTSRQPONMLKJIHGFEDCBA9876543210#_=!+-";
    assert_eq!(alphabet.len(), 41);
    let want: Vec<u8> = digits.iter().map(|d| alphabet[*d]).collect();
    assert_eq!(u64_to_ascii(u64::MAX).to_vec(), want);
    assert_ne!(u64_to_ascii(u64::MAX), u64_to_ascii(u64::MAX - 1));
}

fn hash_of(bytes: &[u8]) -> [u8; 12] {
    let mut hasher = DefaultHasher::new();
    hasher.write(bytes);
    u64_to_ascii(hasher.finish())
}

#[test]
fn crop_hands_back_a_name_that_fits() {
    let p = external(b"short.txt");
    assert_eq!(&*p.crop_name_to(9), b"short.txt");
    assert_eq!(&*p.crop_name_to(100), b"short.txt");
    let p = external(b"");
    assert_eq!(&*p.crop_name_to(0), b"");
}

#[test]
fn crop_keeps_front_hash_and_extension() {
    let long = b"a_very_long_file_name_that_goes_on_and_on.tar";
    let p = external(long);
    let cropped = p.crop_name_to(30);
    assert_eq!(cropped.len(), 30);
    let mut want = Vec::new();
    want.extend_from_slice(&long[..30 - 4 - 12]);
    want.extend_from_slice(&hash_of(long));
    want.extend_from_slice(b".tar");
    assert_eq!(&*cropped, &want[..]);
    assert!(cropped.starts_with(b"a_very_long_fi"));
    assert!(cropped.ends_with(b".tar"));
}

#[test]
fn crop_without_an_extension_ends_in_the_hash() {
    let long = b"no_extension_in_the_last_ten_bytes";
    let p = external(long);
    let cropped = p.crop_name_to(20);
    let mut want = long[..8].to_vec();
    want.extend_from_slice(&hash_of(long));
    assert_eq!(&*cropped, &want[..]);
}

#[test]
fn crop_looks_for_the_dot_in_the_last_ten_bytes_only() {
    let long = b"v1.2_and_then_more_than_ten_bytes";
    let p = external(long);
    let cropped = p.crop_name_to(12);
    assert_eq!(&*cropped, &hash_of(long)[..]);
    let dotted = b"archive_of_things.tar.gz";
    let p = external(dotted);
    let cropped = p.crop_name_to(20);
    let mut want = dotted[..5].to_vec();
    want.extend_from_slice(&hash_of(dotted));
    want.extend_from_slice(b".gz");
    assert_eq!(&*cropped, &want[..]);
}

#[test]
fn crop_tells_long_names_apart() {
    let a = external(b"the_same_front_but_one_end.txt");
    let b = external(b"the_same_front_but_two_end.txt");
    assert_ne!(a.crop_name_to(20), b.crop_name_to(20));
}

#[test]
fn escaped_path_shows_its_bytes() {
    let p = external(b"dir/\xffname");
    assert_eq!(p.escaped(), "dir/\\xFFname");
}

#[test]
fn escape_keeps_text_of_every_width() {
    let text = "a\u{e9}\u{20ac}\u{1f600}z";
    assert_eq!(text.as_bytes().escaped(), text);
    assert_eq!(b"".escaped(), "");
}

#[test]
fn escape_shows_a_sequence_cut_short() {
    assert_eq!(b"ab\xe2\x82".escaped(), "ab\\xE2\\x82");
    assert_eq!(b"\xc3".escaped(), "\\xC3");
    assert_eq!(b"\xf0\x9f\x98".escaped(), "\\xF0\\x9F\\x98");
}

#[test]
fn escape_shows_overlong_and_surrogate_forms() {
    assert_eq!(b"\xc0\x80".escaped(), "\\xC0\\x80");
    assert_eq!(b"\xe0\x80\x80".escaped(), "\\xE0\\x80\\x80");
    assert_eq!(b"\xed\xa0\x80".escaped(), "\\xED\\xA0\\x80");
    assert_eq!(b"\xf4\x90\x80\x80".escaped(), "\\xF4\\x90\\x80\\x80");
    assert_eq!(b"\xf8".escaped(), "\\xF8");
    assert_eq!(b"\x80".escaped(), "\\x80");
}

#[test]
fn escape_writes_two_upper_case_digits() {
    assert_eq!(b"\xab\x8f\xa0\xff".escaped(), "\\xAB\\x8F\\xA0\\xFF");
    assert_eq!(b"\x0f".escaped(), "\u{f}");
    assert_eq!(b"\x9a".escaped(), "\\x9A");
}

#[test]
fn escape_agrees_with_the_lossy_reading_on_text() {
    for bytes in [&b"plain"[..], &"gr\u{fc}n".as_bytes()[..], &b"tab\there"[..]] {
        assert_eq!(bytes.escaped(), String::from_utf8_lossy(bytes));
    }
}
