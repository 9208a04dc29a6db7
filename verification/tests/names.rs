use backup_catalog::error::Error;
use backup_catalog::name::SqlName;

fn text(s: &str) -> String {
    s.to_string()
}

#[test]
fn name_keeps_its_text() {
    for good in ["a", "Z", "snap", "at2021_01_02", "x_", "a0_B9", "diff_a_vs_b"] {
        let name = SqlName::new(text(good)).unwrap();
        assert_eq!(name.as_str(), good);
    }
}

#[test]
fn name_refuses_the_empty_text() {
    let e = SqlName::new(String::new()).unwrap_err();
    assert_eq!(e.name, "");
}

#[test]
fn name_refuses_a_leading_digit() {
    let e = SqlName::new(text("1abc")).unwrap_err();
    assert_eq!(e.name, "1abc");
}

#[test]
fn name_refuses_a_leading_underscore() {
    assert!(SqlName::new(text("_abc")).is_err());
}

#[test]
fn name_refuses_what_could_end_a_statement() {
    for bad in ["a;b", "a b", "a'b", "a\"b", "a-b", "a.b", "a/b", "a\u{e9}", "\u{e9}a", "a\n"] {
        let e = SqlName::new(text(bad)).unwrap_err();
        assert_eq!(e.name, bad);
    }
}

#[test]
fn name_accepts_every_char_of_the_grammar() {
    let all = "abcdefghijklmnopqrstuvwxyzABCDEFGHIJKLMNOPQRSTUVWXYZ0123456789_";
    assert_eq!(SqlName::new(text(all)).unwrap().as_str(), all);
}

#[test]
fn name_refuses_neighbours_of_the_grammar() {
    for c in ['@', '[', '`', '{', '/', ':'] {
        let mut s = text("a");
        s.push(c);
        assert!(SqlName::new(s).is_err());
        assert!(SqlName::new(c.to_string()).is_err());
    }
}

#[test]
fn names_compare_by_their_text() {
    let a = SqlName::new(text("abc")).unwrap();
    let b = SqlName::new(text("abc")).unwrap();
    let c = SqlName::new(text("abd")).unwrap();
    assert!(a == b);
    assert!(a != c);
    assert!(a.clone() == a);
    assert!(SqlName::from(&a) == a);
}

#[test]
fn name_of_now_is_written_after_the_pattern() {
    let name = SqlName::now().unwrap();
    let s = name.as_str();
    // at, year, month, day, hour, minute, second, nanosecond
    assert!(s.starts_with("at"));
    let parts: Vec<&str> = s[2..].split('_').collect();
    assert_eq!(parts.len(), 7);
    let widths = [4, 2, 2, 2, 2, 2, 9];
    for (part, width) in parts.iter().zip(widths.iter()) {
        assert_eq!(part.len(), *width);
        assert!(part.chars().all(|c| c.is_ascii_digit()));
    }
    let month: u32 = parts[1].parse().unwrap();
    assert!((1..=12).contains(&month));
}

#[test]
fn invalid_name_becomes_an_error() {
    let e = SqlName::new(text("9")).unwrap_err();
    match Error::from(e) {
        Error::InvalidName(n) => assert_eq!(n.name, "9"),
        other => panic!("unexpected: {:?}", other),
    }
}
