//! Text, numbers, paths, orders and doubles.

use sapphire_workspace::double::Double;
use sapphire_workspace::number::{
    parse_i32, parse_u32, parse_usize, push_decimal, push_hex, signed_text,
};
use sapphire_workspace::paths;
use sapphire_workspace::text::{
    contains, ends_with, is_whitespace, join, lines, normalise, same_text, squeeze, starts_with,
    text_before, trim,
};

#[test]
fn whitespace_agrees_with_the_standard_library() {
    for c in '\u{0}'..=char::MAX {
        assert_eq!(is_whitespace(c), c.is_whitespace());
    }
}

#[test]
fn trimming_agrees_with_the_standard_library() {
    for s in ["", " ", "a", "\t a b\u{a0}\n", "\u{2003}x", "é ", "\r\n\r\n"] {
        assert_eq!(trim(s), s.trim());
    }
}

#[test]
fn lines_agree_with_the_standard_library() {
    for s in ["", "\n", "a", "a\n", "a\nb", "a\r\nb\r", "\r\n", "\r", "a\n\n\nb\n", "\n\ra", "x\r\r\n"] {
        let expected: Vec<&str> = s.lines().collect();
        assert_eq!(lines(s), expected);
    }
}

#[test]
fn searching_agrees_with_the_standard_library() {
    let texts = ["", "a", "ab", "aab", "abcabc", "日本語", "\u{1F600}x"];
    for s in texts {
        for p in texts {
            assert_eq!(contains(s, p), s.contains(p));
            assert_eq!(starts_with(s, p), s.starts_with(p));
            assert_eq!(ends_with(s, p), s.ends_with(p));
            assert_eq!(same_text(s, p), s == p);
            assert_eq!(text_before(s, p), s < p);
        }
    }
}

#[test]
fn squeezing_and_normalising() {
    assert_eq!(squeeze("a\n\n\n\nb\n\n"), "a\nb\n");
    assert_eq!(normalise("  a\n\nb\n \n"), "a\nb");
    assert_eq!(normalise("a\n \n\nb"), "a\n \nb");
    for s in ["", "x", "a\n\nb", "\n\na\n", " a\n\nb\nc "] {
        assert_eq!(normalise(s), s.replace("\n\n", "\n").trim());
    }
    assert_eq!(join(&vec!["a".to_owned(), "".to_owned(), "b".to_owned()], ", "), "a, , b");
    assert_eq!(join(&Vec::new(), ", "), "");
}

#[test]
fn numbers_agree_with_the_standard_library() {
    let texts = [
        "", "0", "7", "+7", "-7", "+", "-", "00012", "4294967295", "4294967296", "2147483647",
        "2147483648", "-2147483648", "-2147483649", "18446744073709551615", "18446744073709551616",
        "1 ", " 1", "1_0", "٣", "+-1", "99999999999999999999999999",
    ];
    for s in texts {
        assert_eq!(parse_u32(s), s.parse::<u32>().ok());
        assert_eq!(parse_usize(s), s.parse::<usize>().ok());
        assert_eq!(parse_i32(s), s.parse::<i32>().ok());
    }
    for n in [0, 9, 10, 1234567890, u64::MAX] {
        let mut out = "n = ".to_owned();
        push_decimal(&mut out, n);
        assert_eq!(out, format!("n = {n}"));
    }
    for n in [0, -1, 42, i64::MAX, i64::MIN] {
        assert_eq!(signed_text(n), n.to_string());
    }
    let mut out = String::new();
    push_hex(&mut out, 0xcbf29ce484222325, 16);
    assert_eq!(out, "cbf29ce484222325");
}

#[test]
fn joining_paths_as_the_standard_library_does() {
    let parts = ["", "/", "a", "a/", "/a", "a/b", ".", "../x"];
    for a in parts {
        for b in parts {
            let expected = std::path::Path::new(a).join(b);
            assert_eq!(paths::join(a, b), expected.to_str().unwrap());
            let joined = paths::FsPath::from_text(a).join(b);
            assert_eq!(joined.raw, expected.to_str().unwrap().as_bytes());
            assert_eq!(joined.text, expected.to_str().unwrap());
        }
    }
}

#[test]
fn stripping_paths_as_the_standard_library_does() {
    let bases = ["/w", "/w/", "/", "w", "/w/a"];
    let all = ["/w/a/b.md", "/w//a/./b.md", "/w", "/x/w/a", "w/a", "/wa", "./w/a", "/w/.."];
    for base in bases {
        for path in all {
            let expected = std::path::Path::new(path).strip_prefix(base).ok().map(|p| {
                let parts: Vec<&str> = p.components().map(|c| c.as_os_str().to_str().unwrap()).collect();
                parts.join("/")
            });
            let rest = paths::strip_prefix(path.as_bytes(), base.as_bytes());
            assert_eq!(rest, expected.map(String::into_bytes));
        }
    }
}

#[test]
fn paths_keep_bytes_that_are_no_text() {
    let dir = paths::FsPath { raw: b"/w/\xff".to_vec(), text: "/w/\u{fffd}".to_owned() };
    let file = dir.join("a.db").with_suffix("-wal");
    assert_eq!(file.raw, b"/w/\xff/a.db-wal");
    assert_eq!(file.text, "/w/\u{fffd}/a.db-wal");
    assert_eq!(paths::strip_prefix(&file.raw, b"/w/"), Some(b"\xff/a.db-wal".to_vec()));
    assert_eq!(paths::strip_prefix(&file.raw, b"/w/\xfe"), None);
    assert_eq!(dir.join("/x").raw, b"/x");
}

#[test]
fn doubles_are_ordered_as_numbers() {
    let values = [
        f64::NEG_INFINITY, -1.5, -f64::MIN_POSITIVE, -0.0, 0.0, 5e-324, 1.0, 1.0000000000000002,
        f64::MAX, f64::INFINITY, f64::NAN,
    ];
    for a in values {
        for b in values {
            let x = Double { bits: a.to_bits() };
            let y = Double { bits: b.to_bits() };
            assert_eq!(x.less(y), a < b);
        }
        assert_eq!(Double { bits: a.to_bits() }.has_value(), !a.is_nan());
    }
    assert_eq!(f64::from_bits(Double::zero().bits), 0.0);
}
