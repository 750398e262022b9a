use devcon::number::{parse_i64, parse_usize, to_decimal};
use devcon::path::{file_name, join, parent, strip_prefix};
use devcon::request::text_of;
use devcon::text;
use std::path::Path;

#[test]
fn whitespace_is_that_of_the_standard_library() {
    for n in 0..=0x10ffff_u32 {
        if let Some(c) = char::from_u32(n) {
            assert_eq!(text::is_whitespace(c), c.is_whitespace(), "{n:x}");
        }
    }
}

#[test]
fn trims_and_splits_as_the_standard_library_does() {
    for s in ["", " ", "a", " a b ", "\u{3000}é\t", "a\tb\t\tc\t", "x,y", ",", "\n\na\r\nb\r\r\n"] {
        assert_eq!(text::trim(s), s.trim());
        assert_eq!(text::trim_start(s), s.trim_start());
        assert_eq!(text::trim_end(s), s.trim_end());
        assert_eq!(text::split(s, '\t'), s.split('\t').collect::<Vec<_>>());
        assert_eq!(text::splitn(s, 2, '\t'), s.splitn(2, '\t').collect::<Vec<_>>());
        assert_eq!(text::split_once(s, ','), s.split_once(','));
        assert_eq!(text::lines(s), s.lines().collect::<Vec<_>>());
        assert_eq!(text::trim_end_matches(s, ' '), s.trim_end_matches(' '));
        assert_eq!(text::contains(s, "b"), s.contains("b"));
        assert_eq!(text::contains(s, ""), s.contains(""));
        assert_eq!(text::starts_with(s, "a"), s.starts_with("a"));
        assert_eq!(text::ends_with(s, "b"), s.ends_with("b"));
        assert_eq!(text::replace(s, "a", "aa"), s.replace("a", "aa"));
        for t in ["", "A", "a", "é", "z"] {
            assert_eq!(text::is_before(s, t), s < t);
            assert_eq!(text::eq_ignore_ascii_case(s, t), s.eq_ignore_ascii_case(t));
        }
    }
    assert_eq!(text::replace("aaa", "aa", "b"), "ba");
    assert_eq!(text::join(&vec!["a".to_string(), "b".to_string()], ", "), "a, b");
}

#[test]
fn numbers_read_as_the_standard_library_reads_them() {
    for s in [
        "", "0", "-0", "+7", "-7", "007", "9223372036854775807", "9223372036854775808",
        "-9223372036854775808", "-9223372036854775809", "18446744073709551615",
        "18446744073709551616", "99999999999999999999999", "+", "-", "1 ", "1a", "٣",
    ] {
        assert_eq!(parse_i64(s), s.parse::<i64>().ok(), "{s}");
        assert_eq!(parse_usize(s), s.parse::<usize>().ok(), "{s}");
    }
    for n in [0, 9, 10, 65535, u64::MAX] {
        assert_eq!(to_decimal(n), n.to_string());
    }
}

#[test]
fn paths_join_and_part_as_the_standard_library_does() {
    for p in ["/", "/a", "/a/b", "/a/b/", "a", "a/b", "", ".", "/a/.", "/a/..", "//a//b//", "./a"] {
        let std_name = Path::new(p).file_name().map(|n| n.to_str().unwrap().to_string());
        assert_eq!(file_name(p), std_name, "{p}");
        let std_parent = Path::new(p).parent().map(|n| n.to_str().unwrap());
        assert_eq!(parent(p), std_parent, "{p}");
        for q in ["x", "x/y", "/x", ""] {
            assert_eq!(join(p, q), Path::new(p).join(q).to_str().unwrap(), "{p} {q}");
        }
        for b in ["/", "/a", "a", "", "/a/b", "."] {
            let std_rest = Path::new(p).strip_prefix(b).ok().map(|r| r.to_str().unwrap());
            assert_eq!(strip_prefix(p, b), std_rest, "{p} {b}");
        }
    }
}

#[test]
fn bytes_that_are_no_text_are_replaced() {
    assert_eq!(text_of(&vec![b'a', 0xff, b'b']), "a\u{fffd}b");
    assert_eq!(text_of(&"é→".as_bytes().to_vec()), "é→");
}

/// Every text of up to `n` of the given chars.
fn every(alphabet: &[char], n: usize) -> Vec<String> {
    let mut out = vec![String::new()];
    let mut last = vec![String::new()];
    for _ in 0..n {
        let mut next = Vec::new();
        for s in &last {
            for c in alphabet {
                let mut longer = s.clone();
                longer.push(*c);
                next.push(longer);
            }
        }
        out.extend(next.iter().cloned());
        last = next;
    }
    out
}

#[test]
fn short_paths_part_as_the_standard_library_parts_them() {
    let bases = every(&['/', '.', 'a'], 3);
    for p in every(&['/', '.', 'a', 'b'], 5) {
        let path = Path::new(&p);
        let name = path.file_name().map(|n| n.to_str().unwrap().to_string());
        assert_eq!(file_name(&p), name, "{p}");
        assert_eq!(parent(&p), path.parent().map(|n| n.to_str().unwrap()), "{p}");
        for b in &bases {
            let rest = path.strip_prefix(b).ok().map(|r| r.to_str().unwrap());
            assert_eq!(strip_prefix(&p, b), rest, "{p} {b}");
            assert_eq!(join(&p, b), path.join(b).to_str().unwrap(), "{p} {b}");
        }
    }
}

#[test]
fn short_texts_part_as_the_standard_library_parts_them() {
    for s in every(&['a', ' ', '\t', '\n', '\r', 'é'], 5) {
        assert_eq!(text::trim(&s), s.trim());
        assert_eq!(text::split(&s, '\t'), s.split('\t').collect::<Vec<_>>());
        assert_eq!(text::splitn(&s, 3, '\t'), s.splitn(3, '\t').collect::<Vec<_>>());
        assert_eq!(text::lines(&s), s.lines().collect::<Vec<_>>());
        assert_eq!(text::split_once(&s, 'a'), s.split_once('a'));
        assert_eq!(text::replace(&s, "aa", "x"), s.replace("aa", "x"));
        assert_eq!(text::trim_end_matches(&s, 'a'), s.trim_end_matches('a'));
    }
}
