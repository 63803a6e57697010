//! Texts, numbers, order, tables and paths.
use moulin::number::{format_i32, format_in, format_permissions, format_u64, parse_number, parse_u64};
use moulin::order::is_before;
use moulin::path::{
    components, file_name, has_climb, is_same_path, is_under, join, parent, show,
};
use moulin::table::StringMap;
use moulin::text::{
    contains_class, contains_text, ends_with, lines, replace, rewrite, split, split_once,
    split_whitespace, starts_with, strip_prefix, trim, trim_both, trim_end, trim_start, white, Class,
};

fn every_char() -> Vec<char> {
    (0..=0x10ffffu32).filter_map(char::from_u32).collect()
}

#[test]
fn white_space_is_that_of_unicode() {
    for c in every_char() {
        assert_eq!(white(c), c.is_whitespace());
    }
}

#[test]
fn trimming_takes_only_the_ends() {
    assert_eq!(trim(" \t a b \n"), "a b");
    assert_eq!(trim("\u{3000}x\u{85}"), "x");
    assert_eq!(trim("   "), "");
    assert_eq!(trim_start("//a/", Class::Only('/')), "a/");
    assert_eq!(trim_end("//a//", Class::Only('/')), "//a");
    assert_eq!(trim_both("\"q\"", Class::Only('"')), "q");
    assert_eq!(trim_both("\"\"", Class::Only('"')), "");
}

#[test]
fn splitting_keeps_empty_pieces() {
    assert_eq!(split("a//b/", Class::Only('/')), vec!["a", "", "b", ""]);
    assert_eq!(split("", Class::Only('/')), vec![""]);
    assert_eq!(split_whitespace("  a \t b\n"), vec!["a", "b"]);
    assert!(split_whitespace(" \n ").is_empty());
    assert_eq!(
        split_once("k=v=w", Class::Only('=')),
        Some(("k".to_string(), "v=w".to_string()))
    );
    assert_eq!(split_once("kv", Class::Only('=')), None);
}

#[test]
fn lines_end_with_either_line_break() {
    for s in ["", "a", "a\n", "a\nb", "a\r\nb\r\n", "\n\n", "a\r", "a\n\r\nb", "\r\n"] {
        let expected: Vec<String> = s.lines().map(|l| l.to_string()).collect();
        assert_eq!(lines(s), expected);
    }
}

#[test]
fn searching_agrees_with_the_standard_library() {
    for s in ["", "a", "ab", "aab", "..", "a..b", "a.b.", "äö..ü"] {
        for p in ["", ".", "..", "a", "ab", "b", "ö"] {
            assert_eq!(contains_text(s, p), s.contains(p));
            assert_eq!(starts_with(s, p), s.starts_with(p));
            assert_eq!(ends_with(s, p), s.ends_with(p));
            assert_eq!(
                strip_prefix(s, p),
                s.strip_prefix(p).map(|rest| rest.to_string())
            );
        }
        assert_eq!(contains_class(s, Class::Only('.')), s.contains('.'));
    }
}

#[test]
fn replacing_goes_from_the_left() {
    assert_eq!(replace("a\"b\"", '"', "\\\""), "a\\\"b\\\"");
    assert_eq!(replace("a-b-c", '-', ""), "abc");
    for (s, from, to) in [
        ("aaa", "aa", "b"),
        ("abcabc", "bc", "x"),
        ("abc", "abcd", "x"),
        ("", "a", "b"),
        ("a a", " ", "  "),
        ("x", "x", ""),
    ] {
        assert_eq!(rewrite(s, from, to), s.replace(from, to));
    }
}

#[test]
fn numbers_read_as_the_standard_library_does() {
    for s in [
        "0", "7", "+7", "++7", "-7", "", "+", "007", "18446744073709551615", "18446744073709551616",
        "99999999999999999999999", "1 ", "1a", "١",
    ] {
        assert_eq!(parse_u64(s), s.parse::<u64>().ok());
    }
    assert_eq!(parse_number("755", 8, u32::MAX as u64), Some(0o755));
    assert_eq!(parse_number("758", 8, u32::MAX as u64), None);
    assert_eq!(parse_number("40000000000", 8, u32::MAX as u64), None);
}

#[test]
fn written_numbers_read_back() {
    for n in [0u64, 1, 9, 10, 255, 1000, u64::MAX] {
        assert_eq!(format_u64(n), n.to_string());
        assert_eq!(parse_u64(&format_u64(n)), Some(n));
        assert_eq!(format_in(n, 8), format!("{:o}", n));
        assert_eq!(parse_number(&format_in(n, 8), 8, u64::MAX), Some(n));
    }
    for n in [0i32, 7, -1, i32::MAX, i32::MIN] {
        assert_eq!(format_i32(n), n.to_string());
    }
    assert_ne!(format_u64(12), format_u64(21));
}

#[test]
fn permissions_have_four_digits() {
    assert_eq!(format_permissions(0o100644), "0644");
    assert_eq!(format_permissions(0o40755), "0755");
    assert_eq!(format_permissions(0o41777), "1777");
    assert_eq!(format_permissions(0), "0000");
    assert_eq!(format_permissions(u32::MAX), "7777");
}

#[test]
fn texts_are_ordered_as_in_the_standard_library() {
    let all = ["", "a", "aa", "b", "A", "ä", "Z", "2026-01-01", "2026-01-02", "\u{10ffff}", "\u{e000}"];
    for a in all {
        assert!(!is_before(a, a));
        for b in all {
            assert_eq!(is_before(a, b), a < b);
            assert!(a == b || is_before(a, b) || is_before(b, a));
            for c in all {
                if is_before(a, b) && is_before(b, c) {
                    assert!(is_before(a, c));
                }
            }
        }
    }
}

#[test]
fn tables_keep_one_entry_for_a_key() {
    let mut t: StringMap<String> = StringMap::new();
    t.insert("a".to_string(), "1".to_string());
    t.insert("b".to_string(), "2".to_string());
    t.insert("a".to_string(), "3".to_string());
    assert_eq!(t.len(), 2);
    assert_eq!(t.get("a"), Some(&"3".to_string()));
    assert_eq!(t.get("b"), Some(&"2".to_string()));
    assert_eq!(t.get("c"), None);
    assert_eq!(t.key_at(0), "a");
    assert_eq!(t.value_at(0), "3");
}

#[test]
fn tables_forget_what_is_taken_out() {
    let mut t: StringMap<String> = StringMap::new();
    t.insert("a".to_string(), "1".to_string());
    t.insert("b".to_string(), "2".to_string());
    assert_eq!(t.remove("a"), Some("1".to_string()));
    assert_eq!(t.remove("a"), None);
    assert!(!t.contains_key("a"));
    assert!(t.contains_key("b"));
    let copy = t.clone();
    assert_eq!(copy.into_values(), vec!["2".to_string()]);
}

#[test]
fn joining_agrees_with_the_standard_library() {
    for base in ["", "/", "/a", "/a/", "a/b", "."] {
        for arg in ["", "b", "b/c", "/x", "..", "./b", "b/"] {
            let expected = std::path::Path::new(base).join(arg);
            assert_eq!(join(base, arg), expected.to_str().unwrap());
        }
    }
}

const PATHS: [&str; 17] = [
    "", "/", "//", ".", "..", "/a", "/a/", "a", "./a", "a/.", "a/./b", "/a//b/", "a/../b", "/..", "../a",
    "/a/b/c", "a/..",
];

#[test]
fn components_agree_with_the_standard_library() {
    for s in PATHS {
        let path = std::path::Path::new(s);
        let c = components(s);
        assert_eq!(
            file_name(&c),
            path.file_name().map(|n| n.to_str().unwrap().to_string())
        );
        assert_eq!(parent(&c).is_some(), path.parent().is_some());
        if let (Some(up), Some(expected)) = (parent(&c), path.parent()) {
            assert_eq!(std::path::Path::new(&show(&up)), expected);
        }
    }
}

#[test]
fn being_inside_agrees_with_the_standard_library() {
    for a in PATHS {
        for b in PATHS {
            let (x, y) = (std::path::Path::new(a), std::path::Path::new(b));
            assert_eq!(is_under(a, b), x.starts_with(y));
            assert_eq!(is_same_path(a, b), x == y);
        }
        assert_eq!(has_climb(a), a.split('/').any(|part| part == ".."));
    }
}

#[test]
fn being_inside_is_transitive() {
    for a in PATHS {
        for b in PATHS {
            for c in PATHS {
                if is_under(a, b) && is_under(b, c) {
                    assert!(is_under(a, c));
                }
            }
        }
    }
}

#[test]
fn a_joined_path_stays_inside() {
    for base in ["/srv", "/srv/", "srv/x"] {
        for arg in ["a", "a/b", "./a", "", "a//b"] {
            assert!(is_under(&join(base, arg), base));
        }
    }
    assert!(!is_under(&join("/srv", "/etc"), "/srv"));
}

#[test]
fn a_child_is_named_by_its_directory() {
    let child = components(&join("/srv/x/", "name"));
    assert_eq!(file_name(&child), Some("name".to_string()));
    assert_eq!(show(&parent(&child).unwrap()), "/srv/x");
}
