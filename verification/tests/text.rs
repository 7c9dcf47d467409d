use hiroz::names::NameMap;
use hiroz::text::{
    contains_part, contains_text, decimal_text, ends_with, join2, join3, lines_of,
    parse_number, place, position_text, slice_text, split_nonempty, split_text, starts_with,
    text_eq, trim_text, Place,
};

#[test]
fn texts_are_joined_and_cut() {
    assert_eq!(join2("ab", "c"), "abc");
    assert_eq!(join3("a", "", "c"), "ac");
    assert_eq!(slice_text(&vec!['a', 'é', 'c'], 1, 3), "éc");
}

#[test]
fn texts_are_ordered_as_their_bytes_are() {
    let samples = ["", "a", "ab", "b", "é", "z", "\u{10000}", "\u{ffff}"];
    for a in samples {
        for b in samples {
            let placed = place(a, b);
            assert_eq!(placed == Place::Before, a < b);
            assert_eq!(placed == Place::Same, a == b);
            assert_eq!(placed == Place::After, a > b);
            assert_eq!(text_eq(a, b), a == b);
        }
    }
}

#[test]
fn searches_agree_with_std() {
    for s in ["", "wstring", "xwstringx", "wstrin", "wwstring"] {
        assert_eq!(contains_part(s, "wstring"), s.contains("wstring"));
        assert_eq!(starts_with(s, "wstring"), s.starts_with("wstring"));
        assert_eq!(ends_with(s, "wstring"), s.ends_with("wstring"));
        assert_eq!(contains_part(s, ""), s.contains(""));
    }
    let v = vec!["a".to_string(), "b".to_string(), "a".to_string()];
    assert_eq!(position_text(&v, "a"), Some(0));
    assert_eq!(position_text(&v, "b"), Some(1));
    assert_eq!(position_text(&v, "c"), None);
    assert!(contains_text(&v, "b"));
}

#[test]
fn splits_agree_with_std() {
    for s in ["", ":", "a", "a:b", ":a::b:", "a:b:"] {
        assert_eq!(split_text(s, ':'), s.split(':').collect::<Vec<_>>());
        assert_eq!(
            split_nonempty(s, ':'),
            s.split(':').filter(|p| !p.is_empty()).collect::<Vec<_>>()
        );
    }
}

#[test]
fn lines_agree_with_std() {
    for s in ["", "\n", "a", "a\n", "a\nb", "a\r\nb\r\n", "\r\n", "a\r", "a\n\nb", "a\r\r\n"] {
        assert_eq!(lines_of(s), s.lines().collect::<Vec<_>>());
    }
}

#[test]
fn trimming_agrees_with_std() {
    for s in ["", " ", " a ", "\t/a b\u{a0}", "\u{2003}x\u{3000}", "\u{200b}x", "\u{85}y"] {
        assert_eq!(trim_text(s), s.trim());
    }
}

#[test]
fn numbers_agree_with_std() {
    for n in [0u64, 7, 10, 99, 100, 12345, u64::MAX] {
        assert_eq!(decimal_text(n), format!("{}", n));
    }
    for s in ["", "+", "-", "-0", "0", "007", "+12", "1 ", "1_0", "18446744073709551615",
        "18446744073709551616", "99999999999999999999", "x"]
    {
        assert_eq!(parse_number(s), s.parse::<usize>().ok());
    }
}

#[test]
fn maps_keep_one_value_for_a_name() {
    let mut m: NameMap<u32> = NameMap::new();
    m.insert("b".to_string(), 1);
    m.insert("a".to_string(), 2);
    m.insert("b".to_string(), 3);
    assert_eq!(m.len(), 2);
    assert_eq!(m.key_list(), vec!["a", "b"]);
    assert_eq!(m.get("b"), Some(&3));
    assert_eq!(m.get("c"), None);
    assert_eq!(m.remove("a"), Some(2));
    assert_eq!(m.remove("a"), None);
    assert!(m.contains("b"));
    assert!(!m.contains("a"));
}
