use haven_core::json::{copy, json_of, parse, print, put, signed, text, texts, unsigned, Json, Number};
use haven_core::order::{stable_order, SortKey};
use haven_core::text::{
    contains_str, cut_off, decimal_i64, decimal_u64, first_chars_str, is_white_char, join_strs,
    lines_of, lower_ascii_str, lower_case_str, parse_u32, parse_u64, replace_str, same, same_ignoring_case,
    split_once_str, split_str, strip_prefix_str, strip_suffix_str, trim_of_str, trim_str,
};
use haven_core::text_map::TextMap;

#[test]
fn white_space_is_that_of_unicode() {
    for n in 0..0x11_0000u32 {
        if let Some(c) = char::from_u32(n) {
            assert_eq!(is_white_char(c), c.is_whitespace(), "{}", n);
        }
    }
    assert_eq!(trim_str("\u{2003} a b\u{a0}"), "a b");
    assert_eq!(trim_of_str("//a/b/", '/'), "a/b");
}

#[test]
fn texts_are_searched_and_split() {
    for (s, p) in [("abcabc", "ca"), ("abc", ""), ("äöü", "ö"), ("aa", "aaa")] {
        assert_eq!(contains_str(s, p), s.contains(p));
        assert_eq!(strip_prefix_str(s, p), s.strip_prefix(p));
        assert_eq!(strip_suffix_str(s, p), s.strip_suffix(p));
    }
    assert_eq!(replace_str("aXbXX", "X", "--"), "a--b----");
    assert_eq!(split_str("a//b/", '/'), vec!["a", "", "b", ""]);
    assert_eq!(join_strs(&split_str("a//b/", '/'), "/"), "a//b/");
    assert_eq!(split_once_str("512x768x1", 'x'), Some(("512", "768x1")));
    for s in ["", "a", "a\n", "a\r\nb\n\nc", "\r\n", "a\r"] {
        assert_eq!(lines_of(s), s.lines().collect::<Vec<_>>());
    }
    assert_eq!(first_chars_str("äöü", 2), "äö");
    assert_eq!(cut_off("äöü", 3), "ä");
    assert_eq!(lower_ascii_str("AÄz"), "AÄz".to_ascii_lowercase());
    assert!(same_ignoring_case("Content-Type", "content-TYPE"));
    assert!(same("a", "a") && !same("a", "b"));
}

#[test]
fn numbers_in_text() {
    for n in [0u64, 9, 10, u64::MAX] {
        assert_eq!(decimal_u64(n), n.to_string());
        assert_eq!(parse_u64(&n.to_string()), Some(n));
    }
    for n in [i64::MIN, -1, 0, i64::MAX] {
        assert_eq!(decimal_i64(n), n.to_string());
    }
    for s in ["", "+", "+7", "-1", "007", "4294967296", "4294967295", "1a"] {
        assert_eq!(parse_u32(s), s.parse::<u32>().ok(), "{}", s);
    }
}

#[test]
fn json_is_read_and_printed() {
    let source = r#"{"a":[1,-2,2.5,1e300,true,null],"b":"x\"\nä\u0001","c":{}}"#;
    let value: serde_json::Value = serde_json::from_str(source).unwrap();
    assert_eq!(print(&parse(source).unwrap()), value.to_string());
    assert_eq!(print(&json_of(value)), print(&parse(source).unwrap()));
    let why = parse("{").unwrap_err();
    assert_eq!(why, serde_json::from_str::<serde_json::Value>("{").unwrap_err().to_string());
    assert_eq!(print(&copy(&parse(source).unwrap())), print(&parse(source).unwrap()));
}

#[test]
fn json_values_are_taken_apart() {
    let j = parse(r#"{"s":"t","n":7,"m":-7,"f":1.5,"l":[1,2],"o":{"k":false}}"#).unwrap();
    assert_eq!(j.get_str("s"), Some("t"));
    assert_eq!(j.get_u64("n"), Some(7));
    assert_eq!(j.get_u64("m"), None);
    assert_eq!(j.get_u64("f"), None);
    assert_eq!(j.get("l").unwrap().at(1).unwrap().as_u64(), Some(2));
    assert!(j.get("l").unwrap().at(2).is_none());
    assert_eq!(j.get("o").unwrap().get_bool("k"), Some(false));
    assert!(j.get("x").is_none());
    assert!(j.at(0).is_none());
    match j.get("f").unwrap() {
        Json::Number(Number::Float { text, whole }) => {
            assert_eq!(text, "1.5");
            assert_eq!(*whole, 1);
        }
        other => panic!("{:?}", other),
    }
}

#[test]
fn json_values_are_built() {
    let mut members = vec![("a".to_string(), unsigned(1))];
    put(&mut members, "b", signed(-2));
    put(&mut members, "a", text("x"));
    put(&mut members, "c", texts(&vec!["y".to_string()]));
    assert_eq!(print(&Json::Object(members)), r#"{"a":"x","b":-2,"c":["y"]}"#);
}

#[test]
fn lists_are_put_in_order() {
    let key = |rank: u64, text: &str| SortKey { rank, text: text.to_string() };
    let keys = vec![key(1, "b"), key(0, "z"), key(1, "a"), key(1, "b"), key(1, "")];
    assert_eq!(stable_order(&keys), vec![1, 4, 2, 0, 3]);
    let mut words = vec!["b", "ab", "", "Z", "ä", "a", "abc"];
    let order = stable_order(&words.iter().map(|w| key(0, w)).collect());
    let sorted: Vec<&str> = order.iter().map(|i| words[*i]).collect();
    words.sort();
    assert_eq!(sorted, words);
}

#[test]
fn text_maps_keep_the_last_value() {
    let mut map = TextMap::new();
    map.insert("a", "1");
    map.insert("b", "2");
    map.insert("a", "3");
    assert_eq!(map.get("a").map(String::as_str), Some("3"));
    assert_eq!(map.entries().len(), 2);
    let mut other = TextMap::new();
    other.insert("b", "9");
    map.insert_all(&other);
    assert_eq!(map.get("b").map(String::as_str), Some("9"));
    assert!(map.contains_key("a") && !map.contains_key("c"));
}

#[test]
fn texts_are_quoted_and_read_back() {
    assert_eq!(
        print(&text("\"\\/\u{8}\u{c}\n\r\t\u{0}\u{1f}\u{7f}\u{e9}")),
        "\"\\\"\\\\/\\b\\f\\n\\r\\t\\u0000\\u001f\u{7f}\u{e9}\""
    );
    for n in 0..0x11_0000u32 {
        if let Some(c) = char::from_u32(n) {
            let s = format!("a{}b", c);
            match parse(&print(&text(&s))) {
                Ok(Json::Text(t)) => assert_eq!(t, s),
                _ => panic!("{}", n),
            }
        }
    }
}

#[test]
fn lower_case_of_ascii_text_goes_letter_by_letter() {
    for n in 0..128u8 {
        let s = format!("A{}z", char::from(n));
        assert_eq!(lower_case_str(&s), lower_ascii_str(&s));
    }
    assert_eq!(lower_case_str("\u{c4}B"), "\u{e4}b");
}
