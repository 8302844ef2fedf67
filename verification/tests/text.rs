//! Texts, numbers and JSON.

use carter::bytes::{byte_length, char_width};
use carter::json::{jobj2, jstr, juint, parse_json, Json};
use carter::number::{dec_string, hex_of_bytes, int_string, pad_left_str, parse_u64_upto};
use carter::order::comes_before;
use carter::split::{blank, join_strings, split_lines, split_str, split_words, trim_end_str, trim_str};
use carter::table::find_entry;
use carter::text::{has_prefix, has_suffix, has_text, lower_str, strip_prefix};

#[test]
fn texts_are_trimmed_and_split_as_std_does() {
    for t in ["", "  a b ", "\u{3000}x\u{a0}", "a\r\nb\n\nc", "\n", "x\ty  z"] {
        assert_eq!(trim_str(t), t.trim());
        assert_eq!(trim_end_str(t), t.trim_end());
        assert_eq!(blank(t), t.trim().is_empty());
        assert_eq!(split_lines(t), t.lines().map(|s| s.to_string()).collect::<Vec<String>>());
        assert_eq!(split_words(t), t.split_whitespace().map(|s| s.to_string()).collect::<Vec<String>>());
        assert_eq!(split_str(t, ' '), t.split(' ').map(|s| s.to_string()).collect::<Vec<String>>());
        assert_eq!(lower_str(t), t.to_ascii_lowercase());
        assert_eq!(byte_length(t), t.len());
    }
}

#[test]
fn white_space_is_that_of_std() {
    for n in 0..=0x3100u32 {
        if let Some(c) = char::from_u32(n) {
            assert_eq!(carter::split::space(c), c.is_whitespace());
            assert_eq!(char_width(c), c.len_utf8());
        }
    }
}

#[test]
fn parts_are_found() {
    assert!(has_text("abc", "b") && !has_text("abc", "d"));
    assert!(has_prefix("abc", "ab") && has_suffix("abc", "bc"));
    assert_eq!(strip_prefix("abc", "a").as_deref(), Some("bc"));
    assert_eq!(strip_prefix("abc", "x"), None);
    assert_eq!(join_strings(&vec!["a".to_string(), "b".to_string()], ", "), "a, b");
    assert!(comes_before("a", "b") && !comes_before("b", "a") && comes_before("a", "aa"));
    let table = vec![("k".to_string(), 1), ("l".to_string(), 2)];
    assert_eq!(find_entry(&table, "l"), Some(&2));
    assert_eq!(find_entry(&table, "m"), None);
}

#[test]
fn numbers_are_written_as_std_does() {
    for n in [0u64, 7, 10, 1234567890, u64::MAX] {
        assert_eq!(dec_string(n), n.to_string());
    }
    for n in [0i32, -5, 42, i32::MIN, i32::MAX] {
        assert_eq!(int_string(n), n.to_string());
    }
    assert_eq!(pad_left_str("7", 3, '0'), "007");
    assert_eq!(hex_of_bytes(&[0xAB, 0x01]), "ab01");
    assert_eq!(parse_u64_upto("17", 20), Some(17));
    assert_eq!(parse_u64_upto("21", 20), None);
    assert_eq!(parse_u64_upto("x", 20), None);
}

#[test]
fn json_is_read_and_written() {
    let text = r#"{"b":[1,-2,3.5,true,null,"x\n"],"a":{}}"#;
    let j = parse_json(text).unwrap();
    assert_eq!(j.to_text(), text);
    assert_eq!(j.dup().to_text(), text);
    assert!(parse_json("{").is_none());
    assert!(parse_json("1 2").is_none());
    let built = jobj2("k", jstr("v"), "n", juint(3));
    assert_eq!(built.to_text(), r#"{"k":"v","n":3}"#);
    assert_eq!(built.get_str("k").as_deref(), Some("v"));
    assert_eq!(built.get_u64("n"), Some(3));
    assert_eq!(built.get_bool("n"), None);
    assert!(built.get("zzz").is_none());
    assert!(matches!(parse_json("null"), Some(Json::Null)));
}

#[test]
fn plain_json_is_read_back() {
    for text in ["[]", "{}", "\"\\u0001\\\"\"", "-9223372036854775808", "18446744073709551615", "[[[[1]]]]"] {
        let j = parse_json(text).unwrap();
        assert_eq!(parse_json(&j.to_text()).unwrap().to_text(), j.to_text());
        assert_eq!(j.to_text().lines().count(), 1);
    }
}
