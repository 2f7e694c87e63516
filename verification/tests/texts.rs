use llm_wiki::cache_key::{cache_input_text, cache_key_of};
use llm_wiki::encoding::{is_decodable, percent_decode_url, to_hex, urlencoding};
use llm_wiki::source_path::{extract_relative, normalize, path_segments, source_part};
use llm_wiki::text::{chars_of, decimal_text, find, replace_all, same_text, white_space};
use llm_wiki::text_map::TextMap;

#[test]
fn percent_decoding() {
    assert_eq!(percent_decode_url("a%20b+c"), "a b c");
    assert_eq!(percent_decode_url("%7B%22a%22%3A1%7d"), "{\"a\":1}");
    assert_eq!(percent_decode_url("100%"), "100%");
    assert_eq!(percent_decode_url("%4"), "%4");
    assert_eq!(percent_decode_url("%zz%41"), "%zzA");
    assert_eq!(percent_decode_url("%+5x"), "\u{5}x");
    assert_eq!(percent_decode_url("%C3%BC"), "\u{fc}");
    assert_eq!(percent_decode_url("%FFx"), "\u{fffd}x");
    assert_eq!(percent_decode_url("\u{fc}%41"), "\u{fc}A");
}

#[test]
fn what_can_be_decoded() {
    assert!(is_decodable(""));
    assert!(is_decodable("%41"));
    assert!(is_decodable("%4\u{fc}") == false);
    assert!(is_decodable("%\u{fc}"));
    assert!(is_decodable("%\u{fc}x"));
    assert!(!is_decodable("%\u{20ac}x"));
}

#[test]
fn encoding_and_decoding_give_the_text_back() {
    for text in ["", "admin", "a+b&c=d", "100% \u{fc}\u{20ac}\u{1f600}", "\n~-_."] {
        let encoded = urlencoding(text);
        assert!(is_decodable(&encoded));
        assert_eq!(percent_decode_url(&encoded), text);
    }
    assert_eq!(urlencoding("\u{fc}/~"), "%C3%BC%2F~");
}

#[test]
fn hexadecimal_digits() {
    assert_eq!(to_hex(&vec![0, 15, 16, 171, 255]), "000f10abff");
}

#[test]
fn relative_parts_of_paths() {
    assert_eq!(extract_relative("raw/sources", "raw/sources"), Some(""));
    assert_eq!(extract_relative("raw/sources/", "raw/sources"), Some(""));
    assert_eq!(extract_relative("raw/sources/a/b", "raw/sources"), Some("a/b"));
    assert_eq!(extract_relative("/p/raw/sources/a", "raw/sources"), Some("a"));
    assert_eq!(extract_relative("/p/raw/sources", "raw/sources"), Some(""));
    assert_eq!(
        extract_relative("/raw/sources/x/raw/sources/y", "raw/sources"),
        Some("x/raw/sources/y")
    );
    assert_eq!(extract_relative("/p/raw/sourcesx/a", "raw/sources"), None);
    assert_eq!(extract_relative("xraw/sources", "raw/sources"), None);
    assert_eq!(extract_relative("\u{fc}/raw/sources/\u{20ac}", "raw/sources"), Some("\u{20ac}"));
}

#[test]
fn slashes_of_either_kind() {
    assert_eq!(normalize("a\\b/c\\"), "a/b/c/");
    assert_eq!(source_part("C:\\p\\raw\\sources\\a\\b"), Some("a/b".to_string()));
    assert_eq!(source_part("C:\\p\\raw"), None);
    assert_eq!(path_segments("/a//b/"), vec!["a".to_string(), "b".to_string()]);
    assert!(path_segments("").is_empty());
}

#[test]
fn cache_names() {
    let date = Some("2026-01-01T00:00:00".to_string());
    assert_eq!(cache_input_text("123", &date), "123-2026-01-01T00:00:00");
    assert_eq!(cache_input_text("123", &None), "123-unknown");
    assert_ne!(cache_key_of("123", &date), cache_key_of("123", &None));
    assert_eq!(cache_key_of("123", &None).len(), 32);
}

#[test]
fn texts_and_numbers() {
    assert_eq!(decimal_text(0), "0");
    assert_eq!(decimal_text(1050), "1050");
    assert_eq!(decimal_text(u64::MAX), "18446744073709551615");
    assert_eq!(replace_all("aaa", "aa", "b"), "ba");
    assert_eq!(replace_all("x__y__", "__", ""), "xy");
    assert_eq!(find(&chars_of("abcabc"), &chars_of("ca")), Some(2));
    assert_eq!(find(&chars_of("abc"), &chars_of("x")), None);
    assert!(same_text("a", "a"));
    assert!(!same_text("a", "b"));
    for code in 0..0x110000u32 {
        if let Some(c) = char::from_u32(code) {
            assert_eq!(white_space(c), c.is_whitespace());
        }
    }
}

#[test]
fn maps_from_text() {
    let mut map: TextMap<u64> = TextMap::new();
    map.insert("a".into(), 1);
    map.insert("b".into(), 2);
    map.insert("a".into(), 3);
    map.insert_absent("b".into(), 4);
    map.insert_absent("c".into(), 5);
    assert_eq!(map.get("a"), Some(&3));
    assert_eq!(map.get("b"), Some(&2));
    assert_eq!(map.get("c"), Some(&5));
    assert_eq!(map.get("d"), None);
    assert!(map.contains_key("a") && !map.contains_key("d"));
    let copy = map.clone();
    assert_eq!(copy.into_entries(), map.into_entries());
    let last = TextMap::from_entries(vec![("x".to_string(), 1u64), ("x".to_string(), 2u64)]);
    assert_eq!(last.get("x"), Some(&2));
    assert_eq!(last.entries().len(), 1);
}
