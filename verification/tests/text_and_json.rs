use nixos_utils::json::{as_array, as_str, as_u64, get, str_or, text, Json, JsonNumber};
use nixos_utils::text::{
    contains_str, ends_with, first_word, hex_lower, join, lines, parse_u64, same_text, sort_pairs,
    sort_strings, split, split_once, starts_with, strip_prefix, strip_suffix, trim, trim_end_char,
    trim_start_char, u64_text, words,
};

fn strings(v: &[&str]) -> Vec<String> {
    v.iter().map(|s| s.to_string()).collect()
}

#[test]
fn trim_removes_unicode_whitespace() {
    assert_eq!(trim("  \t hello world \n"), "hello world");
    assert_eq!(trim("\u{a0}x\u{3000}"), "x");
    assert_eq!(trim("   "), "");
    assert_eq!(trim(""), "");
}

#[test]
fn words_split_on_any_whitespace() {
    assert_eq!(words("  cpu  1 2\t3\n"), strings(&["cpu", "1", "2", "3"]));
    assert_eq!(words(""), Vec::<String>::new());
    assert_eq!(words(" \t "), Vec::<String>::new());
    assert_eq!(first_word("  2024-01-01T00:00:00Z hello"), Some("2024-01-01T00:00:00Z".to_string()));
    assert_eq!(first_word("   "), None);
}

#[test]
fn lines_follow_str_lines() {
    assert_eq!(lines("a\nb\r\nc"), strings(&["a", "b", "c"]));
    assert_eq!(lines("a\n"), strings(&["a"]));
    assert_eq!(lines("\n\n"), strings(&["", ""]));
    assert_eq!(lines(""), Vec::<String>::new());
}

#[test]
fn split_keeps_empty_pieces() {
    assert_eq!(split("a;;b;", ';'), strings(&["a", "", "b", ""]));
    assert_eq!(split("", ';'), strings(&[""]));
    assert_eq!(split_once("k=v=w", '='), Some(("k".to_string(), "v=w".to_string())));
    assert_eq!(split_once("kv", '='), None);
}

#[test]
fn prefixes_suffixes_and_search() {
    assert!(starts_with("https://x", "https://"));
    assert!(!starts_with("http://x", "https://"));
    assert!(ends_with("temp1_input", "_input"));
    assert!(!ends_with("put", "_input"));
    assert_eq!(strip_prefix("sha256:abc", "sha256:"), Some("abc".to_string()));
    assert_eq!(strip_prefix("abc", "sha256:"), None);
    assert_eq!(strip_suffix("temp12_input", "_input"), Some("temp12".to_string()));
    assert_eq!(strip_suffix("x", "_input"), None);
    assert!(contains_str("vnet-tap0", "-tap"));
    assert!(contains_str("abc", ""));
    assert!(!contains_str("eth0", "-tap"));
    assert!(same_text("a", "a"));
    assert!(!same_text("a", "b"));
}

#[test]
fn trimming_one_character() {
    assert_eq!(trim_start_char("//x/", '/'), "x/");
    assert_eq!(trim_end_char("https://id.example.com//", '/'), "https://id.example.com");
    assert_eq!(trim_end_char("///", '/'), "");
}

#[test]
fn numbers_render_and_parse() {
    assert_eq!(u64_text(0), "0");
    assert_eq!(u64_text(18446744073709551615), "18446744073709551615");
    assert_eq!(parse_u64("42"), Some(42));
    assert_eq!(parse_u64("+7"), Some(7));
    assert_eq!(parse_u64("18446744073709551615"), Some(u64::MAX));
    assert_eq!(parse_u64("18446744073709551616"), None);
    assert_eq!(parse_u64("-1"), None);
    assert_eq!(parse_u64(""), None);
    assert_eq!(parse_u64("+"), None);
    assert_eq!(parse_u64("1 2"), None);
    // what is rendered reads back
    for n in [0u64, 9, 10, 12345, u64::MAX] {
        assert_eq!(parse_u64(&u64_text(n)), Some(n));
    }
}

#[test]
fn hex_and_join() {
    assert_eq!(hex_lower(&[0x00, 0xab, 0x7f]), "00ab7f");
    assert_eq!(hex_lower(&[]), "");
    assert_eq!(join(&strings(&["a", "b", "c"]), ", "), "a, b, c");
    assert_eq!(join(&Vec::new(), "\n"), "");
}

#[test]
fn sorting_is_by_code_point() {
    assert_eq!(sort_strings(&strings(&["b", "a", "B", "ab", ""])), strings(&["", "B", "a", "ab", "b"]));
    let pairs = vec![
        ("b".to_string(), "1".to_string()),
        ("a".to_string(), "2".to_string()),
        ("a".to_string(), "1".to_string()),
    ];
    assert_eq!(
        sort_pairs(&pairs),
        vec![
            ("a".to_string(), "1".to_string()),
            ("a".to_string(), "2".to_string()),
            ("b".to_string(), "1".to_string()),
        ]
    );
}

#[test]
fn json_lookups() {
    let v = Json::Object(vec![
        ("Name".to_string(), Json::Str("web".to_string())),
        ("Port".to_string(), Json::Number(JsonNumber::PosInt(8080))),
        ("Name".to_string(), Json::Str("second".to_string())),
        ("List".to_string(), Json::Array(vec![Json::Null, Json::Bool(true)])),
    ]);
    assert_eq!(as_str(get(Some(&v), "Name")), Some("web"));
    assert_eq!(as_u64(get(Some(&v), "Port")), Some(8080));
    assert_eq!(as_u64(get(Some(&v), "Name")), None);
    assert_eq!(as_array(get(Some(&v), "List")).map(|a| a.len()), Some(2));
    assert_eq!(str_or(get(Some(&v), "Missing"), "dflt"), "dflt");
    assert_eq!(text(Some(&v), "Name"), "web");
    assert_eq!(text(Some(&v), "Port"), "");
    assert!(get(None, "Name").is_none());
}
