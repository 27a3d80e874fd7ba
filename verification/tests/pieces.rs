//! The small parts: text, numbers, checksums, percent encoding, maps, identifiers.

use cirrus::message::Headers;
use cirrus::numbers::{decimal_text, hex_text, parse_u32, parse_u64, signed_decimal_text};
use cirrus::order::{at_most, sort_distinct};
use cirrus::s3::address::{can_read_host, extract_service, resolve_address, strip_port};
use cirrus::s3::listing::{list_keys, ListEntry};
use cirrus::s3::multipart::{generate_upload_id, upload_id_at};
use cirrus::string_map::StringMap;
use cirrus::text::{
    has_infix, has_prefix, same_ignoring_case, split_text, split_words, text_eq, to_ascii_lower,
};

#[test]
fn numbers_in_decimal_and_back() {
    for n in [0, 9, 10, 99, 100, 10000, u64::MAX] {
        assert_eq!(decimal_text(n), n.to_string());
        assert_eq!(parse_u64(&decimal_text(n)), Some(n));
    }
    for n in [0, -1, 7, i64::MIN, i64::MAX] {
        assert_eq!(signed_decimal_text(n), n.to_string());
    }
    assert_eq!(parse_u64("18446744073709551616"), None);
    assert_eq!(parse_u64("00000000000000000000000000007"), Some(7));
    assert_eq!(parse_u32("+4294967295"), Some(u32::MAX));
    assert_eq!(parse_u32("4294967296"), None);
    for text in ["", "+", "-0", "++1", "1 ", " 1", "1_0", "\u{661}"] {
        assert_eq!(parse_u32(text), None);
    }
}

#[test]
fn bytes_in_hexadecimal() {
    assert_eq!(hex_text(&[0x0a, 0x14, 0xff, 0x00]), "0a14ff00");
    assert_eq!(hex_text(&[]), "");
}

#[test]
fn texts_are_searched_and_split() {
    assert!(has_prefix("abc", ""));
    assert!(!has_prefix("ab", "abc"));
    assert!(has_infix("a://b", "://"));
    assert!(!has_infix("a:/", "://"));
    assert!(has_infix("", ""));
    assert!(text_eq("\u{e9}", "\u{e9}"));
    assert!(!text_eq("e", "\u{e9}"));
    assert_eq!(split_text("a//b", '/'), vec!["a", "", "b"]);
    assert_eq!(split_text("", '/'), vec![""]);
    assert_eq!(split_words(" a \t\u{2003}b\n"), vec!["a", "b"]);
    assert!(split_words(" ").is_empty());
    assert_eq!(to_ascii_lower("AbZ[\u{c9}"), "abz[\u{c9}");
    assert!(same_ignoring_case("Replace", "REPLACE"));
}

#[test]
fn texts_are_ordered_by_code_point() {
    assert!(at_most("", ""));
    assert!(at_most("", "a"));
    assert!(!at_most("a", ""));
    assert!(at_most("a", "a"));
    assert!(at_most("ab", "b"));
    assert!(!at_most("b", "ab"));
    assert!(at_most("z", "\u{e9}"));
    assert!(at_most("\u{ffff}", "\u{10000}"));
    let mut v: Vec<String> = ["b", "\u{10000}", "a", "\u{ffff}", "aa", ""]
        .iter()
        .map(|s| s.to_string())
        .collect();
    sort_distinct(&mut v);
    assert_eq!(v, vec!["", "a", "aa", "b", "\u{ffff}", "\u{10000}"]);
}

#[test]
fn keys_are_grouped() {
    let keys = ["b/2", "a", "b/1", "c"].iter().map(|s| s.to_string()).collect();
    let groups = list_keys(keys, "", "/", "a");
    assert_eq!(groups.len(), 2);
    assert!(matches!(&groups[0].entry, ListEntry::Prefix(p) if p == "b/"));
    assert_eq!(groups[0].last, "b/2");
    assert!(matches!(&groups[1].entry, ListEntry::Object(k) if k == "c"));
}

#[test]
fn maps_keep_order_and_last_values() {
    let mut map = StringMap::new();
    map.insert("b".to_string(), "1".to_string());
    map.insert("a".to_string(), "2".to_string());
    map.insert("b".to_string(), "3".to_string());
    assert_eq!(map.len(), 2);
    assert_eq!(map.entry(0), (&"b".to_string(), &"3".to_string()));
    assert!(map.contains_key("a"));
    assert!(!map.contains_key("c"));
    let copy = map.clone();
    map.insert("c".to_string(), "4".to_string());
    assert_eq!(copy.len(), 2);
    assert!(StringMap::new().is_empty());
}

#[test]
fn header_values_are_text_or_not() {
    let mut headers = Headers::new();
    headers.append("A", b"one\ttwo".to_vec());
    headers.append("a", b"later".to_vec());
    headers.append("b", b"caf\xc3\xa9".to_vec());
    headers.append("c", vec![127]);
    assert_eq!(headers.get_text("a"), Some("one\ttwo".to_string()));
    assert_eq!(headers.get_text("b"), None);
    assert_eq!(headers.get_text("c"), None);
    assert_eq!(headers.get_text("d"), None);
}

#[test]
fn hosts_lose_their_ports() {
    assert_eq!(strip_port("host:9000"), "host");
    assert_eq!(strip_port("[::1]:9000"), "::1");
    assert_eq!(strip_port("localhost"), "localhost");
    assert_eq!(strip_port(":80"), "");
    assert!(can_read_host("[::1]"));
    assert!(!can_read_host("]"));
    assert!(!can_read_host("\u{e9}]"));
    assert!(can_read_host("\u{e9}"));
}

#[test]
fn percent_signs_that_escape_nothing() {
    let key = |path: &str| resolve_address("localhost", path).unwrap().1;
    assert_eq!(key("/b/100%"), "100%");
    assert_eq!(key("/b/%4"), "%4");
    assert_eq!(key("/b/%zz%41"), "%zzA");
    assert_eq!(key("/b/%4g%%41"), "%4g%A");
    assert_eq!(key("/b/%c3%A9"), "\u{e9}");
    assert_eq!(key("/b/\u{e9}%20"), "\u{e9} ");
}

#[test]
fn virtual_hosts_may_have_an_empty_label() {
    assert_eq!(
        resolve_address(".a.b", "/k").unwrap(),
        ("".to_string(), "k".to_string())
    );
    assert_eq!(
        resolve_address("s3photos.a.b", "/k/l").unwrap(),
        ("k".to_string(), "l".to_string())
    );
}

#[test]
fn service_names_are_put_in_lower_case() {
    let headers = Headers::new();
    assert_eq!(extract_service(&headers, Some("Service=\u{c9}T\u{c9}")), "\u{e9}t\u{e9}");
}

#[test]
fn upload_identifiers() {
    // SHA-256 of "b:k:1:r", in URL-safe base64 without padding.
    let id = upload_id_at("b", "k", 1, "r");
    assert_eq!(id, "qhikbJAbgWlxCcas4rBr5LCZSpMb_hqAqvYWDBJDVjM");
    assert!(id
        .bytes()
        .all(|c| c.is_ascii_alphanumeric() || c == b'-' || c == b'_'));
    assert_eq!(id, upload_id_at("b", "k", 1, "r"));
    assert_eq!(
        upload_id_at("b", "k", -1, "r"),
        "NTKDFNxv9G5SyLDeTEHo9qw5zVBXQnxuKQGMPQjrDU8"
    );
    assert_ne!(id, upload_id_at("b", "k:1", 1, "r"));
    let fresh = generate_upload_id("bucket", "key");
    assert_eq!(fresh.len(), 43);
    assert_ne!(fresh, generate_upload_id("bucket", "key"));
}
