//! XML text of responses, and the notations in it.

use chrono::{DateTime, TimeZone, Utc};
use cirrus::clock::{format_http_date, format_timestamp, Timestamp};
use cirrus::protocol::xml::{
    can_scan, can_send, format_etag, inject_xmlns, serialize, xml_escape, S3_XML_NAMESPACE,
};
use quick_xml::se::to_string;
use serde::ser::SerializeStruct;
use serde::{Serialize, Serializer};

/// The library's notion of a point in time.
fn stamp(t: DateTime<Utc>) -> Timestamp {
    Timestamp::from_unix(t.timestamp(), t.timestamp_subsec_nanos()).unwrap()
}

struct SimpleRoot {
    name: String,
}

impl Serialize for SimpleRoot {
    fn serialize<S: Serializer>(&self, serializer: S) -> Result<S::Ok, S::Error> {
        let mut s = serializer.serialize_struct("SimpleRoot", 1)?;
        s.serialize_field("Name", &self.name)?;
        s.end()
    }
}

struct RootWithChild {
    name: String,
    count: u32,
}

impl Serialize for RootWithChild {
    fn serialize<S: Serializer>(&self, serializer: S) -> Result<S::Ok, S::Error> {
        let mut s = serializer.serialize_struct("RootWithChild", 2)?;
        s.serialize_field("Name", &self.name)?;
        s.serialize_field("Count", &self.count)?;
        s.end()
    }
}

/// Writes a value out, as far as the serializer goes.
fn write_out<T: Serialize>(value: &T) -> Result<String, String> {
    to_string(value).map_err(|e| e.to_string())
}

#[test]
fn test_serialize_injects_xmlns_on_root() {
    let value = SimpleRoot {
        name: "test-bucket".into(),
    };
    let xml = serialize(write_out(&value), "SimpleRoot").expect("serialize failed");

    assert!(
        xml.contains("xmlns=\"http://s3.amazonaws.com/doc/2006-03-01/\""),
        "xmlns should be present: {xml}"
    );
    assert!(
        xml.starts_with("<SimpleRoot xmlns=\"http://s3.amazonaws.com/doc/2006-03-01/\">"),
        "xmlns should be on root opening tag: {xml}"
    );
}

#[test]
fn test_serialize_xmlns_on_root_only_not_children() {
    let value = RootWithChild {
        name: "my-bucket".into(),
        count: 42,
    };
    let xml = serialize(write_out(&value), "RootWithChild").expect("serialize failed");

    // Count xmlns occurrences — should be exactly 1 (on root only)
    let xmlns_count = xml.matches("xmlns=").count();
    assert_eq!(
        xmlns_count, 1,
        "xmlns should appear exactly once (on root only), found {xmlns_count}: {xml}"
    );

    // Child elements should NOT have xmlns
    assert!(!xml.contains("<Name xmlns="), "child Name should not have xmlns: {xml}");
    assert!(!xml.contains("<Count xmlns="), "child Count should not have xmlns: {xml}");
}

#[test]
fn test_serialize_roundtrip_with_struct() {
    let value = RootWithChild {
        name: "roundtrip-test".into(),
        count: 99,
    };
    let xml = serialize(write_out(&value), "RootWithChild").expect("serialize failed");

    // Verify structure
    assert!(xml.starts_with("<RootWithChild xmlns="));
    assert!(xml.contains("<Name>roundtrip-test</Name>"));
    assert!(xml.contains("<Count>99</Count>"));
    assert!(xml.ends_with("</RootWithChild>"));
}

#[test]
fn test_inject_xmlns_no_attributes() {
    let input = "<ListBucketResult><Name>bucket</Name></ListBucketResult>";
    let output = inject_xmlns(input, "ListBucketResult");

    assert!(
        output.starts_with(
            "<ListBucketResult xmlns=\"http://s3.amazonaws.com/doc/2006-03-01/\">"
        )
    );
    assert!(output.contains("<Name>bucket</Name>"));
}

#[test]
fn test_inject_xmlns_self_closing_root() {
    let input = "<EmptyResult/>";
    let output = inject_xmlns(input, "EmptyResult");

    assert_eq!(
        output,
        "<EmptyResult xmlns=\"http://s3.amazonaws.com/doc/2006-03-01/\"></EmptyResult>"
    );
}

#[test]
fn test_inject_xmlns_replaces_existing() {
    // If xmlns already present, it should be replaced with the correct S3 namespace
    let input = "<Root xmlns=\"old\"><Child/></Root>";
    let output = inject_xmlns(input, "Root");

    // Should have exactly one xmlns attribute with the correct value
    let xmlns_count = output.matches("xmlns=").count();
    assert_eq!(xmlns_count, 1, "Should have exactly one xmlns attribute");

    // Should contain the correct S3 namespace
    assert!(output.contains("xmlns=\"http://s3.amazonaws.com/doc/2006-03-01/\""));

    // Should NOT contain the old xmlns value
    assert!(!output.contains("xmlns=\"old\""));

    // Should preserve child elements
    assert!(output.contains("<Child/>"));
}

#[test]
fn test_serialize_constant_namespace() {
    assert_eq!(S3_XML_NAMESPACE, "http://s3.amazonaws.com/doc/2006-03-01/");
}

// XML escape tests
#[test]
fn test_xml_escape_basic() {
    assert_eq!(xml_escape(""), "");
    assert_eq!(xml_escape("hello"), "hello");
}

#[test]
fn test_xml_escape_ampersand() {
    assert_eq!(xml_escape("AT&T"), "AT&amp;T");
    assert_eq!(xml_escape("&"), "&amp;");
}

#[test]
fn test_xml_escape_less_than() {
    assert_eq!(xml_escape("<tag>"), "&lt;tag&gt;");
    assert_eq!(xml_escape("<"), "&lt;");
}

#[test]
fn test_xml_escape_greater_than() {
    assert_eq!(xml_escape("a>b"), "a&gt;b");
    assert_eq!(xml_escape(">"), "&gt;");
}

#[test]
fn test_xml_escape_quote() {
    assert_eq!(xml_escape("a\"b"), "a&quot;b");
    assert_eq!(xml_escape("\""), "&quot;");
}

#[test]
fn test_xml_escape_apostrophe() {
    assert_eq!(xml_escape("a'b"), "a&apos;b");
    assert_eq!(xml_escape("'"), "&apos;");
}

#[test]
fn test_xml_escape_all_entities() {
    let input = "&<>\'\"";
    let expected = "&amp;&lt;&gt;&apos;&quot;";
    assert_eq!(xml_escape(input), expected);
}

#[test]
fn test_xml_escape_roundtrip() {
    // Note: This is not a perfect roundtrip as we don't have an unescape function
    // but we can test that escaping doesn't change already escaped content in a way that breaks it
    let original = "&amp;lt;&gt;&quot;&apos;";
    let escaped = xml_escape(original);
    // When we escape "&amp;lt;&gt;&quot;&apos;":
    // & -> &amp;
    // amp; -> amp; (no change)
    // ; -> ; (no change)
    // lt; -> lt; (no change for l and t)
    // & -> &amp;
    // gt; -> gt; (no change for g and t)
    // & -> &amp;
    // quot; -> quot; (no change for q, u, o, t)
    // ; -> ; (no change)
    // & -> &amp;
    // apos; -> apos; (no change for a, p, o, s)
    // ; -> ; (no change)
    // So we get: &amp;amp;lt;&amp;gt;&amp;quot;&amp;apos;
    assert_eq!(escaped, "&amp;amp;lt;&amp;gt;&amp;quot;&amp;apos;");
}

// Timestamp format tests
#[test]
fn test_format_timestamp() {
    let timestamp = Utc.with_ymd_and_hms(2026, 5, 18, 2, 51, 21).unwrap();
    let formatted = format_timestamp(stamp(timestamp));
    // The function formats with milliseconds, so we expect .000 when no milliseconds are set
    assert_eq!(formatted, "2026-05-18T02:51:21.000Z");
}

#[test]
fn test_format_timestamp_with_milliseconds() {
    let timestamp = Utc.with_ymd_and_hms(2026, 5, 18, 2, 51, 21).unwrap();
    // Manually set milliseconds (this approach won't work with the current API)
    // Instead, let's test that the function works correctly by checking the format
    let formatted = format_timestamp(stamp(timestamp));
    assert_eq!(formatted, "2026-05-18T02:51:21.000Z");
    // Check that it has the right format: YYYY-MM-DDTHH:MM:SS.sssZ
    assert!(formatted.len() == 24);
    assert!(formatted.contains('.'));
    assert!(formatted.ends_with('Z'));
}

// HTTP date format tests
#[test]
fn test_format_http_date() {
    let timestamp = Utc.with_ymd_and_hms(2015, 10, 21, 7, 28, 0).unwrap();
    let formatted = format_http_date(stamp(timestamp));
    assert_eq!(formatted, "Wed, 21 Oct 2015 07:28:00 GMT");
}

#[test]
fn test_format_http_date_single_digit_day() {
    let timestamp = Utc.with_ymd_and_hms(2015, 10, 5, 7, 28, 0).unwrap();
    let formatted = format_http_date(stamp(timestamp));
    assert_eq!(formatted, "Mon, 05 Oct 2015 07:28:00 GMT");
}

// ETag format tests
#[test]
fn test_format_etag() {
    let data = b"hello world";
    let etag = format_etag(data);
    // MD5 of "hello world" is 5eb63bbbe01eeed093cb22bb8f5acdc3
    assert_eq!(etag, "\"5eb63bbbe01eeed093cb22bb8f5acdc3\"");
}

#[test]
fn test_format_etag_empty() {
    let data = b"";
    let etag = format_etag(data);
    // MD5 of "" is d41d8cd98f00b204e9800998ecf8427e
    assert_eq!(etag, "\"d41d8cd98f00b204e9800998ecf8427e\"");
}

#[test]
fn test_format_etag_consistency_check() {
    // Test that the same input always produces the same output
    let data = b"consistent test";
    let etag1 = format_etag(data);
    let etag2 = format_etag(data);
    assert_eq!(etag1, etag2);

    // Test that it's properly quoted
    assert!(etag1.starts_with('\"'));
    assert!(etag1.ends_with('\"'));

    // Test that the content inside quotes is hex
    let hex_part = &etag1[1..etag1.len()-1];
    assert!(hex_part.chars().all(|c| c.is_ascii_hexdigit()));
}

// Consistency check tests as requested in the issue
#[test]
fn test_consistency_check_escape_round_trips() {
    // Test various strings that should escape correctly
    let test_cases = vec![
        ("", ""),
        ("plain text", "plain text"),
        ("&", "&amp;"),
        ("<", "&lt;"),
        (">", "&gt;"),
        ("\"", "&quot;"),
        ("'", "&apos;"),
        ("&<>\'\"", "&amp;&lt;&gt;&apos;&quot;"),
        ("AT&T Verizon", "AT&amp;T Verizon"),
        ("<script>", "&lt;script&gt;"),
        ("He said \"Hello\"", "He said &quot;Hello&quot;"),
        ("It's ours", "It&apos;s ours"),
    ];

    for (input, expected) in test_cases {
        assert_eq!(xml_escape(input), expected, "Failed to escape correctly: {}", input);
    }
}

#[test]
fn test_consistency_check_date_format_patterns() {
    // Test timestamp format
    let timestamp = Utc.with_ymd_and_hms(2026, 5, 18, 2, 51, 21).unwrap();
    let timestamp_str = format_timestamp(stamp(timestamp));
    // With milliseconds, it should be 24 characters: YYYY-MM-DDTHH:MM:SS.sssZ
    assert_eq!(timestamp_str.len(), 24); 
    assert!(timestamp_str.contains('-'));
    assert!(timestamp_str.contains('T'));
    assert!(timestamp_str.contains(':'));
    assert!(timestamp_str.ends_with('Z'));

    // Test HTTP date format
    let http_date = format_http_date(stamp(timestamp));
    assert!(http_date.contains(','));
    assert!(http_date.contains("GMT"));
    // Should match pattern: "Wed, 18 May 2026 02:51:21 GMT"
    let parts: Vec<&str> = http_date.split(' ').collect();
    assert_eq!(parts.len(), 6);
    assert_eq!(parts[5], "GMT");
}

#[test]
fn test_consistency_check_etag_format_validation() {
    let test_data = b"test data for etag";
    let etag = format_etag(test_data);

    // Should start and end with quotes
    assert!(etag.starts_with('\"'));
    assert!(etag.ends_with('\"'));

    // Should have hex content inside
    let hex_content = &etag[1..etag.len()-1];
    assert!(!hex_content.is_empty());
    assert!(hex_content.chars().all(|c| c.is_ascii_hexdigit()));

    // Should be 32 hex characters (MD5 is 128 bits = 32 hex chars)
    assert_eq!(hex_content.len(), 32);
}

const ATTRIBUTE: &str = "xmlns=\"http://s3.amazonaws.com/doc/2006-03-01/\"";

#[test]
fn test_inject_xmlns_before_other_attributes() {
    assert_eq!(
        inject_xmlns("<Foo bar=\"x\">y</Foo>", "Foo"),
        format!("<Foo {ATTRIBUTE} bar=\"x\">y</Foo>")
    );
    assert_eq!(
        inject_xmlns("<?xml?><Foo bar=\"x\"/>", "Foo"),
        format!("<?xml?><Foo {ATTRIBUTE} bar=\"x\"/>")
    );
    assert_eq!(
        inject_xmlns("<FooBar a=\"1\">", "Foo"),
        format!("<FooBar {ATTRIBUTE} a=\"1\">")
    );
}

#[test]
fn test_inject_xmlns_odd_tags() {
    assert_eq!(inject_xmlns("<Other/>", "Foo"), "<Other/>");
    assert_eq!(inject_xmlns("", "Foo"), "");
    assert_eq!(inject_xmlns("<Foo", "Foo"), format!("<Foo {ATTRIBUTE}"));
    assert_eq!(
        inject_xmlns("<Foo xmlns=\"old>", "Foo"),
        format!("<Foo {ATTRIBUTE} xmlns=\"old>")
    );
    assert_eq!(
        inject_xmlns("<Foo a=\"1\" xmlns=\"\" b=\"2\"/>", "Foo"),
        format!("<Foo a=\"1\" {ATTRIBUTE} b=\"2\"/>")
    );
    assert_eq!(
        inject_xmlns("<Foo/><Foo/>", "Foo"),
        format!("<Foo {ATTRIBUTE}></Foo><Foo/>")
    );
}

#[test]
fn test_can_scan_refuses_characters_beyond_ascii_in_the_root_tag() {
    assert!(can_scan("<Foo><B>\u{e9}</B></Foo>", "Foo"));
    assert!(!can_scan("<Foo a=\"\u{e9}\"></Foo>", "Foo"));
    assert!(can_scan("\u{e9}", "Foo"));
    assert!(can_scan("<\u{e9}/>", "\u{e9}"));
    assert!(can_send(&Err("broken".to_string()), "Foo"));
    assert!(can_send(&Ok("<Foo/>".to_string()), "Foo"));
}

#[test]
fn test_serialize_reports_the_serializer_error() {
    let err = serialize(Err("no".to_string()), "Foo").unwrap_err();
    assert_eq!(err.error_code(), "XmlSerializationError");
}

#[test]
fn test_escaping_reads_back() {
    for text in ["", "plain", "&lt;", "&amp;lt;", "<a href=\"x\">'&'</a>", "&&&;;;", "\u{e9}<\u{1f600}"] {
        let back = xml_escape(text)
            .replace("&lt;", "<")
            .replace("&gt;", ">")
            .replace("&quot;", "\"")
            .replace("&apos;", "'")
            .replace("&amp;", "&");
        assert_eq!(back, text);
    }
    assert_eq!(xml_escape("&lt;"), "&amp;lt;");
}

#[test]
fn test_escaping_piecewise() {
    let whole = xml_escape("a&b<c");
    let pieces = xml_escape("a&") + &xml_escape("b<c");
    assert_eq!(whole, pieces);
    assert_ne!(xml_escape("&lt;"), xml_escape("<"));
}

#[test]
fn test_timestamps_with_fractions_and_before_1970() {
    let t = Timestamp::from_unix(1_779_072_681, 123_999_999).unwrap();
    assert_eq!(format_timestamp(t), "2026-05-18T02:51:21.123Z");
    let before = Timestamp::from_unix(-1, 0).unwrap();
    assert_eq!(format_timestamp(before), "1969-12-31T23:59:59.000Z");
    assert_eq!(format_http_date(before), "Wed, 31 Dec 1969 23:59:59 GMT");
}

#[test]
fn test_timestamps_out_of_range() {
    assert!(Timestamp::from_unix(8_210_266_876_799, 999_999_999).is_some());
    assert!(Timestamp::from_unix(8_210_266_876_800, 0).is_none());
    assert!(Timestamp::from_unix(-8_334_601_228_800, 0).is_some());
    assert!(Timestamp::from_unix(-8_334_601_228_801, 0).is_none());
    assert!(Timestamp::from_unix(0, 1_000_000_000).is_none());
    assert!(Timestamp::from_unix(59, 1_999_999_999).is_some());
    assert!(Timestamp::from_unix(-1, 1_999_999_999).is_some());
    assert!(Timestamp::from_unix(59, 2_000_000_000).is_none());
    let first = Timestamp::from_unix(-8_334_601_228_800, 0).unwrap();
    assert_eq!(format_timestamp(first), "-262143-01-01T00:00:00.000Z");
    let last = Timestamp::from_unix(8_210_266_876_799, 1_500_000_000).unwrap();
    assert!(format_timestamp(last).starts_with("+262142-12-31T23:59:60"));
}

#[test]
fn test_timestamp_in_nanoseconds() {
    let nanos = |secs: i64, nanos: u32| Timestamp::from_unix(secs, nanos).unwrap().timestamp_nanos();
    assert_eq!(nanos(0, 5), Some(5));
    assert_eq!(nanos(-1, 999_999_999), Some(-1));
    assert_eq!(nanos(9_223_372_036, 854_775_807), Some(i64::MAX));
    assert_eq!(nanos(9_223_372_036, 854_775_808), None);
    assert_eq!(nanos(-9_223_372_037, 145_224_192), Some(i64::MIN));
    assert_eq!(nanos(-9_223_372_037, 145_224_191), None);
}

#[test]
fn test_now_is_after_the_first_of_2020() {
    assert!(Timestamp::now().seconds() > 1_577_836_800);
    assert!(Timestamp::now().subsec_nanos() < 1_000_000_000);
}
