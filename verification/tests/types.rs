//! Shared types: expansion of empty tags, and the text that serializers write.

use cirrus::protocol::error::S3Error;
use cirrus::protocol::markup::expand_empty_tags;
use cirrus::protocol::types::{deserialize_part_number, to_xml_string};
use quick_xml::se::to_string;
use serde::ser::SerializeStruct;
use serde::{Serialize, Serializer};

// -- expand_empty_tags -----------------------------------------------

#[test]
fn test_expand_empty_tags_basic() {
    let input = "<Foo><Bar/><Baz>content</Baz></Foo>";
    let output = expand_empty_tags(input);
    assert_eq!(output, "<Foo><Bar></Bar><Baz>content</Baz></Foo>");
}

#[test]
fn test_expand_empty_tags_no_change() {
    let input = "<Root><A>hello</A><B><C>world</C></B></Root>";
    let output = expand_empty_tags(input);
    assert_eq!(output, input);
}

#[test]
fn test_expand_empty_tags_trailing_slash_in_content() {
    // Must not expand non-tag patterns like "5 / 2" embedded in text
    let input = r#"<Math>5 / 2</Math>"#;
    let output = expand_empty_tags(input);
    assert_eq!(output, input);
}

#[test]
fn test_expand_empty_tags_utf8() {
    // Multi-byte UTF-8 characters must survive round-trip uncorrupted
    let input = "<Key>照片/cat.jpg</Key><Tag/>";
    let output = expand_empty_tags(input);
    assert_eq!(output, "<Key>照片/cat.jpg</Key><Tag></Tag>");
}

#[test]
fn test_expand_empty_tags_utf8_with_empty_tag() {
    // Empty string field alongside multi-byte UTF-8 in sibling element
    let input = "<Name>café</Name><Empty/><Value>日本語</Value>";
    let output = expand_empty_tags(input);
    assert_eq!(
        output,
        "<Name>café</Name><Empty></Empty><Value>日本語</Value>"
    );
}

#[test]
fn test_expand_empty_tags_comment() {
    // Self-closing-looking patterns inside XML comments must NOT be expanded
    let input = "<Root><!-- <Foo/> --><Bar/></Root>";
    let output = expand_empty_tags(input);
    assert!(
        output.contains("<!-- <Foo/> -->"),
        "comment content should be preserved: {output}"
    );
    assert!(
        output.contains("<Bar></Bar>"),
        "real tag should be expanded: {output}"
    );
    assert!(
        !output.contains("<!-- <Foo></Foo> -->"),
        "comment must not be mutated: {output}"
    );
}

#[test]
fn test_expand_empty_tags_comment_no_match() {
    // Comments without any /> patterns pass through cleanly
    let input = "<Root><!-- just a comment --><Tag/></Root>";
    let output = expand_empty_tags(input);
    assert_eq!(output, "<Root><!-- just a comment --><Tag></Tag></Root>");
}

#[test]
fn test_expand_empty_tags_mixed() {
    // Mix of real self-closing tags, comments with />, CDATA, and PIs
    let input = r#"<Root>
        <Empty/>
        <!-- <Fake/> -->
        <![CDATA[ <AlsoFake/> ]]>
        <?ignore <Nope/> ?>
        <Real/>
    </Root>"#;
    let output = expand_empty_tags(input);
    // Real self-closing tags should expand
    assert!(
        output.contains("<Empty></Empty>"),
        "Empty should expand: {output}"
    );
    assert!(
        output.contains("<Real></Real>"),
        "Real should expand: {output}"
    );
    // Comment content must stay intact
    assert!(
        output.contains("<!-- <Fake/> -->"),
        "comment must not expand: {output}"
    );
    // CDATA content must stay intact
    assert!(
        output.contains("<![CDATA[ <AlsoFake/> ]]>"),
        "CDATA must not expand: {output}"
    );
    // PI content must stay intact
    assert!(
        output.contains("<?ignore <Nope/> ?>"),
        "PI must not expand: {output}"
    );
}

#[test]
fn test_expand_empty_tags_cdata() {
    // CDATA sections pass through without expanding internal />
    let input = "<Data><![CDATA[some <Thing/> here]]></Data>";
    let output = expand_empty_tags(input);
    assert_eq!(output, input);
}

#[test]
fn test_expand_empty_tags_processing_instruction() {
    // Processing instructions pass through without expanding internal />
    let input = "<?xml-stylesheet href='style.css'?><Root><Tag/></Root>";
    let output = expand_empty_tags(input);
    assert!(
        output.contains("<?xml-stylesheet href='style.css'?>"),
        "PI preserved: {output}"
    );
    assert!(
        output.contains("<Tag></Tag>"),
        "real tag expanded: {output}"
    );
}

#[test]
fn test_expand_empty_tags_comment_with_multiple_slashes() {
    // Comment containing multiple /> patterns — none should expand
    let input = "<Root><!-- <A/> and <B/> --></Root>";
    let output = expand_empty_tags(input);
    assert_eq!(output, input);
}

#[test]
fn test_expand_empty_tags_nested_comment_like() {
    // Edge case: comment with --> appearing in text content should still work
    let input = "<Root><!-- comment with > in it --><Tag/></Root>";
    let output = expand_empty_tags(input);
    assert!(
        output.contains("<!-- comment with > in it -->"),
        "comment with > preserved: {output}"
    );
    assert!(
        output.contains("<Tag></Tag>"),
        "real tag expanded: {output}"
    );
}

#[test]
fn test_expand_empty_tags_of_any_name_and_attributes() {
    assert_eq!(expand_empty_tags("<s3:Tag/>"), "<s3:Tag></s3:Tag>");
    assert_eq!(expand_empty_tags("<a.b/>"), "<a.b></a.b>");
    assert_eq!(expand_empty_tags("<Tag a=\"b\"/>"), "<Tag a=\"b\"></Tag>");
    assert_eq!(expand_empty_tags("<A b=\"c\" d='e' />"), "<A b=\"c\" d='e'></A>");
    assert_eq!(expand_empty_tags("<A\n\tb='c'/>"), "<A\n\tb='c'></A>");
    assert_eq!(expand_empty_tags("<a b='x>y' c=\"'/>\"/>z"), "<a b='x>y' c=\"'/>\"></a>z");
}

#[test]
fn test_expand_empty_tags_heeds_quotes() {
    // What looks like the end of a self-closing tag stands in a value.
    assert_eq!(expand_empty_tags("<a b='x/>y'>"), "<a b='x/>y'>");
    assert_eq!(expand_empty_tags("<a b=\"x/>y\"><C/></a>"), "<a b=\"x/>y\"><C></C></a>");
    // A quote that is left open does not hide the tags that follow.
    assert_eq!(expand_empty_tags("<a b='x/><C/>"), "<a b='x/><C></C>");
    assert_eq!(expand_empty_tags("<a b='x><C/>'>"), "<a b='x><C></C>'>");
    assert_eq!(expand_empty_tags("<it's/>"), "<it's/>");
    assert_eq!(expand_empty_tags("<'a'/>"), "<'a'/>");
    assert_eq!(expand_empty_tags("it's <C/> isn't"), "it's <C></C> isn't");
}

#[test]
fn test_expand_empty_tags_keeps_what_is_no_tag() {
    assert_eq!(expand_empty_tags("< Foo />"), "<Foo></Foo>");
    assert_eq!(expand_empty_tags("</>"), "</>");
    assert_eq!(expand_empty_tags("< />"), "< />");
    assert_eq!(expand_empty_tags("<//>"), "<//>");
    assert_eq!(expand_empty_tags("<a//>"), "<a//>");
    assert_eq!(expand_empty_tags("<a<b/>"), "<a<b/>");
    assert_eq!(expand_empty_tags("<!x/>"), "<!x/>");
    assert_eq!(expand_empty_tags("<?pi a/?><A/>"), "<?pi a/?><A></A>");
    assert_eq!(expand_empty_tags("<Open/"), "<Open/");
    assert_eq!(expand_empty_tags("<!-- <A/> "), "<!-- <A/> ");
    assert_eq!(expand_empty_tags("<!---><A/>--->x<B/>"), "<!---><A/>--->x<B></B>");
    assert_eq!(expand_empty_tags("<![CDATA[]]]><A/>"), "<![CDATA[]]]><A></A>");
    assert_eq!(expand_empty_tags("<?><A/>?><B/>"), "<?><A/>?><B></B>");
    assert_eq!(expand_empty_tags("<\u{3000}\u{e9}t\u{e9}\u{a0}/>"), "<\u{e9}t\u{e9}></\u{e9}t\u{e9}>");
    assert_eq!(expand_empty_tags(""), "");
}

#[test]
fn test_expansion_twice_is_expansion_once() {
    for input in [
        "<Root><A/><!-- <B/> --><C d='e'/></Root>",
        "<s3:Tag/><a.b c='d' />",
        "<a//><b/ /><a<b/><c d='/>'/>",
        "<a 'b/> it's <c/> <d e='f/>",
        "<A/><A/>text<",
        "<![CDATA[<A/>",
        "plain",
    ] {
        let once = expand_empty_tags(input);
        assert_eq!(expand_empty_tags(&once), once);
    }
}

#[test]
fn test_text_tag_and_rest_are_expanded_apart() {
    for (a, name, b) in [
        ("", "Tag", ""),
        ("text > ", "s3:Tag", "<B/>"),
        ("/>", "a_b-c", "<!-- <C/> -->"),
    ] {
        let whole = format!("{a}<{name}/>{b}");
        let rest = expand_empty_tags(b);
        assert_eq!(expand_empty_tags(&whole), format!("{a}<{name}></{name}>{rest}"));
    }
    assert_eq!(expand_empty_tags("plain / > text"), "plain / > text");
}

struct TwoFields {
    a: String,
    b: String,
}

impl Serialize for TwoFields {
    fn serialize<S: Serializer>(&self, serializer: S) -> Result<S::Ok, S::Error> {
        let mut s = serializer.serialize_struct("S", 2)?;
        s.serialize_field("A", &self.a)?;
        s.serialize_field("B", &self.b)?;
        s.end()
    }
}

#[test]
fn test_to_xml_string_expands_empty_tags() {
    let s = TwoFields {
        a: "".into(),
        b: "val".into(),
    };
    let written = to_string(&s).map_err(|e| e.to_string());
    let xml = to_xml_string(written).expect("to_xml_string failed");
    assert!(
        !xml.contains("<A/>"),
        "self-closing tag should not appear: {xml}"
    );
    assert!(
        xml.contains("<A></A>"),
        "empty field should have open/close tags: {xml}"
    );
    assert!(xml.contains("<B>val</B>"));
}

#[test]
fn test_to_xml_string_reports_the_serializer_error() {
    let err = to_xml_string(Err("cannot write".to_string())).unwrap_err();
    assert_eq!(err.error_code(), "XmlSerializationError");
    assert_eq!(err.status_code(), 500);
    assert!(err.message().contains("cannot write"));
}

#[test]
fn test_part_number_validation_valid_values() {
    // Test minimum valid value
    assert_eq!(deserialize_part_number(1), Ok(1));
    // Test maximum valid value
    assert_eq!(deserialize_part_number(10000), Ok(10000));
    // Test middle value
    assert_eq!(deserialize_part_number(5000), Ok(5000));
}

#[test]
#[should_panic(expected = "PartNumber must be between 1 and 10000")]
fn test_part_number_validation_invalid_zero() {
    deserialize_part_number(0).expect("deserialize should fail for part number 0");
}

#[test]
#[should_panic(expected = "PartNumber must be between 1 and 10000")]
fn test_part_number_validation_invalid_too_large() {
    deserialize_part_number(10001).expect("deserialize should fail for part number 10001");
}

#[test]
fn test_part_numbers_out_of_range_are_refused() {
    assert_eq!(
        deserialize_part_number(0),
        Err("PartNumber must be between 1 and 10000, got 0".to_string())
    );
    assert_eq!(
        deserialize_part_number(10001),
        Err("PartNumber must be between 1 and 10000, got 10001".to_string())
    );
}

#[test]
fn test_invalid_part_number_error() {
    let err = S3Error::invalid_part_number(4294967295);
    assert_eq!(err.code, "InvalidPartNumber");
    assert_eq!(err.message, "PartNumber must be between 1 and 10000, got 4294967295");
    assert_eq!(
        err.to_text(),
        "InvalidPartNumber: PartNumber must be between 1 and 10000, got 4294967295"
    );
}
