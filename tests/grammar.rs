use html_grammar::{
    Attribute, ClosingTag, ErrorKind, HtmlRawStrLit, HtmlStrLit, LeftAngleSlash, OpeningTag,
    OpeningTagTerminator, SlashRightAngle, Tag, TagContent,
};

fn chars(s: &str) -> Vec<char> {
    s.chars().collect()
}

fn text(c: &[char]) -> String {
    c.iter().collect()
}

fn parse_attribute(input: &str) -> (String, String) {
    let src = chars(input);
    let (attr, _) = Attribute::parse(&src, 0).unwrap();
    (text(attr.name.content()), text(attr.value.content()))
}

#[test]
fn attribute_test_simple() {
    let (name, value) = parse_attribute(r#" class="foo" "#);
    assert_eq!(name, "class");
    assert_eq!(value, "foo");
}

#[test]
fn test_style() {
    let (name, value) = parse_attribute(r#" style="color: red; details > p { color: blue; }" "#);
    assert_eq!(name, "style");
    assert_eq!(value, r#"color: red; details > p { color: blue; }"#);
}

#[test]
fn test() {
    let src = chars(r#" "4 &lt; 5"  "#);
    let (lit, _) = HtmlStrLit::parse(&src, 0).unwrap();
    assert_eq!(text(lit.content()), "4 < 5");
}

#[test]
fn test_raw() {
    let src = chars(r#" "4 < 5" "#);
    let (lit, _) = HtmlRawStrLit::parse(&src, 0).unwrap();
    assert_eq!(text(lit.content()), "4 < 5");
}

#[test]
fn test_terminator() {
    let src = chars(r#" /> "#);
    let (terminator, _) = OpeningTagTerminator::parse(&src, 0).unwrap();
    assert!(matches!(terminator, OpeningTagTerminator::Closed(_)));

    let src = chars(r#" > "#);
    let (terminator, _) = OpeningTagTerminator::parse(&src, 0).unwrap();
    assert!(matches!(terminator, OpeningTagTerminator::Open(_)));
}

#[test]
fn opening_tag_test_simple() {
    let src = chars(r#"<div>"#);
    let (tag, _) = OpeningTag::parse(&src, 0).unwrap();
    assert_eq!(text(tag.name.content()), "div");
    assert_eq!(tag.attributes.len(), 0);
    assert!(matches!(tag.terminator, OpeningTagTerminator::Open(_)));
}

#[test]
fn test_attributes() {
    let src = chars(r#"<div id="foo" class="bar">"#);
    let (tag, _) = OpeningTag::parse(&src, 0).unwrap();
    assert_eq!(text(tag.name.content()), "div");

    assert_eq!(tag.attributes.len(), 2);

    assert_eq!(text(tag.attributes[0].name.content()), "id");
    assert_eq!(text(tag.attributes[0].value.content()), "foo");

    assert_eq!(text(tag.attributes[1].name.content()), "class");
    assert_eq!(text(tag.attributes[1].value.content()), "bar");

    assert!(matches!(tag.terminator, OpeningTagTerminator::Open(_)));
}

#[test]
fn closing_tag() {
    let src = chars("</div>");
    let (closing_tag, _) = ClosingTag::parse(&src, 0).unwrap();
    assert_eq!(text(closing_tag.name.content()), "div");

    let src = chars("</div >");
    let (closing_tag, _) = ClosingTag::parse(&src, 0).unwrap();
    assert_eq!(text(closing_tag.name.content()), "div");

    let src = chars("</div>");
    let (closing_tag, _) = ClosingTag::parse(&src, 0).unwrap();
    assert_eq!(text(closing_tag.name.content()), "div");
}

#[test]
fn tag_test_simple() {
    let src = chars("<div></div>");
    let (tag, _) = Tag::parse(&src, 0).unwrap();
    assert_eq!(text(tag.opening_tag.name.content()), "div");
    assert_eq!(text(tag.closing_tag.unwrap().name.content()), "div");
    assert_eq!(tag.content.len(), 0);
}

#[test]
fn test_simple_content() {
    let src = chars("<div>Molkars wuz here</div>");
    let (tag, _) = Tag::parse(&src, 0).unwrap();
    assert_eq!(text(tag.opening_tag.name.content()), "div");
    assert_eq!(text(tag.closing_tag.unwrap().name.content()), "div");
    assert_eq!(tag.content.len(), 1);
    let TagContent::Text(t) = &tag.content[0] else {
        panic!("expected text");
    };

    assert_eq!(text(t), "Molkars wuz here");
}

#[test]
fn test_implicit() {
    let src = chars("<div><p>Hi There!</div>");
    let (tag, _) = Tag::parse(&src, 0).unwrap();
    println!("{:#?}", tag);
    assert_eq!(text(tag.opening_tag.name.content()), "div");
    assert_eq!(text(tag.closing_tag.unwrap().name.content()), "div");
    assert_eq!(tag.content.len(), 1);
    let TagContent::Tag(tag) = &tag.content[0] else {
        panic!("expected tag");
    };
    assert_eq!(text(tag.opening_tag.name.content()), "p");
    assert!(tag.closing_tag.is_none());
    assert_eq!(tag.content.len(), 1);
    let TagContent::Text(t) = &tag.content[0] else {
        panic!("expected text");
    };
    assert_eq!(text(t), "Hi There!");
}

#[test]
fn test_slash_right_angle() {
    for input in [r#"/>"#, r#" />"#, r#"  />"#] {
        let src = chars(input);
        let _: (SlashRightAngle, usize) = SlashRightAngle::parse(&src, 0).unwrap();
    }
}

#[test]
fn test_right_angle() {
    for input in [r#"</"#, r#" </"#, r#"  </"#] {
        let src = chars(input);
        let _: (LeftAngleSlash, usize) = LeftAngleSlash::parse(&src, 0).unwrap();
    }
}

#[test]
fn escaped_literal_without_entities_borrows() {
    let src = chars(r#""plain text""#);
    let (lit, e) = HtmlStrLit::parse(&src, 0).unwrap();
    assert_eq!(text(lit.content()), "plain text");
    assert!(lit.is_borrowed());
    assert_eq!(e, src.len());
    assert_eq!(lit.span().start, 0);
    assert_eq!(lit.span().end, src.len());
}

#[test]
fn escaped_literal_decodes_each_entity() {
    let src = chars(r#""&amp;|&lt;|&gt;|&#39;|&quot;""#);
    let (lit, _) = HtmlStrLit::parse(&src, 0).unwrap();
    assert_eq!(text(lit.content()), "&|<|>|&|\"");
    assert!(!lit.is_borrowed());
}

#[test]
fn escaped_literal_keeps_text_between_entities() {
    let src = chars(r#""a&lt;b&gt;c""#);
    let (lit, _) = HtmlStrLit::parse(&src, 0).unwrap();
    assert_eq!(text(lit.content()), "a<b>c");
}

#[test]
fn escaped_literal_rejects_unknown_entity() {
    let src = chars(r#""a &nbsp; b""#);
    let err = HtmlStrLit::parse(&src, 0).unwrap_err();
    assert_eq!(err.kind, ErrorKind::Hard);
    assert_eq!(err.span.start, 3);
}

#[test]
fn escaped_literal_unterminated_is_hard() {
    let src = chars(r#""abc"#);
    let err = HtmlStrLit::parse(&src, 0).unwrap_err();
    assert_eq!(err.kind, ErrorKind::Hard);
    assert_eq!(err.span.start, 4);
}

#[test]
fn literal_without_quote_is_mismatch() {
    let src = chars("  abc");
    let err = HtmlStrLit::parse(&src, 0).unwrap_err();
    assert_eq!(err.kind, ErrorKind::Mismatch);
    assert_eq!(err.span.start, 2);
    let err = HtmlRawStrLit::parse(&src, 0).unwrap_err();
    assert_eq!(err.kind, ErrorKind::Mismatch);
}

#[test]
fn raw_literal_keeps_entities() {
    let (name, value) = parse_attribute(r#"style="a &amp; b""#);
    assert_eq!(name, "style");
    assert_eq!(value, "a &amp; b");
}

#[test]
fn other_attributes_decode_entities() {
    let (name, value) = parse_attribute(r#"title="a &amp; b""#);
    assert_eq!(name, "title");
    assert_eq!(value, "a & b");
    let (_, value) = parse_attribute(r#"styles="a &amp; b""#);
    assert_eq!(value, "a & b");
}

#[test]
fn attribute_values_of_both_kinds() {
    let (_, value) = parse_attribute(r#"class="foo""#);
    assert_eq!(value, "foo");
    let (_, value) = parse_attribute(r#"style="color: red;""#);
    assert_eq!(value, "color: red;");
}

#[test]
fn attribute_without_equals_is_hard() {
    let src = chars("id \"x\"");
    let err = Attribute::parse(&src, 0).unwrap_err();
    assert_eq!(err.kind, ErrorKind::Hard);
    assert_eq!(err.span.start, 3);
}

#[test]
fn attribute_without_name_is_mismatch() {
    let src = chars(" >");
    let err = Attribute::parse(&src, 0).unwrap_err();
    assert_eq!(err.kind, ErrorKind::Mismatch);
    assert_eq!(err.span.start, 1);
}

#[test]
fn identifier_takes_letters_digits_dash_underscore() {
    let src = chars("  data-x_1=");
    let (id, e) = html_grammar::HtmlIdent::parse(&src, 0).unwrap();
    assert_eq!(text(id.content()), "data-x_1");
    assert_eq!(e, 10);
    assert_eq!(id.span().start, 2);
    let src = chars("1abc");
    let err = html_grammar::HtmlIdent::parse(&src, 0).unwrap_err();
    assert_eq!(err.kind, ErrorKind::Mismatch);
}

#[test]
fn self_closing_tag_has_no_content() {
    let src = chars("<div/>after</div>");
    let (tag, e) = Tag::parse(&src, 0).unwrap();
    assert!(matches!(tag.opening_tag.terminator, OpeningTagTerminator::Closed(_)));
    assert_eq!(tag.opening_tag.attributes.len(), 0);
    assert_eq!(tag.content.len(), 0);
    assert!(tag.closing_tag.is_none());
    assert_eq!(e, 6);
}

#[test]
fn hello_text_entry() {
    let src = chars("<div>Hello</div>");
    let (tag, e) = Tag::parse(&src, 0).unwrap();
    assert_eq!(tag.content.len(), 1);
    assert_eq!(text(tag.content[0].text().unwrap()), "Hello");
    assert_eq!(e, src.len());
}

#[test]
fn missing_closing_tag_closes_at_end() {
    let src = chars(r#"<div id="foo">"#);
    let (tag, e) = Tag::parse(&src, 0).unwrap();
    assert!(tag.closing_tag.is_none());
    assert_eq!(tag.content.len(), 0);
    assert_eq!(e, src.len());
}

#[test]
fn unmatched_closing_tag_is_left_unread() {
    let src = chars("<p>x</div>");
    let (tag, e) = Tag::parse(&src, 0).unwrap();
    assert!(tag.closing_tag.is_none());
    assert_eq!(e, 4);
}

#[test]
fn text_runs_concatenate_to_source_text() {
    let src = chars("<a>one<b>two<c/>three</b>four</a>");
    let (tag, _) = Tag::parse(&src, 0).unwrap();
    fn collect(t: &Tag, out: &mut String) {
        for c in &t.content {
            match c {
                TagContent::Text(s) => out.push_str(&text(s)),
                TagContent::Tag(inner) => collect(inner, out),
            }
        }
    }
    let mut out = String::new();
    collect(&tag, &mut out);
    assert_eq!(out, "onetwothreefour");
}

#[test]
fn broken_closing_tag_is_hard() {
    let src = chars("<div></ >");
    let err = Tag::parse(&src, 0).unwrap_err();
    assert_eq!(err.kind, ErrorKind::Hard);
}

#[test]
fn missing_terminator_is_hard() {
    let src = chars("<div id=\"a\"");
    let err = OpeningTag::parse(&src, 0).unwrap_err();
    assert_eq!(err.kind, ErrorKind::Hard);
    let src = chars("div");
    let err = OpeningTag::parse(&src, 0).unwrap_err();
    assert_eq!(err.kind, ErrorKind::Mismatch);
}

#[test]
fn content_entry_at_end_is_mismatch() {
    let src = chars("abc<x/>");
    let (entry, e) = TagContent::parse(&src, 0).unwrap();
    assert_eq!(text(entry.text().unwrap()), "abc");
    assert_eq!(e, 3);
    let (entry, e) = TagContent::parse(&src, 3).unwrap();
    assert!(entry.text().is_none());
    assert_eq!(e, 7);
    let err = TagContent::parse(&src, 7).unwrap_err();
    assert_eq!(err.kind, ErrorKind::Mismatch);
}

#[test]
fn error_context_is_kept() {
    let src = chars("<div><p =\"x\"></div>");
    let err = Tag::parse(&src, 0).unwrap_err();
    assert_eq!(err.kind, ErrorKind::Hard);
    assert!(err.context.len() >= 2);
}

#[test]
fn content_eq_compares_text() {
    let src = chars(r#"<div title="a &lt; b">"#);
    let (tag, _) = OpeningTag::parse(&src, 0).unwrap();
    assert!(tag.name.content_eq(&chars("div")));
    assert!(!tag.name.content_eq(&chars("div2")));
    assert!(tag.attributes[0].value.content_eq(&chars("a < b")));
    assert!(!tag.attributes[0].value.content_eq(&chars("a &lt; b")));
}

#[test]
fn closing_tag_of_no_open_element_closes_all_implicitly() {
    let src = chars("<a><b>x</c>");
    let (tag, e) = Tag::parse(&src, 0).unwrap();
    assert!(tag.closing_tag.is_none());
    assert_eq!(tag.content.len(), 1);
    let TagContent::Tag(inner) = &tag.content[0] else {
        panic!("expected tag");
    };
    assert!(inner.closing_tag.is_none());
    assert_eq!(text(inner.content[0].text().unwrap()), "x");
    assert_eq!(e, 7);
}

#[test]
fn whitespace_before_closing_tag_after_markup_is_not_text() {
    let src = chars("<a><b/> </a>");
    let (tag, e) = Tag::parse(&src, 0).unwrap();
    assert_eq!(tag.content.len(), 1);
    assert!(tag.closing_tag.is_some());
    assert_eq!(e, src.len());
    let src = chars("<a>x </a>");
    let (tag, _) = Tag::parse(&src, 0).unwrap();
    assert_eq!(text(tag.content[0].text().unwrap()), "x ");
}

#[test]
fn whitespace_before_nested_tag_is_not_text() {
    let src = chars("<a> <b>y</b> z\n</a>");
    let (tag, _) = Tag::parse(&src, 0).unwrap();
    assert_eq!(tag.content.len(), 2);
    assert!(tag.content[0].text().is_none());
    assert_eq!(text(tag.content[1].text().unwrap()), " z\n");
    let src = chars("  \t<b/>");
    let (entry, e) = TagContent::parse(&src, 0).unwrap();
    assert!(entry.text().is_none());
    assert_eq!(e, src.len());
    let src = chars("  ");
    let (entry, _) = TagContent::parse(&src, 0).unwrap();
    assert_eq!(text(entry.text().unwrap()), "  ");
}

#[test]
fn leading_whitespace_before_tag_is_skipped() {
    let src = chars("  <p>hi</p>");
    let (tag, e) = Tag::parse(&src, 0).unwrap();
    assert_eq!(text(tag.opening_tag.name.content()), "p");
    assert_eq!(e, src.len());
}
