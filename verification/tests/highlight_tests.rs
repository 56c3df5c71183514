use pdxdoc::docstring::{DocString, DocStringSegment, DocStringSer};
use pdxdoc::highlight::{
    HighlightError, HighlightEvent, HighlightToken, HighlightedWriter, Operator, SyntaxHighlighter,
};

fn text(t: &str) -> String {
    format!("<span class=\"pd-token-Text\">{}</span>", t)
}

fn ident(t: &str) -> String {
    format!("<span class=\"pd-token-Identifier\">{}</span>", t)
}

fn number(t: &str) -> String {
    format!("<span class=\"pd-token-Number\">{}</span>", t)
}

fn highlight(events: Vec<HighlightEvent>) -> Result<String, HighlightError> {
    let mut s = String::new();
    SyntaxHighlighter::to_html(&mut s, &events).map(|_| s)
}

fn property(key: &str, value: HighlightEvent) -> Vec<HighlightEvent> {
    vec![
        HighlightEvent::Property,
        HighlightEvent::Identifier(key.to_string()),
        HighlightEvent::Direct(" = ".to_string()),
        value,
    ]
}

#[test]
fn object_with_two_properties_renders_as_block() {
    let mut events = vec![
        HighlightEvent::Identifier("root".to_string()),
        HighlightEvent::Direct(" = ".to_string()),
        HighlightEvent::BeginObject,
        HighlightEvent::BeginObject,
    ];
    events.extend(property("a", HighlightEvent::Integer(1)));
    events.extend(property("b", HighlightEvent::Integer(2)));
    events.push(HighlightEvent::EndObject);
    events.push(HighlightEvent::EndObject);
    let html = highlight(events).unwrap();
    let expected = [
        "<div class=\"pd-highlight\">".to_string(),
        ident("root"),
        text(" &#x3D; { "),
        "<br/>".to_string(),
        ident("a"),
        text(" &#x3D; "),
        number("1"),
        "<br/>".to_string(),
        text("    "),
        ident("b"),
        text(" &#x3D; "),
        number("2"),
        "<br/>".to_string(),
        text("}"),
        "<br/>".to_string(),
        "</div>".to_string(),
    ]
    .concat();
    assert_eq!(html, expected);
}

#[test]
fn block_object_puts_each_property_and_the_brace_on_its_own_line() {
    let mut w = HighlightedWriter::new();
    w.begin_object(None);
    w.begin_object(Some(2));
    w.write_property().unwrap();
    w.write_identifier("a");
    w.write_property().unwrap();
    w.write_identifier("b");
    w.end_object().unwrap();
    let out = w.output.clone();
    assert_eq!(out.matches("<br/>").count(), 2);
    let closing = out.rfind("<br/>").unwrap();
    assert_eq!(&out[closing..], format!("<br/>{}", text("}")));
    assert_eq!(w.depth, 0);
    assert_eq!(w.frames.len(), 1);
}

#[test]
fn short_array_renders_on_one_line() {
    let events = vec![
        HighlightEvent::BeginObject,
        HighlightEvent::BeginArray(Some(3)),
        HighlightEvent::Integer(1),
        HighlightEvent::Direct(" ".to_string()),
        HighlightEvent::Integer(2),
        HighlightEvent::Direct(" ".to_string()),
        HighlightEvent::Integer(3),
        HighlightEvent::EndArray,
    ];
    let html = highlight(events).unwrap();
    let expected = [
        "<div class=\"pd-highlight\">".to_string(),
        text("{ "),
        number("1"),
        text(" "),
        number("2"),
        text(" "),
        number("3"),
        text(" }"),
        "</div>".to_string(),
    ]
    .concat();
    assert_eq!(html, expected);
    assert!(!html.contains("<br/>"));
}

#[test]
fn array_of_four_or_of_unknown_length_is_a_block() {
    for length in [Some(4), None] {
        let mut w = HighlightedWriter::new();
        w.begin_object(None);
        w.begin_array(length);
        assert_eq!(w.depth, 1);
        assert!(!w.frames[1].same_line);
        w.end_array().unwrap();
        assert_eq!(w.depth, 0);
        assert!(w.output.contains("<br/>"));
    }
    let mut w = HighlightedWriter::new();
    w.begin_object(None);
    w.begin_array(Some(3));
    assert_eq!(w.depth, 0);
    assert!(w.frames[1].same_line);
}

#[test]
fn top_level_scalar_is_not_indented() {
    let html = highlight(vec![HighlightEvent::Identifier("yes_please".to_string())]).unwrap();
    assert_eq!(html, format!("<div class=\"pd-highlight\">{}</div>", ident("yes_please")));
}

#[test]
fn consecutive_text_is_one_span() {
    let mut w = HighlightedWriter::new();
    w.write_direct("a");
    w.write_direct("b");
    w.write_text("c");
    assert_eq!(w.output, "");
    w.write_identifier("x");
    assert_eq!(w.output, format!("{}{}", text("abc"), ident("x")));
    assert_eq!(w.current_text, "");
}

#[test]
fn scalar_events_and_their_classes() {
    let mut w = HighlightedWriter::new();
    w.write_string("a<b");
    w.write_date("1836.1.1");
    w.write_boolean(true);
    w.write_boolean(false);
    w.write_placeholder("value");
    w.write_integer(-42);
    w.write_integer(0);
    w.write_integer(i64::MIN);
    w.write_decimal("0.5");
    w.write_operator(Operator::GreaterThanEq);
    w.write_operator(Operator::LessThan);
    let expected = [
        "<span class=\"pd-token-String\">&quot;a&lt;b&quot;</span>",
        "<span class=\"pd-token-Date\">1836.1.1</span>",
        "<span class=\"pd-token-Bool\">yes</span>",
        "<span class=\"pd-token-Bool\">no</span>",
        "<span class=\"pd-token-Placeholder\">&lt;value&gt;</span>",
        "<span class=\"pd-token-Number\">-42</span>",
        "<span class=\"pd-token-Number\">0</span>",
        "<span class=\"pd-token-Number\">-9223372036854775808</span>",
        "<span class=\"pd-token-Number\">0.5</span>",
        "<span class=\"pd-token-Operator\">&gt;&#x3D;</span>",
        "<span class=\"pd-token-Operator\">&lt;</span>",
    ]
    .concat();
    assert_eq!(w.output, expected);
    assert_eq!(HighlightToken::Comment.name(), "Comment");
}

#[test]
fn escaping_covers_every_special_character() {
    let mut w = HighlightedWriter::new();
    w.write_identifier("<>\"&'`=x");
    assert_eq!(w.output, ident("&lt;&gt;&quot;&amp;&#x27;&#x60;&#x3D;x"));
}

#[test]
fn first_comment_stays_on_the_first_line() {
    let mut w = HighlightedWriter::new();
    w.begin_object(None);
    w.write_comment("note").unwrap();
    assert_eq!(w.output, "<span class=\"pd-token-Comment\"># note</span>");
}

#[test]
fn later_comment_starts_its_own_line() {
    let mut w = HighlightedWriter::new();
    w.begin_object(None);
    w.begin_object(None);
    w.write_identifier("a");
    w.write_comment("note").unwrap();
    let expected = [
        text("{ "),
        ident("a"),
        "<br/>".to_string(),
        text("    "),
        "<span class=\"pd-token-Comment\"># note</span>".to_string(),
    ]
    .concat();
    assert_eq!(w.output, expected);
}

#[test]
fn closing_without_opening_is_a_depth_mismatch() {
    assert_eq!(highlight(vec![HighlightEvent::EndObject]), Err(HighlightError::DepthMismatch));
    let mut w = HighlightedWriter::new();
    assert_eq!(w.end_array(), Err(HighlightError::DepthMismatch));
}

#[test]
fn indenting_outside_every_collection_fails() {
    let mut w = HighlightedWriter::new();
    assert_eq!(w.indent(), Err(HighlightError::NegativeIndent));
    let events = vec![
        HighlightEvent::Identifier("a".to_string()),
        HighlightEvent::Comment("late".to_string()),
    ];
    assert_eq!(highlight(events), Err(HighlightError::NegativeIndent));
}

#[test]
fn property_needs_an_object() {
    assert_eq!(highlight(vec![HighlightEvent::Property]), Err(HighlightError::NoCollection));
    let events = vec![
        HighlightEvent::BeginObject,
        HighlightEvent::BeginArray(Some(1)),
        HighlightEvent::Property,
    ];
    assert_eq!(highlight(events), Err(HighlightError::PropertyInArray));
}

#[test]
fn failed_highlighting_keeps_what_was_emitted() {
    let mut s = String::from("before");
    let events = vec![HighlightEvent::Identifier("a".to_string()), HighlightEvent::EndArray];
    let r = SyntaxHighlighter::to_html(&mut s, &events);
    assert_eq!(r, Err(HighlightError::DepthMismatch));
    assert_eq!(s, format!("before<div class=\"pd-highlight\">{}", ident("a")));
}

#[test]
fn doc_string_wraps_text_in_paragraphs_and_code_outside() {
    let doc = DocString {
        segments: vec![
            DocStringSegment::Text { contents: "Intro ".to_string() },
            DocStringSegment::Link { contents: "country".to_string(), url: "scopes/country.html".to_string() },
            DocStringSegment::RawCode { contents: "x = y".to_string() },
            DocStringSegment::Symbol { identifier: "a<b".to_string() },
            DocStringSegment::Concept { identifier: "c&d".to_string() },
            DocStringSegment::Code { contents: vec![HighlightEvent::Boolean(true)] },
            DocStringSegment::Text { contents: "end".to_string() },
        ],
    };
    let html = DocStringSer(doc, 1).to_html().unwrap();
    let expected = [
        "<p>Intro ",
        "<a href=\"scopes/country.html\">country</a>",
        "</p><div class=\"pd-raw-code\">x = y</div>",
        "<p><span class=\"pd-symbol-missing\">[symbol: a&lt;b]</span>",
        "<span class=\"pd-concept-missing\">[c&amp;d]</span>",
        "</p><div class=\"pd-highlight\"><span class=\"pd-token-Bool\">yes</span></div>",
        "<p>end",
    ]
    .concat();
    assert_eq!(html, expected);
}

#[test]
fn doc_string_reports_the_first_failing_segment() {
    let doc = DocString {
        segments: vec![
            DocStringSegment::Text { contents: "a".to_string() },
            DocStringSegment::Code { contents: vec![HighlightEvent::Property] },
            DocStringSegment::Code { contents: vec![HighlightEvent::EndObject] },
        ],
    };
    assert_eq!(DocStringSer(doc, 1).to_html(), Err(HighlightError::NoCollection));
    assert_eq!(DocStringSer(DocString::empty(), 1).to_html(), Ok(String::new()));
}

#[test]
fn doc_string_constructors() {
    let joined = DocString::new_from_iter(
        vec![
            DocStringSegment::Text { contents: "a".to_string() },
            DocStringSegment::Text { contents: "b".to_string() },
            DocStringSegment::Text { contents: "c".to_string() },
        ],
        ", ",
    );
    assert_eq!(DocStringSer(joined, 0).to_html().unwrap(), "<p>a, b, c");
    assert_eq!(DocString::new_from_iter(vec![], ", ").segments.len(), 0);
    assert_eq!(DocStringSer(DocString::from_flag(true), 0).to_html().unwrap(), "<p>yes");
    assert_eq!(DocStringSer(DocString::from_flag(false), 0).to_html().unwrap(), "<p>no");
    let copy = DocString::from_text("x").duplicate();
    assert_eq!(DocStringSer(copy, 0).to_html().unwrap(), "<p>x");
}

#[test]
fn rendering_can_be_tried() {
    let doc = DocString {
        segments: vec![
            DocStringSegment::Text { contents: "a".to_string() },
            DocStringSegment::Code { contents: vec![HighlightEvent::Integer(7)] },
        ],
    };
    assert!(doc.is_well_formed());
    let rendered = DocStringSer(doc, 3).try_to_html();
    assert_eq!(
        rendered,
        Some(Ok("<p>a</p><div class=\"pd-highlight\"><span class=\"pd-token-Number\">7</span></div>"
            .to_string()))
    );
}
