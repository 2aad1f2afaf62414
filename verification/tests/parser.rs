use mini_poml::parser::{PomlElementKind, PomlParser};
use mini_poml::error::ErrorKind;
use mini_poml::{PomlNode, PomlNodePosition};

#[test]
fn tokenize_simple_poml() {
    let doc = r#"<poml syntax="markdown"><p> Hello, {{ name }}! </p></poml>"#;
    let mut parser = PomlParser::from_poml_str(doc);
    let elements = parser.parse_as_elements().unwrap();
    assert_eq!(elements.len(), 6);
    assert_eq!(elements[0].kind, PomlElementKind::Tag);
    assert_eq!(
        &doc[elements[0].start_pos..elements[0].end_pos],
        "<poml syntax=\"markdown\">"
    );
    assert_eq!(elements[1].kind, PomlElementKind::Tag);
    assert_eq!(&doc[elements[1].start_pos..elements[1].end_pos], "<p>");
    assert_eq!(elements[2].kind, PomlElementKind::Whitespace);
    assert_eq!(elements[3].kind, PomlElementKind::Text);
    assert_eq!(
        &doc[elements[3].start_pos..elements[3].end_pos],
        "Hello, {{ name }}! "
    );
    assert_eq!(elements[4].kind, PomlElementKind::Tag);
    assert_eq!(&doc[elements[4].start_pos..elements[4].end_pos], "</p>");
    assert_eq!(elements[4].kind, PomlElementKind::Tag);
    assert_eq!(&doc[elements[5].start_pos..elements[5].end_pos], "</poml>");
}

#[test]
fn tokenize_tag_with_escape_in_attributes() {
    let doc = r#"<let name="foo" value=">bar\"" />"#;
    let mut parser = PomlParser::from_poml_str(doc);
    let elements = parser.parse_as_elements().unwrap();
    let element = &elements[0];
    assert_eq!(element.kind, PomlElementKind::Tag);
    assert_eq!(element.start_pos, 0);
    assert_eq!(element.end_pos, doc.len());
}

#[test]
fn parse_as_node_simple_doc() {
    let doc = r#"
        <poml syntax="markdown">
            <p>Hello, {{ name }}!</p>
        </poml>
        "#;
    let mut parser = PomlParser::from_poml_str(doc);
    let node = parser.parse_as_node().unwrap();
    assert_eq!(node.name, "poml".as_bytes());
    assert_eq!(node.attributes.len(), 1);
    assert_eq!(
        node.attributes.first().unwrap(),
        &("syntax".as_bytes(), "\"markdown\"".as_bytes())
    );
    let tag_children: Vec<&PomlNode> = node.children.iter().filter(|v| v.is_tag()).collect();
    assert_eq!(tag_children.len(), 1);
    let PomlNode::Tag(p_node) = tag_children.first().unwrap() else {
        panic!()
    };
    assert_eq!(p_node.name, "p".as_bytes());
    assert_eq!(
        p_node.children.first().unwrap(),
        &PomlNode::Text(
            "Hello, {{ name }}!".as_bytes(),
            PomlNodePosition { start: 49, end: 67 }
        )
    )
}

#[test]
fn parse_unfinished_doc() {
    let doc = r#"
        <poml syntax="markdown">
            <p> Hello, {{ name }}! </p>
        "#;
    let mut parser = PomlParser::from_poml_str(doc);
    let node = parser.parse_as_node();
    assert!(node.is_err());
}

#[test]
fn parse_close_tag_without_open() {
    let doc = r#"
        <poml syntax="markdown">
            <h1> Hello, {{ name }}! </p>
        </poml>
        "#;
    let mut parser = PomlParser::from_poml_str(doc);
    let node = parser.parse_as_node();
    assert!(node.is_err());
    let err = node.unwrap_err();
    assert!(err.message.contains("position (2, 37)"))
}

#[test]
fn parse_no_poml_root_doc() {
    let doc = r#"
            <p> Hello, {{ name }}! </p>
            <p> Good bye, {{ name }}! </p>
        "#;
    let mut parser = PomlParser::from_poml_str(doc);
    let node = parser.parse_as_node().unwrap();
    assert_eq!(node.children.iter().filter(|v| v.is_tag()).count(), 2);
}

#[test]
fn parse_multiple_same_key_attribute_doc() {
    let doc = r#"
        <poml syntax="markdown" syntax="json"></poml>
        "#;
    let mut parser = PomlParser::from_poml_str(doc);
    assert!(parser.parse_as_node().is_err());
}

#[test]
fn duplicate_attribute_is_a_parser_error() {
    let mut parser = PomlParser::from_poml_str(r#"<poml syntax="a" syntax="b"></poml>"#);
    let err = parser.parse_as_node().unwrap_err();
    assert_eq!(err.kind, ErrorKind::ParserError);
    assert!(err.pending.is_none());
    assert_eq!(err.describe(), format!("ParserError: {}", err.message));
}

#[test]
fn nested_tags_keep_document_order() {
    let mut parser = PomlParser::from_poml_str("<poml><a><b></b><c/></a><d></d></poml>");
    let root = parser.parse_as_node().unwrap();
    assert_eq!(root.name, b"poml");
    assert_eq!(root.original_pos, PomlNodePosition { start: 0, end: 38 });
    assert_eq!(root.children.len(), 2);
    let PomlNode::Tag(a) = &root.children[0] else { panic!() };
    let PomlNode::Tag(d) = &root.children[1] else { panic!() };
    assert_eq!(a.name, b"a");
    assert_eq!(d.name, b"d");
    assert_eq!(a.original_pos, PomlNodePosition { start: 6, end: 24 });
    assert_eq!(a.children.len(), 2);
    let PomlNode::Tag(b) = &a.children[0] else { panic!() };
    let PomlNode::Tag(c) = &a.children[1] else { panic!() };
    assert_eq!(b.name, b"b");
    assert_eq!(c.name, b"c");
    assert_eq!(c.original_pos, PomlNodePosition { start: 16, end: 20 });
}

#[test]
fn mismatched_and_unclosed_tags_are_parser_errors() {
    for doc in ["<poml><a></b></poml>", "<poml><a></poml>", "<poml><a>", "</poml>", "<poml"] {
        let mut parser = PomlParser::from_poml_str(doc);
        let err = parser.parse_as_node().unwrap_err();
        assert_eq!(err.kind, ErrorKind::ParserError, "{}", doc);
    }
}

#[test]
fn self_closed_root_is_rejected() {
    let mut parser = PomlParser::from_poml_str("<poml/>");
    assert_eq!(parser.parse_as_node().unwrap_err().kind, ErrorKind::ParserError);
}

#[test]
fn implicit_root_spans_the_document() {
    let doc = "<p>x</p> <p>y</p>";
    let mut parser = PomlParser::from_poml_str(doc);
    let root = parser.parse_as_node().unwrap();
    assert_eq!(root.name, b"poml");
    assert_eq!(root.original_pos, PomlNodePosition { start: 0, end: doc.len() });
    assert_eq!(root.children.len(), 3);
    assert!(root.children[1].is_whitespace());
}

#[test]
fn attribute_errors() {
    for doc in [
        r#"<poml a "x"></poml>"#,
        r#"<poml a=x></poml>"#,
        r#"<poml a="x></poml>"#,
        r#"<poml a=></poml>"#,
    ] {
        let mut parser = PomlParser::from_poml_str(doc);
        assert_eq!(parser.parse_as_node().unwrap_err().kind, ErrorKind::ParserError, "{}", doc);
    }
}

#[test]
fn attribute_values_keep_quotes_and_escapes() {
    let mut parser = PomlParser::from_poml_str(r#"<poml a = "x\"y"  b="">t</poml>"#);
    let root = parser.parse_as_node().unwrap();
    assert_eq!(root.attributes.len(), 2);
    assert_eq!(root.attributes[0], ("a".as_bytes(), r#""x\"y""#.as_bytes()));
    assert_eq!(root.attributes[1], ("b".as_bytes(), r#""""#.as_bytes()));
}

#[test]
fn line_and_column() {
    let parser = PomlParser::from_poml_str("ab\ncd\n\nef");
    assert_eq!(parser.line_end_pos, vec![2, 5, 6, 9]);
    assert_eq!(parser.get_line_and_col_from_pos(0), (0, 0));
    assert_eq!(parser.get_line_and_col_from_pos(1), (0, 1));
    assert_eq!(parser.get_line_and_col_from_pos(2), (0, 2));
    assert_eq!(parser.get_line_and_col_from_pos(3), (1, 1));
    assert_eq!(parser.get_line_and_col_from_pos(5), (1, 3));
    assert_eq!(parser.get_line_and_col_from_pos(6), (2, 1));
    assert_eq!(parser.get_line_and_col_from_pos(8), (3, 2));
    assert_eq!(parser.get_line_and_col_from_pos(9), (4, 0));
}

#[test]
fn empty_document() {
    let mut parser = PomlParser::from_poml_str("");
    assert_eq!(parser.pos, 0);
    assert_eq!(parser.line_end_pos, vec![0]);
    assert_eq!(parser.parse_as_node().unwrap_err().kind, ErrorKind::ParserError);
}

#[test]
fn cursor_starts_after_leading_whitespace() {
    let parser = PomlParser::from_poml_str(" \n\t<poml></poml>");
    assert_eq!(parser.pos, 3);
    let blank = PomlParser::from_poml_str("  \n");
    assert_eq!(blank.pos, 3);
    assert_eq!(blank.line_end_pos, vec![2]);
}

#[test]
fn messages_name_the_place() {
    let mut parser = PomlParser::from_poml_str("<poml>\n  <a></b>\n</poml>");
    let e = parser.parse_as_node().unwrap_err();
    assert_eq!(
        e.message,
        "Close tag of </b> appears at position (1, 6), but the open tag is <a>"
    );
    let mut parser = PomlParser::from_poml_str("<poml>\n<a");
    let e = parser.parse_as_node().unwrap_err();
    assert_eq!(e.message, "Tag starting from 7 is not complete");
    let mut parser = PomlParser::from_poml_str("text");
    let e = parser.parse_as_node().unwrap_err();
    assert_eq!(e.message, "Text appears without a node at position (0, 0)");
    let mut parser = PomlParser::from_poml_str("<poml a=\"1\" a=\"2\"/>");
    let e = parser.parse_as_node().unwrap_err();
    assert_eq!(e.message, "Duplicate attribute key at position (0, 12)");
}
