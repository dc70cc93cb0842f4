use docx::catalog::{schema, ITALICS, KINDS, PARAGRAPH, RUN, TABLES, TOP_BORDER};
use docx::decode::{decode_element, decode_root, default_of};
use docx::document::{Paragraph, Run};
use docx::entity::{Element, Entity};
use docx::error::DecodeError;
use docx::formatting::{Italics, TopBorder};
use docx::lexer::tokenize;
use docx::node::{Node, Scalar};
use docx::schema::{Cardinality, Codec, Content, Name};
use docx::token::{ElementEnd, Reader, Token};
use docx::writer::qualified_name;

fn start(prefix: &str, local: &str) -> Token {
    Token::ElementStart { prefix: prefix.to_string(), local: local.to_string() }
}

fn attribute(prefix: &str, local: &str, value: &str) -> Token {
    Token::Attribute {
        prefix: prefix.to_string(),
        local: local.to_string(),
        value: value.to_string(),
    }
}

fn close(prefix: &str, local: &str) -> Token {
    Token::ElementEnd {
        end: ElementEnd::Close { prefix: prefix.to_string(), local: local.to_string() },
    }
}

fn open() -> Token {
    Token::ElementEnd { end: ElementEnd::Open }
}

fn empty() -> Token {
    Token::ElementEnd { end: ElementEnd::Empty }
}

#[test]
fn the_model_has_its_kinds_and_tables() {
    let s = schema();
    assert_eq!(s.kinds.len(), KINDS);
    assert_eq!(s.symbols.len(), TABLES);
    assert_eq!(Italics::kind(), ITALICS);
    assert_eq!(Paragraph::kind(), PARAGRAPH);
    let d = &s.kinds[PARAGRAPH];
    assert_eq!(qualified_name(&d.tag.prefix, &d.tag.local), "w:p");
    assert_eq!(d.content, Content::Children);
    assert_eq!(d.attributes.len(), 1);
    assert_eq!(d.attributes[0].codec, Codec::HexId);
    assert!(!d.attributes[0].required);
    assert_eq!(d.slots.len(), 2);
    assert_eq!(d.slots[0].cardinality, Cardinality::Default);
    assert_eq!(d.slots[1].cardinality, Cardinality::Many);
    assert_eq!(d.slots[1].alternatives.len(), 6);
    assert_eq!(d.slots[1].alternatives[2].kind, RUN);
    for (k, d) in s.kinds.iter().enumerate() {
        for slot in &d.slots {
            for alt in &slot.alternatives {
                assert!(alt.kind < KINDS);
                assert_eq!(format!("{:?}", s.kinds[alt.kind].tag), format!("{:?}", alt.tag));
                if slot.cardinality == Cardinality::Default {
                    assert!(alt.kind < k);
                }
            }
        }
    }
}

#[test]
fn names_are_compared_char_by_char() {
    let name = Name::new("w", "p");
    assert!(name.is(&"w".to_string(), &"p".to_string()));
    assert!(!name.is(&"W".to_string(), &"p".to_string()));
    assert!(!name.is(&"".to_string(), &"w:p".to_string()));
    assert_eq!(qualified_name(&"".to_string(), &"p".to_string()), "p");
    assert_eq!(qualified_name(&"a".to_string(), &"b".to_string()), "a:b");
}

#[test]
fn decode_element_reads_from_behind_the_start_tag() {
    let s = schema();
    let tokens = vec![
        attribute("w", "val", "true"),
        attribute("w", "unknown", "&bogus;"),
        empty(),
        Token::Misc,
    ];
    let mut reader = Reader::new(&tokens);
    let node = decode_element(&s, ITALICS, &mut reader).unwrap();
    assert_eq!(node.kind, ITALICS);
    assert!(matches!(node.attributes[0], Some(Scalar::Flag(true))));
    assert!(matches!(reader.next(), Some(Token::Misc)));
    assert!(reader.next().is_none());
    assert_eq!(Italics::from_node(&node), Italics::from(true));
}

#[test]
fn decode_last_attribute_of_two_wins() {
    let s = schema();
    let tokens = vec![attribute("w", "sz", "1"), attribute("w", "sz", "2"), empty()];
    let mut reader = Reader::new(&tokens);
    let node = decode_element(&s, TOP_BORDER, &mut reader).unwrap();
    assert_eq!(TopBorder::from_node(&node).size, Some(2));
}

#[test]
fn decode_known_attribute_with_bad_entity_is_malformed() {
    let s = schema();
    let tokens = vec![attribute("w", "val", "&bogus;"), empty()];
    let mut reader = Reader::new(&tokens);
    assert_eq!(decode_element(&s, ITALICS, &mut reader).err(), Some(DecodeError::MalformedStream));
}

#[test]
fn decode_invalid_token_is_malformed() {
    let s = schema();
    for tokens in [
        vec![Token::Invalid],
        vec![open(), Token::Invalid],
        vec![open(), start("x", "y"), Token::Invalid],
        vec![open(), start("w", "r"), Token::Invalid],
        vec![start("w", "i")],
        vec![close("w", "p")],
        vec![open(), open()],
        vec![open(), attribute("w", "val", "1")],
        vec![],
    ] {
        let mut reader = Reader::new(&tokens);
        assert_eq!(
            decode_element(&s, PARAGRAPH, &mut reader).err(),
            Some(DecodeError::MalformedStream),
            "{:?}",
            tokens
        );
    }
}

#[test]
fn decode_skips_unknown_children_with_all_they_hold() {
    let s = schema();
    let tokens = vec![
        open(),
        start("x", "a"),
        attribute("", "k", "v"),
        open(),
        start("w", "r"),
        empty(),
        start("x", "a"),
        open(),
        Token::Text { text: "t".to_string() },
        close("x", "a"),
        close("x", "a"),
        start("w", "r"),
        empty(),
        close("w", "p"),
    ];
    let mut reader = Reader::new(&tokens);
    let node = decode_element(&s, PARAGRAPH, &mut reader).unwrap();
    let p = Paragraph::from_node(&node);
    assert_eq!(p, Paragraph::default().push(Run::default()));
    assert!(reader.next().is_none());
}

#[test]
fn decode_root_passes_over_what_stands_before() {
    let s = schema();
    let tokens = vec![Token::Misc, Token::Misc, start("w", "i"), empty()];
    let mut reader = Reader::new(&tokens);
    let node = decode_root(&s, ITALICS, &mut reader).unwrap();
    assert_eq!(Italics::from_node(&node), Italics::default());
    let tokens = vec![Token::Text { text: "x".to_string() }, start("w", "i"), empty()];
    let mut reader = Reader::new(&tokens);
    assert_eq!(decode_root(&s, ITALICS, &mut reader).err(), Some(DecodeError::MalformedStream));
}

#[test]
fn default_of_a_kind_is_the_default_of_its_type() {
    let s = schema();
    let node: Node = default_of(&s, RUN);
    assert_eq!(Run::from_node(&node), Run::default());
    assert_eq!(format!("{:?}", Run::default().to_node()), format!("{:?}", node));
}

#[test]
fn to_node_and_from_node_are_inverse() {
    let p = Paragraph::default().push_text("a").push(Run::default());
    assert_eq!(Paragraph::from_node(&p.to_node()), p);
    let b = TopBorder::default().size(3).color("red".to_string());
    assert_eq!(TopBorder::from_node(&b.to_node()), b);
}

#[test]
fn reader_peek_and_next() {
    let tokens = tokenize("<a/>");
    let mut reader = Reader::new(&tokens);
    assert!(matches!(reader.peek(), Some(Token::ElementStart { .. })));
    assert!(matches!(reader.next(), Some(Token::ElementStart { .. })));
    assert!(matches!(reader.peek(), Some(Token::ElementEnd { end: ElementEnd::Empty })));
    assert!(matches!(reader.next(), Some(Token::ElementEnd { end: ElementEnd::Empty })));
    assert!(reader.peek().is_none());
    assert!(reader.next().is_none());
    assert!(reader.next().is_none());
}

#[test]
fn one_sink_takes_one_value_after_another() {
    let mut sink = docx::writer::Sink::new();
    Italics::from(true).to_writer(&mut sink).unwrap();
    Paragraph::default().to_writer(&mut sink).unwrap();
    docx::document::Drawing::default().to_writer(&mut sink).unwrap();
    TopBorder::default().color("a<b".to_string()).to_writer(&mut sink).unwrap();
    assert_eq!(
        sink.into_string(),
        r#"<w:i w:val="true"/><w:p><w:pPr/></w:p><w:top w:color="a&lt;b"/>"#
    );
    assert_eq!(docx::writer::Sink::new().into_string(), "");
}
