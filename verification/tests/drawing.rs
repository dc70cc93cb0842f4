use docx::document::Drawing;
use docx::error::DecodeError;

fn read(text: &str) -> Drawing {
    Drawing::parse(text).expect("begins with an element").expect("decodes")
}

#[test]
fn drawing_with_extent_and_picture() {
    let d = read(
        r#"<w:drawing><wp:inline><wp:extent cx="1" cy="2"/><a:graphic><a:graphicData><pic:pic><pic:blipFill><a:blip r:embed="rId4"/></pic:blipFill><pic:spPr><a:xfrm><a:ext cx="5486400" cy="3200400"/></a:xfrm></pic:spPr></pic:pic></a:graphicData></a:graphic></wp:inline></w:drawing>"#,
    );
    assert_eq!(d.embed.as_deref(), Some("rId4"));
    assert_eq!(d.width, Some(5486400));
    assert_eq!(d.height, Some(3200400));
}

#[test]
fn drawing_non_numeric_extent_is_absent() {
    let d = read(
        r#"<w:drawing><wp:inline><a:graphic><a:graphicData><pic:pic><pic:spPr><a:xfrm><a:ext cx="A" cy="7"/></a:xfrm></pic:spPr></pic:pic></a:graphicData></a:graphic></wp:inline></w:drawing>"#,
    );
    assert_eq!(d.width, None);
    assert_eq!(d.height, Some(7));
    assert_eq!(d.embed, None);
}

#[test]
fn drawing_empty_element() {
    let d = read("<w:drawing/>");
    assert_eq!(d.embed, None);
    assert_eq!(d.width, None);
    assert_eq!(d.height, None);
}

#[test]
fn drawing_no_tokens() {
    let d = read("");
    assert_eq!(d.embed, None);
    assert_eq!(d.width, None);
}

#[test]
fn drawing_embed_is_taken_as_written() {
    let d = read(r#"<d><blip embed="a&amp;b"/></d>"#);
    assert_eq!(d.embed.as_deref(), Some("a&amp;b"));
}

#[test]
fn drawing_embed_below_picture_reference() {
    let d = read(r#"<d><blip><x><y embed="deep"/></x></blip><blip/></d>"#);
    assert_eq!(d.embed.as_deref(), Some("deep"));
}

#[test]
fn drawing_extent_attributes_outside_extent_are_ignored() {
    let d = read(r#"<d cx="1"><other cx="2" cy="3"/><ext><inner cx="4"/></ext></d>"#);
    assert_eq!(d.width, None);
    assert_eq!(d.height, None);
}

#[test]
fn drawing_last_extent_wins() {
    let d = read(r#"<d><ext cx="1" cy="2"/><ext cx="+30" cy="x"/></d>"#);
    assert_eq!(d.width, Some(30));
    assert_eq!(d.height, None);
}

#[test]
fn drawing_malformed_markup_fails() {
    let r = Drawing::parse(r#"<d><ext cx="1" <"#).expect("begins with an element");
    assert_eq!(r.err(), Some(DecodeError::MalformedStream));
}

#[test]
fn drawing_text_that_begins_with_a_declaration() {
    assert!(Drawing::parse(r#"<?xml version="1.0"?><d/>"#).is_none());
}

#[test]
fn drawing_unclosed_element_is_read_to_the_end() {
    let d = read(r#"<d><ext cx="12" cy="34">"#);
    assert_eq!(d.width, Some(12));
    assert_eq!(d.height, Some(34));
}
