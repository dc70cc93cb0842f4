use docx::document::{Drawing, Paragraph, ParagraphContent, TableGrid};
use docx::entity::{from_str, to_string};
use docx::error::DecodeError;
use docx::formatting::{Italics, Justification, JustificationVal};

#[test]
fn italics_without_value_both_ways() {
    let i: Italics = from_str("<w:i/>").unwrap();
    assert_eq!(i.value, None);
    assert_eq!(to_string(&i).unwrap(), "<w:i/>");
}

#[test]
fn italics_with_value_both_ways() {
    let i: Italics = from_str(r#"<w:i w:val="true"/>"#).unwrap();
    assert_eq!(i.value, Some(true));
    assert_eq!(to_string(&i).unwrap(), r#"<w:i w:val="true"/>"#);
}

#[test]
fn justification_start_and_unknown_symbol() {
    let jc: Justification = from_str(r#"<w:jc w:val="start"/>"#).unwrap();
    assert_eq!(jc.value, JustificationVal::Start);
    let bad = from_str::<Justification>(r#"<w:jc w:val="bogus"/>"#);
    assert_eq!(bad.err(), Some(DecodeError::SchemaViolation));
}

#[test]
fn table_grid_two_columns_both_ways() {
    let text = r#"<w:tblGrid><w:gridCol w:w="42"/><w:gridCol w:w="42"/></w:tblGrid>"#;
    let grid: TableGrid = from_str(text).unwrap();
    assert_eq!(grid.columns.len(), 2);
    assert_eq!(grid.columns[0].width, 42);
    assert_eq!(grid.columns[1].width, 42);
    assert_eq!(to_string(&grid).unwrap(), text);
}

#[test]
fn drawing_with_non_numeric_extent_in_a_document() {
    let text = r#"<w:p><w:r><w:drawing><wp:inline><a:graphic><a:graphicData><pic:pic><pic:spPr><a:xfrm><a:ext cx="A" cy="9"/></a:xfrm></pic:spPr></pic:pic></a:graphicData></a:graphic></wp:inline></w:drawing></w:r></w:p>"#;
    let p: Paragraph = from_str(text).unwrap();
    assert_eq!(p.content.len(), 1);
    match &p.content[0] {
        ParagraphContent::Run(run) => match &run.content[0] {
            docx::document::RunContent::Drawing(d) => {
                assert_eq!(d.width, None);
                assert_eq!(d.height, Some(9));
            }
            other => panic!("not a drawing: {:?}", other),
        },
        other => panic!("not a run: {:?}", other),
    }
    let alone = Drawing::parse(r#"<w:drawing><a><b><c><ext cx="A"/></c></b></a></w:drawing>"#)
        .unwrap()
        .unwrap();
    assert_eq!(alone.width, None);
}

#[test]
fn unrecognized_sibling_between_runs_is_dropped() {
    let text = r#"<w:p><w:r><w:t>one</w:t></w:r><w:proofErr w:type="spellStart"><w:x/></w:proofErr><w:r><w:t>two</w:t></w:r></w:p>"#;
    let p: Paragraph = from_str(text).unwrap();
    assert_eq!(p.content.len(), 2);
    let texts: Vec<String> = p.iter_text().into_iter().map(|t| t.clone()).collect();
    assert_eq!(texts, vec!["one".to_string(), "two".to_string()]);
    assert_eq!(
        to_string(&p).unwrap(),
        r#"<w:p><w:pPr/><w:r><w:rPr/><w:t>one</w:t></w:r><w:r><w:rPr/><w:t>two</w:t></w:r></w:p>"#
    );
}

#[test]
fn unrecognized_sibling_gives_the_paragraph_built_by_hand() {
    let text = "<w:p><w:pPr/><w:r><w:rPr/><w:t>a</w:t></w:r><w:foo><w:bar/></w:foo><w:r><w:rPr/><w:t>b</w:t></w:r></w:p>";
    let read: Paragraph = from_str(text).unwrap();
    assert_eq!(read, Paragraph::default().push_text("a").push_text("b"));
}

#[test]
fn writing_never_fails() {
    let p = Paragraph::default().push_text("a").push(docx::document::Run::default());
    assert!(to_string(&p).is_ok());
    assert!(to_string(&Drawing::default()).is_ok());
    assert_eq!(to_string(&Drawing::default()).unwrap(), "");
}
