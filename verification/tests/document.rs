use docx::document::{
    Body, BodyContent, BookmarkEnd, BookmarkStart, Break, BreakType, CommentRangeEnd,
    CommentRangeStart, Document, GridColumn, Hyperlink, Paragraph, ParagraphContent, ParagraphId,
    Run, RunContent, SmartTag, Tab, Table, TableCell, TableCellContent, TableGrid, TableRow, Text,
    TextSpace,
};
use docx::entity::{from_str, to_string, Element};
use docx::error::DecodeError;
use docx::formatting::{Bold, CharacterProperty, ParagraphProperty, ParagraphStyleId};
use docx::schema::SCHEMA_MAIN;

fn both_ways<T: Element + PartialEq + std::fmt::Debug>(value: T, text: &str) {
    assert_eq!(to_string(&value).unwrap(), text);
    assert_eq!(from_str::<T>(text).unwrap(), value);
}

#[test]
fn document_default() {
    both_ways(
        Document::default(),
        format!(r#"<w:document xmlns:w="{}"><w:body/></w:document>"#, SCHEMA_MAIN).as_str(),
    );
}

#[test]
fn document_declares_the_namespace_once() {
    let mut doc = Document::default();
    doc.push(Paragraph::default().push_text("a")).push(Table::default());
    let text = to_string(&doc).unwrap();
    assert_eq!(text.matches("xmlns:w=").count(), 1);
    assert!(text.starts_with(&format!(r#"<w:document xmlns:w="{}">"#, SCHEMA_MAIN)));
    assert_eq!(from_str::<Document>(&text).unwrap(), doc);
}

#[test]
fn document_requires_its_body() {
    assert_eq!(
        from_str::<Document>("<w:document></w:document>").err(),
        Some(DecodeError::SchemaViolation)
    );
    assert_eq!(
        from_str::<Document>("<w:document/>").err(),
        Some(DecodeError::SchemaViolation)
    );
}

#[test]
fn document_behind_a_declaration_and_a_comment() {
    let doc: Document = from_str(
        "<?xml version=\"1.0\" encoding=\"UTF-8\" standalone=\"yes\"?>\n<!-- made by hand -->\n<w:document xmlns:w=\"x\">\n  <w:body>\n    <w:p/>\n  </w:body>\n</w:document>\n",
    )
    .unwrap();
    assert_eq!(doc.body.content.len(), 1);
}

#[test]
fn document_push_appends_to_the_body() {
    let mut doc = Document::default();
    doc.push(Paragraph::default());
    doc.push(Table::default());
    assert_eq!(doc.body.content.len(), 2);
    assert!(matches!(doc.body.content[0], BodyContent::Paragraph(_)));
    assert!(matches!(doc.body.content[1], BodyContent::Table(_)));
}

#[test]
fn body_cases() {
    both_ways(Body::default(), "<w:body/>");
    both_ways(
        Body { content: vec![Paragraph::default().into()] },
        "<w:body><w:p><w:pPr/></w:p></w:body>",
    );
    both_ways(
        Body { content: vec![Table::default().into()] },
        "<w:body><w:tbl><w:tblPr/></w:tbl></w:body>",
    );
}

#[test]
fn body_push_keeps_the_order() {
    let mut body = Body::default();
    body.push(Table::default()).push(Paragraph::default()).push(Table::default());
    assert_eq!(
        to_string(&body).unwrap(),
        "<w:body><w:tbl><w:tblPr/></w:tbl><w:p><w:pPr/></w:p><w:tbl><w:tblPr/></w:tbl></w:body>"
    );
}

#[test]
fn body_interleaved_kinds_keep_their_order() {
    let text = "<w:body><w:p><w:pPr/></w:p><w:tbl><w:tblPr/></w:tbl><w:p><w:pPr/></w:p><w:p><w:pPr/></w:p><w:tbl><w:tblPr/></w:tbl></w:body>";
    let body: Body = from_str(text).unwrap();
    let kinds: Vec<bool> =
        body.content.iter().map(|c| matches!(c, BodyContent::Paragraph(_))).collect();
    assert_eq!(kinds, vec![true, false, true, true, false]);
    assert_eq!(to_string(&body).unwrap(), text);
}

#[test]
fn paragraph_cases() {
    both_ways(Paragraph::default(), "<w:p><w:pPr/></w:p>");
    both_ways(Paragraph::default().push(Run::default()), "<w:p><w:pPr/><w:r><w:rPr/></w:r></w:p>");
    both_ways(
        Paragraph::default().push(Hyperlink::default()),
        "<w:p><w:pPr/><w:hyperlink><w:r><w:rPr/></w:r></w:hyperlink></w:p>",
    );
    both_ways(
        Paragraph::default().push(BookmarkStart::default()),
        "<w:p><w:pPr/><w:bookmarkStart/></w:p>",
    );
    both_ways(
        Paragraph::default().push(BookmarkEnd::default()),
        "<w:p><w:pPr/><w:bookmarkEnd/></w:p>",
    );
}

#[test]
fn paragraph_without_properties_gets_the_default() {
    let p: Paragraph = from_str("<w:p/>").unwrap();
    assert_eq!(p, Paragraph::default());
    let q: Paragraph = from_str("<w:p></w:p>").unwrap();
    assert_eq!(q, Paragraph::default());
    assert_eq!(to_string(&p).unwrap(), "<w:p><w:pPr/></w:p>");
}

#[test]
fn paragraph_id_is_eight_upper_case_hex_digits() {
    let p: Paragraph = from_str(r#"<w:p w14:paraId="00ab12cd"/>"#).unwrap();
    assert_eq!(p.para_id, Some(ParagraphId { value: 0x00AB12CD }));
    assert_eq!(to_string(&p).unwrap(), r#"<w:p w14:paraId="00AB12CD"><w:pPr/></w:p>"#);
}

#[test]
fn paragraph_id_must_be_hexadecimal() {
    assert_eq!(
        from_str::<Paragraph>(r#"<w:p w14:paraId="xyz"/>"#).err(),
        Some(DecodeError::SchemaViolation)
    );
    assert_eq!(
        from_str::<Paragraph>(r#"<w:p w14:paraId="+1F"/>"#).err(),
        Some(DecodeError::SchemaViolation)
    );
    assert_eq!(
        from_str::<Paragraph>(r#"<w:p w14:paraId="100000000"/>"#).err(),
        Some(DecodeError::SchemaViolation)
    );
}

#[test]
fn paragraph_id_text_forms() {
    assert_eq!(ParagraphId { value: 0 }.to_string(), "00000000");
    assert_eq!(ParagraphId { value: 255 }.to_string(), "000000FF");
    assert_eq!(ParagraphId { value: u32::MAX }.to_string(), "FFFFFFFF");
    assert_eq!(ParagraphId::from_str("ff"), Some(ParagraphId { value: 255 }));
    assert_eq!(ParagraphId::from_str("FFFFFFFF"), Some(ParagraphId { value: u32::MAX }));
    assert_eq!(ParagraphId::from_str(""), None);
    assert_eq!(ParagraphId::from_str("0x10"), None);
}

#[test]
fn paragraph_push_text_makes_a_run() {
    let p = Paragraph::default().push_text("hello,").push_text(" world.");
    assert_eq!(
        to_string(&p).unwrap(),
        "<w:p><w:pPr/><w:r><w:rPr/><w:t>hello,</w:t></w:r><w:r><w:rPr/><w:t> world.</w:t></w:r></w:p>"
    );
    match &p.content[0] {
        ParagraphContent::Run(run) => {
            assert_eq!(run.property, CharacterProperty::default());
            assert_eq!(run.content, vec![RunContent::Text(Text::from("hello,"))]);
        }
        other => panic!("not a run: {:?}", other),
    }
}

#[test]
fn paragraph_iter_text_follows_document_order() {
    let link = Hyperlink::default().content(Run::default().push_text("b").push_text("c"));
    let p = Paragraph::default()
        .push_text("a")
        .push(BookmarkStart::default())
        .push(link)
        .push(Run::default().push(Tab {}).push_text("d").push(Break::default()))
        .push(BookmarkEnd::default());
    let texts: Vec<&str> = p.iter_text().into_iter().map(|t| t.as_str()).collect();
    assert_eq!(texts, vec!["a", "b", "c", "d"]);
    assert!(Paragraph::default().iter_text().is_empty());
    assert_eq!(p.iter_text().len(), p.iter_text().len());
}

#[test]
fn paragraph_property_setter() {
    let p = Paragraph::default()
        .property(ParagraphProperty::default().style_id(ParagraphStyleId::from("Title")));
    assert_eq!(
        to_string(&p).unwrap(),
        r#"<w:p><w:pPr><w:pStyle w:val="Title"/></w:pPr></w:p>"#
    );
}

#[test]
fn paragraph_all_content_kinds() {
    let text = r#"<w:p><w:pPr/><w:commentRangeStart w:id="1"/><w:r><w:rPr/></w:r><w:commentRangeEnd w:id="1"/><w:hyperlink w:anchor="top"><w:r><w:rPr/></w:r></w:hyperlink><w:bookmarkStart w:id="7" w:name="n"/><w:bookmarkEnd w:id="7"/></w:p>"#;
    let p: Paragraph = from_str(text).unwrap();
    assert_eq!(p.content.len(), 6);
    assert_eq!(
        p.content[0],
        ParagraphContent::CommentRangeStart(CommentRangeStart { id: "1".to_string() })
    );
    assert_eq!(
        p.content[2],
        ParagraphContent::CommentRangeEnd(CommentRangeEnd { id: "1".to_string() })
    );
    assert_eq!(to_string(&p).unwrap(), text);
}

#[test]
fn comment_range_requires_its_id() {
    assert_eq!(
        from_str::<CommentRangeStart>("<w:commentRangeStart/>").err(),
        Some(DecodeError::SchemaViolation)
    );
}

#[test]
fn run_cases() {
    both_ways(Run::default(), "<w:r><w:rPr/></w:r>");
    both_ways(
        Run::default()
            .property(CharacterProperty::default().bold(Bold::from(true)))
            .push_text("x")
            .push(Break { ty: Some(BreakType::Page) })
            .push(Tab {}),
        r#"<w:r><w:rPr><w:b w:val="true"/></w:rPr><w:t>x</w:t><w:br w:type="page"/><w:tab/></w:r>"#,
    );
}

#[test]
fn run_iter_text() {
    let run = Run::default().push_text("a").push(Tab {}).push_text("b");
    let texts: Vec<&str> = run.iter_text().into_iter().map(|t| t.as_str()).collect();
    assert_eq!(texts, vec!["a", "b"]);
}

#[test]
fn run_drawing_is_read_and_not_written() {
    let run: Run = from_str(
        r#"<w:r><w:t>a</w:t><w:drawing><a:blip r:embed="rId9"/><a:ext cx="10" cy="20"/></w:drawing><w:t>b</w:t></w:r>"#,
    )
    .unwrap();
    assert_eq!(run.content.len(), 3);
    match &run.content[1] {
        RunContent::Drawing(d) => {
            assert_eq!(d.embed.as_deref(), Some("rId9"));
            assert_eq!(d.width, Some(10));
            assert_eq!(d.height, Some(20));
        }
        other => panic!("not a drawing: {:?}", other),
    }
    assert_eq!(
        to_string(&run).unwrap(),
        "<w:r><w:rPr/><w:t>a</w:t><w:t>b</w:t></w:r>"
    );
}

#[test]
fn text_cases() {
    both_ways(Text::from("hello"), "<w:t>hello</w:t>");
    both_ways(Text::default(), "<w:t></w:t>");
    both_ways(
        Text { space: Some(TextSpace::Preserve), text: " a ".to_string() },
        r#"<w:t xml:space="preserve"> a </w:t>"#,
    );
}

#[test]
fn text_self_closing_is_empty() {
    assert_eq!(from_str::<Text>("<w:t/>").unwrap(), Text::default());
}

#[test]
fn text_is_escaped_and_read_back() {
    let t = Text::from(r#"a < b & "c" > 'd'"#);
    let text = to_string(&t).unwrap();
    assert_eq!(text, "<w:t>a &lt; b &amp; &quot;c&quot; &gt; &apos;d&apos;</w:t>");
    assert_eq!(from_str::<Text>(&text).unwrap(), t);
}

#[test]
fn text_character_references_and_cdata() {
    let t: Text = from_str("<w:t>&#65;&#x42;<![CDATA[<&>]]>C</w:t>").unwrap();
    assert_eq!(t.text, "AB<&>C");
}

#[test]
fn text_unknown_entity_is_malformed() {
    assert_eq!(from_str::<Text>("<w:t>&nope;</w:t>").err(), Some(DecodeError::MalformedStream));
}

#[test]
fn text_with_a_child_is_malformed() {
    assert_eq!(
        from_str::<Text>("<w:t>a<w:b/></w:t>").err(),
        Some(DecodeError::MalformedStream)
    );
}

#[test]
fn break_cases() {
    both_ways(Break::default(), "<w:br/>");
    both_ways(Break { ty: Some(BreakType::Column) }, r#"<w:br w:type="column"/>"#);
    both_ways(Break { ty: Some(BreakType::TextWrapping) }, r#"<w:br w:type="textWrapping"/>"#);
}

#[test]
fn hyperlink_cases() {
    both_ways(Hyperlink::default(), "<w:hyperlink><w:r><w:rPr/></w:r></w:hyperlink>");
    both_ways(
        Hyperlink::default().id("rId1".to_string()).anchor("a".to_string()),
        r#"<w:hyperlink r:id="rId1" w:anchor="a"><w:r><w:rPr/></w:r></w:hyperlink>"#,
    );
}

#[test]
fn smart_tag_cases() {
    both_ways(SmartTag::default(), "<w:smartTag/>");
    both_ways(
        SmartTag { content: vec![Run::default().into(), BookmarkEnd::default().into()] },
        "<w:smartTag><w:r><w:rPr/></w:r><w:bookmarkEnd/></w:smartTag>",
    );
}

#[test]
fn table_grid_cases() {
    both_ways(TableGrid::default(), "<w:tblGrid/>");
    both_ways(
        TableGrid::default().push_column(42),
        r#"<w:tblGrid><w:gridCol w:w="42"/></w:tblGrid>"#,
    );
    both_ways(
        TableGrid::default().push_column(42).push_column(42),
        r#"<w:tblGrid><w:gridCol w:w="42"/><w:gridCol w:w="42"/></w:tblGrid>"#,
    );
    both_ways(
        TableGrid::from(vec![42, 42]),
        r#"<w:tblGrid><w:gridCol w:w="42"/><w:gridCol w:w="42"/></w:tblGrid>"#,
    );
}

#[test]
fn table_grid_from_keeps_the_widths() {
    let grid = TableGrid::from(vec![1, 22, 333]);
    assert_eq!(
        grid.columns,
        vec![GridColumn { width: 1 }, GridColumn { width: 22 }, GridColumn { width: 333 }]
    );
    assert_eq!(TableGrid::from(vec![]), TableGrid::default());
}

#[test]
fn grid_column_requires_its_width() {
    assert_eq!(
        from_str::<TableGrid>("<w:tblGrid><w:gridCol/></w:tblGrid>").err(),
        Some(DecodeError::SchemaViolation)
    );
}

#[test]
fn table_cases() {
    both_ways(Table::default(), "<w:tbl><w:tblPr/></w:tbl>");
    let cell = TableCell {
        property: Default::default(),
        content: vec![TableCellContent::Paragraph(Paragraph::default().push_text("x"))],
    };
    let table = Table {
        property: Default::default(),
        grid: Some(TableGrid::from(vec![100])),
        rows: vec![TableRow { cells: vec![cell] }, TableRow::default()],
    };
    both_ways(
        table,
        r#"<w:tbl><w:tblPr/><w:tblGrid><w:gridCol w:w="100"/></w:tblGrid><w:tr><w:tc><w:tcPr/><w:p><w:pPr/><w:r><w:rPr/><w:t>x</w:t></w:r></w:p></w:tc></w:tr><w:tr/></w:tbl>"#,
    );
}

#[test]
fn unclosed_element_is_malformed() {
    assert_eq!(from_str::<Body>("<w:body><w:p>").err(), Some(DecodeError::MalformedStream));
    assert_eq!(from_str::<Body>("<w:body").err(), Some(DecodeError::MalformedStream));
    assert_eq!(from_str::<Body>("").err(), Some(DecodeError::MalformedStream));
}

#[test]
fn mismatched_closing_tag_is_malformed() {
    assert_eq!(
        from_str::<Body>("<w:body><w:p></w:p></w:bodyy>").err(),
        Some(DecodeError::MalformedStream)
    );
}

#[test]
fn broken_markup_is_malformed() {
    assert_eq!(
        from_str::<Body>("<w:body><w:p <></w:body>").err(),
        Some(DecodeError::MalformedStream)
    );
}

#[test]
fn tags_are_compared_with_their_prefix() {
    let body: Body = from_str("<w:body><p/><x:p/><w:P/><w:p/></w:body>").unwrap();
    assert_eq!(body.content.len(), 1);
}

#[test]
fn element_of_another_kind_is_passed_over_whole() {
    assert_eq!(
        from_str::<Body>("<w:other><w:body/></w:other>").err(),
        Some(DecodeError::MalformedStream)
    );
}
