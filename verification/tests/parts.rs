use docx::comments::{Comment, Comments};
use docx::document::Paragraph;
use docx::entity::{from_str, to_string, Element};
use docx::error::DecodeError;
use docx::font_table::{Family, Font, FontTable, Pitch};
use docx::formatting::{CharacterProperty, ParagraphProperty};
use docx::numbering::{
    AbstractNumbering, AbstractNumberingId, Level, LevelText, NumStyleLink, Numbering,
    NumberingFormat, NumberingFormatVal, Numberings, Start,
};
use docx::schema::SCHEMA_MAIN;
use docx::styles::{
    BasedOn, DefaultCharacterStyle, DefaultParagraphStyle, DefaultStyle, Style, StyleName,
    StyleType, Styles,
};

fn both_ways<T: Element + PartialEq + std::fmt::Debug>(value: T, text: &str) {
    assert_eq!(to_string(&value).unwrap(), text);
    assert_eq!(from_str::<T>(text).unwrap(), value);
}

const DEFAULTS: &str = "<w:docDefaults><w:rPrDefault><w:rPr/></w:rPrDefault><w:pPrDefault><w:pPr/></w:pPrDefault></w:docDefaults>";

#[test]
fn styles_new() {
    both_ways(
        Styles::new(),
        format!(r#"<w:styles xmlns:w="{}">{}</w:styles>"#, SCHEMA_MAIN, DEFAULTS).as_str(),
    );
}

#[test]
fn styles_with_a_style() {
    let mut styles = Styles::new();
    styles.push(Style::new(StyleType::Paragraph, "id"));
    both_ways(
        styles,
        format!(
            r#"<w:styles xmlns:w="{}">{}<w:style w:type="paragraph" w:styleId="id"><w:pPr/><w:rPr/></w:style></w:styles>"#,
            SCHEMA_MAIN, DEFAULTS
        )
        .as_str(),
    );
}

#[test]
fn styles_default_and_push_chain() {
    let mut styles = Styles::new();
    styles
        .default(DefaultStyle::default())
        .push(Style::new(StyleType::Table, "a"))
        .push(Style::new(StyleType::Character, "b"));
    assert_eq!(styles.styles.len(), 2);
    assert_eq!(styles.styles[0].style_id, "a");
    assert_eq!(styles.styles[1].style_id, "b");
    assert_eq!(styles.default, DefaultStyle::default());
    let text = to_string(&styles).unwrap();
    assert_eq!(text.matches("xmlns:w=").count(), 1);
    assert_eq!(from_str::<Styles>(&text).unwrap(), styles);
}

#[test]
fn styles_without_defaults_get_them() {
    let styles: Styles = from_str("<w:styles/>").unwrap();
    assert_eq!(styles, Styles::new());
    assert_eq!(styles.default.character, DefaultCharacterStyle::default());
    assert_eq!(styles.default.paragraph, DefaultParagraphStyle::default());
}

#[test]
fn style_cases() {
    both_ways(
        Style::new(StyleType::Numbering, "id"),
        r#"<w:style w:type="numbering" w:styleId="id"><w:pPr/><w:rPr/></w:style>"#,
    );
    both_ways(
        Style::new(StyleType::Table, "id").name(StyleName::from("name")),
        r#"<w:style w:type="table" w:styleId="id"><w:name w:val="name"/><w:pPr/><w:rPr/></w:style>"#,
    );
    both_ways(
        Style::new(StyleType::Paragraph, "id"),
        r#"<w:style w:type="paragraph" w:styleId="id"><w:pPr/><w:rPr/></w:style>"#,
    );
    both_ways(
        Style::new(StyleType::Character, "id"),
        r#"<w:style w:type="character" w:styleId="id"><w:pPr/><w:rPr/></w:style>"#,
    );
}

#[test]
fn style_new_sets_nothing_else() {
    let s = Style::new(StyleType::Paragraph, "x");
    assert_eq!(s.ty, StyleType::Paragraph);
    assert_eq!(s.style_id, "x");
    assert_eq!(s.is_default, None);
    assert_eq!(s.based_on, None);
    assert_eq!(s.name, None);
    assert_eq!(s.paragraph, ParagraphProperty::default());
    assert_eq!(s.character, CharacterProperty::default());
}

#[test]
fn style_full() {
    let text = r#"<w:style w:type="paragraph" w:styleId="Heading1" w:default="1"><w:basedOn w:val="Normal"/><w:name w:val="heading 1"/><w:pPr/><w:rPr/></w:style>"#;
    let s: Style = from_str(text).unwrap();
    assert_eq!(s.is_default, Some(1));
    assert_eq!(s.based_on, Some(BasedOn { value: "Normal".to_string() }));
    assert_eq!(to_string(&s).unwrap(), text);
}

#[test]
fn style_requires_type_and_id() {
    assert_eq!(
        from_str::<Style>(r#"<w:style w:styleId="a"/>"#).err(),
        Some(DecodeError::SchemaViolation)
    );
    assert_eq!(
        from_str::<Style>(r#"<w:style w:type="table"/>"#).err(),
        Some(DecodeError::SchemaViolation)
    );
    assert_eq!(
        from_str::<Style>(r#"<w:style w:type="tables" w:styleId="a"/>"#).err(),
        Some(DecodeError::SchemaViolation)
    );
}

#[test]
fn style_default_flag_must_fit_a_byte() {
    assert_eq!(
        from_str::<Style>(r#"<w:style w:type="table" w:styleId="a" w:default="256"/>"#).err(),
        Some(DecodeError::SchemaViolation)
    );
    let s: Style = from_str(r#"<w:style w:type="table" w:styleId="a" w:default="255"/>"#).unwrap();
    assert_eq!(s.is_default, Some(255));
}

#[test]
fn numberings_cases() {
    both_ways(
        Numberings::default(),
        format!(r#"<w:numbering xmlns:w="{}"></w:numbering>"#, SCHEMA_MAIN).as_str(),
    );
    assert_eq!(from_str::<Numberings>("<w:numbering/>").unwrap(), Numberings::default());
    let text = r#"<w:numbering xmlns:w="http://schemas.openxmlformats.org/wordprocessingml/2006/main"><w:abstractNum w:abstractNumId="0"><w:lvl w:ilvl="0"><w:lvlText w:val="%1."/><w:numFmt w:val="decimal"/><w:start w:val="1"/></w:lvl><w:lvl w:ilvl="1"><w:lvlText w:val="o"/><w:numFmt w:val="bullet"/></w:lvl><w:numStyleLink w:val="List"/></w:abstractNum><w:num w:numId="5"><w:abstractNumId w:val="0"/></w:num></w:numbering>"#;
    let n: Numberings = from_str(text).unwrap();
    assert_eq!(n.abstract_nums.len(), 1);
    assert_eq!(n.abstract_nums[0].levels.len(), 2);
    assert_eq!(
        n.abstract_nums[0].levels[0],
        Level {
            index: 0,
            level_text: LevelText { value: "%1.".to_string() },
            numbering_format: Some(NumberingFormat { value: NumberingFormatVal::Decimal }),
            start: Some(Start { value: 1 }),
        }
    );
    assert_eq!(
        n.abstract_nums[0].num_style_link,
        Some(NumStyleLink { val: "List".to_string() })
    );
    assert_eq!(
        n.nums,
        vec![Numbering { num_id: 5, abstract_num_id: AbstractNumberingId { value: 0 } }]
    );
    assert_eq!(to_string(&n).unwrap(), text);
}

#[test]
fn numberings_slots_are_written_slot_by_slot() {
    let n: Numberings = from_str(
        r#"<w:numbering><w:num w:numId="1"><w:abstractNumId w:val="0"/></w:num><w:abstractNum w:abstractNumId="0"/></w:numbering>"#,
    )
    .unwrap();
    assert_eq!(
        to_string(&n).unwrap(),
        format!(
            r#"<w:numbering xmlns:w="{}"><w:abstractNum w:abstractNumId="0"/><w:num w:numId="1"><w:abstractNumId w:val="0"/></w:num></w:numbering>"#,
            SCHEMA_MAIN
        )
    );
}

#[test]
fn level_requires_its_text() {
    assert_eq!(
        from_str::<Level>(r#"<w:lvl w:ilvl="0"><w:start w:val="1"/></w:lvl>"#).err(),
        Some(DecodeError::SchemaViolation)
    );
}

#[test]
fn numbering_requires_its_abstract_id() {
    assert_eq!(
        from_str::<Numbering>(r#"<w:num w:numId="1"/>"#).err(),
        Some(DecodeError::SchemaViolation)
    );
}

#[test]
fn numbering_format_defaults() {
    assert_eq!(NumberingFormatVal::default(), NumberingFormatVal::Decimal);
    assert_eq!(NumberingFormat::default().value, NumberingFormatVal::Decimal);
    both_ways(NumberingFormat { value: NumberingFormatVal::NoNumber }, r#"<w:numFmt w:val="none"/>"#);
    assert_eq!(AbstractNumbering::default().abstract_num_id, 0);
}

#[test]
fn comments_cases() {
    both_ways(
        Comments::default(),
        format!(r#"<w:comments xmlns:w="{}"></w:comments>"#, SCHEMA_MAIN).as_str(),
    );
    assert_eq!(from_str::<Comments>("<w:comments/>").unwrap(), Comments::default());
    let text = r#"<w:comments xmlns:w="http://schemas.openxmlformats.org/wordprocessingml/2006/main"><w:comment w:id="0" w:author="A &amp; B" w:date="2020-01-01T00:00:00Z"><w:p><w:pPr/></w:p></w:comment></w:comments>"#;
    let c: Comments = from_str(text).unwrap();
    assert_eq!(
        c.comments,
        vec![Comment {
            id: "0".to_string(),
            author: "A & B".to_string(),
            date: "2020-01-01T00:00:00Z".to_string(),
            content: vec![Paragraph::default()],
        }]
    );
    assert_eq!(to_string(&c).unwrap(), text);
}

#[test]
fn comment_requires_its_attributes() {
    assert_eq!(
        from_str::<Comment>(r#"<w:comment w:id="0" w:author="a"/>"#).err(),
        Some(DecodeError::SchemaViolation)
    );
}

#[test]
fn every_part_declares_the_namespace_once_at_its_root() {
    let mut comments = Comments::default();
    comments.comments.push(Comment::default());
    comments.comments.push(Comment {
        content: vec![Paragraph::default().push_text("x")],
        ..Default::default()
    });
    let mut numberings = Numberings::default();
    numberings.abstract_nums.push(AbstractNumbering::default());
    let fonts = FontTable { fonts: vec![Font::default(), Font::default()] };
    for text in [
        to_string(&comments).unwrap(),
        to_string(&numberings).unwrap(),
        to_string(&fonts).unwrap(),
        to_string(&Styles::new()).unwrap(),
    ] {
        assert_eq!(text.matches("xmlns").count(), 1, "{}", text);
        let at = text.find(" xmlns:w=").unwrap();
        assert!(!text[..at].contains('>'), "{}", text);
    }
    assert_eq!(from_str::<Comments>(&to_string(&comments).unwrap()).unwrap(), comments);
    assert_eq!(from_str::<Numberings>(&to_string(&numberings).unwrap()).unwrap(), numberings);
    assert_eq!(from_str::<FontTable>(&to_string(&fonts).unwrap()).unwrap(), fonts);
}

#[test]
fn font_table_cases() {
    both_ways(Family::from("roman"), r#"<w:family w:val="roman"/>"#);
    both_ways(Pitch::from("variable"), r#"<w:pitch w:val="variable"/>"#);
    both_ways(
        FontTable::default(),
        format!(r#"<w:fonts xmlns:w="{}"></w:fonts>"#, SCHEMA_MAIN).as_str(),
    );
    both_ways(
        FontTable {
            fonts: vec![Font {
                name: "Arial".to_string(),
                family: Some(Family::from("swiss")),
                pitch: Some(Pitch::from("variable")),
            }],
        },
        format!(
            r#"<w:fonts xmlns:w="{}"><w:font w:name="Arial"><w:family w:val="swiss"/><w:pitch w:val="variable"/></w:font></w:fonts>"#,
            SCHEMA_MAIN
        )
        .as_str(),
    );
}
