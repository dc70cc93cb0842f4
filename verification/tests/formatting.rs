use docx::entity::{from_str, to_string, Element};
use docx::error::DecodeError;
use docx::formatting::{
    Bold, BorderStyle, Borders, BottomBorder, CharacterProperty, CharacterStyleId, IndentLevel,
    Italics, Justification, JustificationVal, LeftBorder, NumberingId, NumberingProperty,
    OutlineLevel, ParagraphProperty, ParagraphStyleId, RightBorder, SectionProperty, TableBorders,
    TableCellProperty, TableIndent, TableIndentUnit, TableJustification, TableJustificationVal,
    TableProperty, TableStyleId, TableWidth, TableWidthUnit, TopBorder,
};

fn both_ways<T: Element + PartialEq + std::fmt::Debug>(value: T, text: &str) {
    assert_eq!(to_string(&value).unwrap(), text);
    assert_eq!(from_str::<T>(text).unwrap(), value);
}

#[test]
fn italics_cases() {
    both_ways(Italics::default(), "<w:i/>");
    both_ways(Italics::from(false), r#"<w:i w:val="false"/>"#);
    both_ways(Italics::from(true), r#"<w:i w:val="true"/>"#);
}

#[test]
fn italics_from_an_optional_flag() {
    assert_eq!(Italics::from(None), Italics { value: None });
    assert_eq!(Italics::from(None), Italics::default());
    assert_eq!(Italics::from(Some(false)), Italics::from(false));
    both_ways(Italics::from(None), "<w:i/>");
    both_ways(Italics::from(Some(true)), r#"<w:i w:val="true"/>"#);
    assert_eq!(Bold::from(None), Bold::default());
}

#[test]
fn bold_cases() {
    both_ways(Bold::default(), "<w:b/>");
    both_ways(Bold::from(true), r#"<w:b w:val="true"/>"#);
}

#[test]
fn flags_are_words_not_numbers() {
    assert_eq!(
        from_str::<Italics>(r#"<w:i w:val="1"/>"#).err(),
        Some(DecodeError::SchemaViolation)
    );
    assert_eq!(
        from_str::<Italics>(r#"<w:i w:val="TRUE"/>"#).err(),
        Some(DecodeError::SchemaViolation)
    );
}

#[test]
fn justification_cases() {
    both_ways(Justification::from(JustificationVal::Start), r#"<w:jc w:val="start"/>"#);
    both_ways(
        Justification::from(JustificationVal::ThaiDistribute),
        r#"<w:jc w:val="thaiDistribute"/>"#,
    );
}

#[test]
fn justification_requires_its_value() {
    assert_eq!(from_str::<Justification>("<w:jc/>").err(), Some(DecodeError::SchemaViolation));
}

#[test]
fn justification_symbols_are_case_sensitive() {
    assert_eq!(
        from_str::<Justification>(r#"<w:jc w:val="Start"/>"#).err(),
        Some(DecodeError::SchemaViolation)
    );
}

#[test]
fn numbering_id_cases() {
    both_ways(NumberingId::from(40usize), r#"<w:numId w:val="40"/>"#);
    both_ways(IndentLevel::from(3usize), r#"<w:ilvl w:val="3"/>"#);
}

#[test]
fn numbering_property_cases() {
    both_ways(NumberingProperty::default(), "<w:numPr/>");
    both_ways(
        NumberingProperty::from((20, 40)),
        r#"<w:numPr><w:numId w:val="20"/><w:ilvl w:val="40"/></w:numPr>"#,
    );
}

#[test]
fn numbering_property_children_in_declared_order() {
    let p: NumberingProperty =
        from_str(r#"<w:numPr><w:ilvl w:val="1"/><w:numId w:val="2"/></w:numPr>"#).unwrap();
    assert_eq!(
        to_string(&p).unwrap(),
        r#"<w:numPr><w:numId w:val="2"/><w:ilvl w:val="1"/></w:numPr>"#
    );
}

#[test]
fn paragraph_property_cases() {
    both_ways(ParagraphProperty::default(), "<w:pPr/>");
    both_ways(
        ParagraphProperty::default().style_id(ParagraphStyleId::from("id")),
        r#"<w:pPr><w:pStyle w:val="id"/></w:pPr>"#,
    );
    both_ways(
        ParagraphProperty::default().justification(Justification::from(JustificationVal::Start)),
        r#"<w:pPr><w:jc w:val="start"/></w:pPr>"#,
    );
    both_ways(
        ParagraphProperty::default().border(Borders::default()),
        "<w:pPr><w:pBdr/></w:pPr>",
    );
    both_ways(
        ParagraphProperty::default().numbering(NumberingProperty::from((1, 2))),
        r#"<w:pPr><w:numPr><w:numId w:val="1"/><w:ilvl w:val="2"/></w:numPr></w:pPr>"#,
    );
}

#[test]
fn paragraph_property_outline_and_section() {
    let p: ParagraphProperty =
        from_str(r#"<w:pPr><w:outlineLvl w:val="2"/><w:sectPr/></w:pPr>"#).unwrap();
    assert_eq!(p.outline_level, Some(OutlineLevel { value: 2 }));
    assert_eq!(p.section, Some(SectionProperty {}));
}

#[test]
fn paragraph_property_last_of_two_wins() {
    let p: ParagraphProperty =
        from_str(r#"<w:pPr><w:pStyle w:val="a"/><w:pStyle w:val="b"/></w:pPr>"#).unwrap();
    assert_eq!(p.style_id, Some(ParagraphStyleId::from("b")));
}

#[test]
fn character_property_cases() {
    both_ways(CharacterProperty::default(), "<w:rPr/>");
    both_ways(
        CharacterProperty::default()
            .style_id(CharacterStyleId::from("s"))
            .bold(Bold::from(true))
            .italics(Italics::default()),
        r#"<w:rPr><w:rStyle w:val="s"/><w:b w:val="true"/><w:i/></w:rPr>"#,
    );
}

#[test]
fn top_border_cases() {
    both_ways(TopBorder::default(), "<w:top/>");
    both_ways(TopBorder::default().color("000000".to_string()), r#"<w:top w:color="000000"/>"#);
    both_ways(TopBorder::default().shadow(false), r#"<w:top w:shadow="false"/>"#);
    both_ways(TopBorder::default().space(40usize), r#"<w:top w:space="40"/>"#);
    both_ways(TopBorder::default().size(20usize), r#"<w:top w:sz="20"/>"#);
    both_ways(TopBorder::default().style(BorderStyle::Dotted), r#"<w:top w:val="dotted"/>"#);
}

#[test]
fn bottom_border_cases() {
    both_ways(BottomBorder::default(), "<w:bottom/>");
    both_ways(
        BottomBorder::default().color("000000".to_string()),
        r#"<w:bottom w:color="000000"/>"#,
    );
    both_ways(BottomBorder::default().shadow(false), r#"<w:bottom w:shadow="false"/>"#);
    both_ways(BottomBorder::default().space(40usize), r#"<w:bottom w:space="40"/>"#);
    both_ways(BottomBorder::default().size(20usize), r#"<w:bottom w:sz="20"/>"#);
    both_ways(BottomBorder::default().style(BorderStyle::Dotted), r#"<w:bottom w:val="dotted"/>"#);
}

#[test]
fn right_border_cases() {
    both_ways(RightBorder::default(), "<w:right/>");
    both_ways(
        RightBorder::default().color("000000".to_string()),
        r#"<w:right w:color="000000"/>"#,
    );
    both_ways(RightBorder::default().shadow(false), r#"<w:right w:shadow="false"/>"#);
    both_ways(RightBorder::default().space(40usize), r#"<w:right w:space="40"/>"#);
    both_ways(RightBorder::default().size(20usize), r#"<w:right w:sz="20"/>"#);
    both_ways(RightBorder::default().style(BorderStyle::Dotted), r#"<w:right w:val="dotted"/>"#);
}

#[test]
fn left_border_all_attributes_in_declared_order() {
    both_ways(
        LeftBorder::default()
            .style(BorderStyle::NoBorder)
            .size(1)
            .space(2)
            .shadow(true)
            .color("auto".to_string()),
        r#"<w:left w:color="auto" w:shadow="true" w:space="2" w:sz="1" w:val="none"/>"#,
    );
}

#[test]
fn borders_cases() {
    both_ways(Borders::default(), "<w:pBdr/>");
    both_ways(
        Borders::default().top(TopBorder::default()).right(RightBorder::default()),
        "<w:pBdr><w:top/><w:right/></w:pBdr>",
    );
}

#[test]
fn border_unknown_style_is_violation() {
    assert_eq!(
        from_str::<TopBorder>(r#"<w:top w:val="zigzag"/>"#).err(),
        Some(DecodeError::SchemaViolation)
    );
}

#[test]
fn border_size_must_be_a_number() {
    assert_eq!(
        from_str::<TopBorder>(r#"<w:top w:sz="-1"/>"#).err(),
        Some(DecodeError::SchemaViolation)
    );
    assert_eq!(
        from_str::<TopBorder>(r#"<w:top w:sz=""/>"#).err(),
        Some(DecodeError::SchemaViolation)
    );
}

#[test]
fn table_borders_cases() {
    both_ways(TableBorders::default(), "<w:tblBorders/>");
    both_ways(
        TableBorders::default().top(TopBorder::default()),
        "<w:tblBorders><w:top/></w:tblBorders>",
    );
    both_ways(
        TableBorders::default().bottom(BottomBorder::default()),
        "<w:tblBorders><w:bottom/></w:tblBorders>",
    );
}

#[test]
fn table_cell_property_cases() {
    both_ways(TableCellProperty::default(), "<w:tcPr/>");
}

#[test]
fn table_indent_cases() {
    both_ways(TableIndent::default(), "<w:tblInd/>");
    both_ways(TableIndent::from(42), r#"<w:tblInd w:w="42"/>"#);
    both_ways(TableIndent::from(TableIndentUnit::Pct), r#"<w:tblInd w:type="pct"/>"#);
    both_ways(
        TableIndent::from((42, TableIndentUnit::Dxa)),
        r#"<w:tblInd w:w="42" w:type="dxa"/>"#,
    );
    both_ways(TableIndent::from(-7), r#"<w:tblInd w:w="-7"/>"#);
}

#[test]
fn table_justification_cases() {
    both_ways(TableJustification::default(), "<w:jc/>");
    both_ways(
        TableJustification::from(TableJustificationVal::Start),
        r#"<w:jc w:val="start"/>"#,
    );
}

#[test]
fn table_property_cases() {
    both_ways(TableProperty::default(), "<w:tblPr/>");
    both_ways(
        TableProperty::default().style_id(TableStyleId::from("id")),
        r#"<w:tblPr><w:tblStyle w:val="id"/></w:tblPr>"#,
    );
    both_ways(
        TableProperty::default()
            .justification(TableJustification::from(TableJustificationVal::Start)),
        r#"<w:tblPr><w:jc w:val="start"/></w:tblPr>"#,
    );
    both_ways(
        TableProperty::default().borders(TableBorders::default()),
        "<w:tblPr><w:tblBorders/></w:tblPr>",
    );
    both_ways(
        TableProperty::default().indent(TableIndent::default()),
        "<w:tblPr><w:tblInd/></w:tblPr>",
    );
    both_ways(
        TableProperty::default().width(TableWidth::default()),
        "<w:tblPr><w:tblW/></w:tblPr>",
    );
    both_ways(
        TableProperty::default().width(TableWidth::from((50, TableWidthUnit::Pct))),
        r#"<w:tblPr><w:tblW w:w="50" w:type="pct"/></w:tblPr>"#,
    );
}

#[test]
fn unknown_attribute_and_child_change_nothing() {
    let plain: TableProperty =
        from_str(r#"<w:tblPr><w:tblInd w:w="3"/></w:tblPr>"#).unwrap();
    let noisy: TableProperty = from_str(
        r#"<w:tblPr w:rsid="00AA"><w:tblLook w:val="04A0"><w:deep a="&bogus;"/></w:tblLook><w:tblInd w:w="3" w:other="x"/><!-- note --></w:tblPr>"#,
    )
    .unwrap();
    assert_eq!(plain, noisy);
}

#[test]
fn optional_attributes_without_value_are_not_written() {
    let b = TopBorder::default();
    let text = to_string(&b).unwrap();
    assert!(!text.contains('='));
    let back: TopBorder = from_str(&text).unwrap();
    assert_eq!(back.color, None);
    assert_eq!(back.shadow, None);
    assert_eq!(back.space, None);
    assert_eq!(back.size, None);
    assert_eq!(back.style, None);
}
