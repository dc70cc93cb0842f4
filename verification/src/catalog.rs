//! The element kinds of the model, each under its index, and the tables of
//! symbols.

use crate::comments::Comment;
use crate::comments::Comments;
use crate::document::Document;
use crate::document::body::Body;
use crate::document::bookmark_end::BookmarkEnd;
use crate::document::bookmark_start::BookmarkStart;
use crate::document::break_::Break;
use crate::document::break_::BreakType;
use crate::document::comment_range::CommentRangeEnd;
use crate::document::comment_range::CommentRangeStart;
use crate::document::drawing::Drawing;
use crate::document::grid_column::GridColumn;
use crate::document::hyperlink::Hyperlink;
use crate::document::paragraph::Paragraph;
use crate::document::run::Run;
use crate::document::smart_tag::SmartTag;
use crate::document::tab::Tab;
use crate::document::table::Table;
use crate::document::table_cell::TableCell;
use crate::document::table_grid::TableGrid;
use crate::document::table_row::TableRow;
use crate::document::text::Text;
use crate::document::text::TextSpace;
use crate::font_table::FontTable;
use crate::font_table::family::Family;
use crate::font_table::font::Font;
use crate::font_table::pitch::Pitch;
use crate::formatting::bold::Bold;
use crate::formatting::border::border_style::BorderStyle;
use crate::formatting::border::bottom_border::BottomBorder;
use crate::formatting::border::left_border::LeftBorder;
use crate::formatting::border::right_border::RightBorder;
use crate::formatting::border::top_border::TopBorder;
use crate::formatting::borders::Borders;
use crate::formatting::character_property::CharacterProperty;
use crate::formatting::character_property::CharacterStyleId;
use crate::formatting::indent_level::IndentLevel;
use crate::formatting::italics::Italics;
use crate::formatting::justification::Justification;
use crate::formatting::justification::JustificationVal;
use crate::formatting::numbering_id::NumberingId;
use crate::formatting::numbering_property::NumberingProperty;
use crate::formatting::paragraph_property::OutlineLevel;
use crate::formatting::paragraph_property::ParagraphProperty;
use crate::formatting::paragraph_property::ParagraphStyleId;
use crate::formatting::paragraph_property::SectionProperty;
use crate::formatting::table_borders::TableBorders;
use crate::formatting::table_cell_property::TableCellProperty;
use crate::formatting::table_indent::TableIndent;
use crate::formatting::table_indent::TableIndentUnit;
use crate::formatting::table_justification::TableJustification;
use crate::formatting::table_justification::TableJustificationVal;
use crate::formatting::table_property::TableProperty;
use crate::formatting::table_property::TableStyleId;
use crate::formatting::table_width::TableWidth;
use crate::formatting::table_width::TableWidthUnit;
use crate::numbering::AbstractNumbering;
use crate::numbering::AbstractNumberingId;
use crate::numbering::NumStyleLink;
use crate::numbering::Numbering;
use crate::numbering::Numberings;
use crate::numbering::level::Level;
use crate::numbering::level::LevelText;
use crate::numbering::level::NumberingFormat;
use crate::numbering::level::NumberingFormatVal;
use crate::numbering::level::Start;
use crate::styles::Styles;
use crate::styles::default_style::DefaultCharacterStyle;
use crate::styles::default_style::DefaultParagraphStyle;
use crate::styles::default_style::DefaultStyle;
use crate::styles::style::BasedOn;
use crate::styles::style::Style;
use crate::styles::style::StyleName;
use crate::styles::style::StyleType;
use crate::schema::{Descriptor, DescriptorView, NameView, Schema, SchemaView};
use vstd::prelude::*;

verus! {

/// The kind of `TopBorder`.
pub const TOP_BORDER: usize = 0;

/// The kind of `BottomBorder`.
pub const BOTTOM_BORDER: usize = 1;

/// The kind of `LeftBorder`.
pub const LEFT_BORDER: usize = 2;

/// The kind of `RightBorder`.
pub const RIGHT_BORDER: usize = 3;

/// The kind of `Borders`.
pub const BORDERS: usize = 4;

/// The kind of `Bold`.
pub const BOLD: usize = 5;

/// The kind of `Italics`.
pub const ITALICS: usize = 6;

/// The kind of `Justification`.
pub const JUSTIFICATION: usize = 7;

/// The kind of `TableJustification`.
pub const TABLE_JUSTIFICATION: usize = 8;

/// The kind of `NumberingId`.
pub const NUMBERING_ID: usize = 9;

/// The kind of `IndentLevel`.
pub const INDENT_LEVEL: usize = 10;

/// The kind of `NumberingProperty`.
pub const NUMBERING_PROPERTY: usize = 11;

/// The kind of `OutlineLevel`.
pub const OUTLINE_LEVEL: usize = 12;

/// The kind of `SectionProperty`.
pub const SECTION_PROPERTY: usize = 13;

/// The kind of `ParagraphStyleId`.
pub const PARAGRAPH_STYLE_ID: usize = 14;

/// The kind of `ParagraphProperty`.
pub const PARAGRAPH_PROPERTY: usize = 15;

/// The kind of `CharacterStyleId`.
pub const CHARACTER_STYLE_ID: usize = 16;

/// The kind of `CharacterProperty`.
pub const CHARACTER_PROPERTY: usize = 17;

/// The kind of `TableBorders`.
pub const TABLE_BORDERS: usize = 18;

/// The kind of `TableCellProperty`.
pub const TABLE_CELL_PROPERTY: usize = 19;

/// The kind of `TableIndent`.
pub const TABLE_INDENT: usize = 20;

/// The kind of `TableWidth`.
pub const TABLE_WIDTH: usize = 21;

/// The kind of `TableStyleId`.
pub const TABLE_STYLE_ID: usize = 22;

/// The kind of `TableProperty`.
pub const TABLE_PROPERTY: usize = 23;

/// The kind of `Text`.
pub const TEXT: usize = 24;

/// The kind of `Break`.
pub const BREAK: usize = 25;

/// The kind of `Tab`.
pub const TAB: usize = 26;

/// The kind of `Drawing`.
pub const DRAWING: usize = 27;

/// The kind of `Run`.
pub const RUN: usize = 28;

/// The kind of `BookmarkStart`.
pub const BOOKMARK_START: usize = 29;

/// The kind of `BookmarkEnd`.
pub const BOOKMARK_END: usize = 30;

/// The kind of `CommentRangeStart`.
pub const COMMENT_RANGE_START: usize = 31;

/// The kind of `CommentRangeEnd`.
pub const COMMENT_RANGE_END: usize = 32;

/// The kind of `Hyperlink`.
pub const HYPERLINK: usize = 33;

/// The kind of `Paragraph`.
pub const PARAGRAPH: usize = 34;

/// The kind of `SmartTag`.
pub const SMART_TAG: usize = 35;

/// The kind of `GridColumn`.
pub const GRID_COLUMN: usize = 36;

/// The kind of `TableGrid`.
pub const TABLE_GRID: usize = 37;

/// The kind of `TableCell`.
pub const TABLE_CELL: usize = 38;

/// The kind of `TableRow`.
pub const TABLE_ROW: usize = 39;

/// The kind of `Table`.
pub const TABLE: usize = 40;

/// The kind of `Body`.
pub const BODY: usize = 41;

/// The kind of `Document`.
pub const DOCUMENT: usize = 42;

/// The kind of `DefaultCharacterStyle`.
pub const DEFAULT_CHARACTER_STYLE: usize = 43;

/// The kind of `DefaultParagraphStyle`.
pub const DEFAULT_PARAGRAPH_STYLE: usize = 44;

/// The kind of `DefaultStyle`.
pub const DEFAULT_STYLE: usize = 45;

/// The kind of `BasedOn`.
pub const BASED_ON: usize = 46;

/// The kind of `StyleName`.
pub const STYLE_NAME: usize = 47;

/// The kind of `Style`.
pub const STYLE: usize = 48;

/// The kind of `Styles`.
pub const STYLES: usize = 49;

/// The kind of `LevelText`.
pub const LEVEL_TEXT: usize = 50;

/// The kind of `NumberingFormat`.
pub const NUMBERING_FORMAT: usize = 51;

/// The kind of `Start`.
pub const START: usize = 52;

/// The kind of `Level`.
pub const LEVEL: usize = 53;

/// The kind of `AbstractNumberingId`.
pub const ABSTRACT_NUMBERING_ID: usize = 54;

/// The kind of `NumStyleLink`.
pub const NUM_STYLE_LINK: usize = 55;

/// The kind of `AbstractNumbering`.
pub const ABSTRACT_NUMBERING: usize = 56;

/// The kind of `Numbering`.
pub const NUMBERING: usize = 57;

/// The kind of `Numberings`.
pub const NUMBERINGS: usize = 58;

/// The kind of `Comment`.
pub const COMMENT: usize = 59;

/// The kind of `Comments`.
pub const COMMENTS: usize = 60;

/// The kind of `Family`.
pub const FAMILY: usize = 61;

/// The kind of `Pitch`.
pub const PITCH: usize = 62;

/// The kind of `Font`.
pub const FONT: usize = 63;

/// The kind of `FontTable`.
pub const FONT_TABLE: usize = 64;

/// The number of element kinds.
pub const KINDS: usize = 65;

/// The table of `BorderStyle`.
pub const BORDER_STYLE_SYMBOLS: usize = 0;

/// The table of `JustificationVal`.
pub const JUSTIFICATION_VAL_SYMBOLS: usize = 1;

/// The table of `TableJustificationVal`.
pub const TABLE_JUSTIFICATION_VAL_SYMBOLS: usize = 2;

/// The table of `TableIndentUnit`.
pub const TABLE_INDENT_UNIT_SYMBOLS: usize = 3;

/// The table of `TableWidthUnit`.
pub const TABLE_WIDTH_UNIT_SYMBOLS: usize = 4;

/// The table of `TextSpace`.
pub const TEXT_SPACE_SYMBOLS: usize = 5;

/// The table of `BreakType`.
pub const BREAK_TYPE_SYMBOLS: usize = 6;

/// The table of `StyleType`.
pub const STYLE_TYPE_SYMBOLS: usize = 7;

/// The table of `NumberingFormatVal`.
pub const NUMBERING_FORMAT_VAL_SYMBOLS: usize = 8;

/// The number of tables of symbols.
pub const TABLES: usize = 9;

/// The description of the kind with the index `kind`.
#[verifier::opaque]
pub open spec fn descriptor_of(kind: int) -> DescriptorView {
    if kind == TOP_BORDER {
        TopBorder::descriptor_spec()
    } else if kind == BOTTOM_BORDER {
        BottomBorder::descriptor_spec()
    } else if kind == LEFT_BORDER {
        LeftBorder::descriptor_spec()
    } else if kind == RIGHT_BORDER {
        RightBorder::descriptor_spec()
    } else if kind == BORDERS {
        Borders::descriptor_spec()
    } else if kind == BOLD {
        Bold::descriptor_spec()
    } else if kind == ITALICS {
        Italics::descriptor_spec()
    } else if kind == JUSTIFICATION {
        Justification::descriptor_spec()
    } else if kind == TABLE_JUSTIFICATION {
        TableJustification::descriptor_spec()
    } else if kind == NUMBERING_ID {
        NumberingId::descriptor_spec()
    } else if kind == INDENT_LEVEL {
        IndentLevel::descriptor_spec()
    } else if kind == NUMBERING_PROPERTY {
        NumberingProperty::descriptor_spec()
    } else if kind == OUTLINE_LEVEL {
        OutlineLevel::descriptor_spec()
    } else if kind == SECTION_PROPERTY {
        SectionProperty::descriptor_spec()
    } else if kind == PARAGRAPH_STYLE_ID {
        ParagraphStyleId::descriptor_spec()
    } else if kind == PARAGRAPH_PROPERTY {
        ParagraphProperty::descriptor_spec()
    } else if kind == CHARACTER_STYLE_ID {
        CharacterStyleId::descriptor_spec()
    } else if kind == CHARACTER_PROPERTY {
        CharacterProperty::descriptor_spec()
    } else if kind == TABLE_BORDERS {
        TableBorders::descriptor_spec()
    } else if kind == TABLE_CELL_PROPERTY {
        TableCellProperty::descriptor_spec()
    } else if kind == TABLE_INDENT {
        TableIndent::descriptor_spec()
    } else if kind == TABLE_WIDTH {
        TableWidth::descriptor_spec()
    } else if kind == TABLE_STYLE_ID {
        TableStyleId::descriptor_spec()
    } else if kind == TABLE_PROPERTY {
        TableProperty::descriptor_spec()
    } else if kind == TEXT {
        Text::descriptor_spec()
    } else if kind == BREAK {
        Break::descriptor_spec()
    } else if kind == TAB {
        Tab::descriptor_spec()
    } else if kind == DRAWING {
        Drawing::descriptor_spec()
    } else if kind == RUN {
        Run::descriptor_spec()
    } else if kind == BOOKMARK_START {
        BookmarkStart::descriptor_spec()
    } else if kind == BOOKMARK_END {
        BookmarkEnd::descriptor_spec()
    } else if kind == COMMENT_RANGE_START {
        CommentRangeStart::descriptor_spec()
    } else if kind == COMMENT_RANGE_END {
        CommentRangeEnd::descriptor_spec()
    } else if kind == HYPERLINK {
        Hyperlink::descriptor_spec()
    } else if kind == PARAGRAPH {
        Paragraph::descriptor_spec()
    } else if kind == SMART_TAG {
        SmartTag::descriptor_spec()
    } else if kind == GRID_COLUMN {
        GridColumn::descriptor_spec()
    } else if kind == TABLE_GRID {
        TableGrid::descriptor_spec()
    } else if kind == TABLE_CELL {
        TableCell::descriptor_spec()
    } else if kind == TABLE_ROW {
        TableRow::descriptor_spec()
    } else if kind == TABLE {
        Table::descriptor_spec()
    } else if kind == BODY {
        Body::descriptor_spec()
    } else if kind == DOCUMENT {
        Document::descriptor_spec()
    } else if kind == DEFAULT_CHARACTER_STYLE {
        DefaultCharacterStyle::descriptor_spec()
    } else if kind == DEFAULT_PARAGRAPH_STYLE {
        DefaultParagraphStyle::descriptor_spec()
    } else if kind == DEFAULT_STYLE {
        DefaultStyle::descriptor_spec()
    } else if kind == BASED_ON {
        BasedOn::descriptor_spec()
    } else if kind == STYLE_NAME {
        StyleName::descriptor_spec()
    } else if kind == STYLE {
        Style::descriptor_spec()
    } else if kind == STYLES {
        Styles::descriptor_spec()
    } else if kind == LEVEL_TEXT {
        LevelText::descriptor_spec()
    } else if kind == NUMBERING_FORMAT {
        NumberingFormat::descriptor_spec()
    } else if kind == START {
        Start::descriptor_spec()
    } else if kind == LEVEL {
        Level::descriptor_spec()
    } else if kind == ABSTRACT_NUMBERING_ID {
        AbstractNumberingId::descriptor_spec()
    } else if kind == NUM_STYLE_LINK {
        NumStyleLink::descriptor_spec()
    } else if kind == ABSTRACT_NUMBERING {
        AbstractNumbering::descriptor_spec()
    } else if kind == NUMBERING {
        Numbering::descriptor_spec()
    } else if kind == NUMBERINGS {
        Numberings::descriptor_spec()
    } else if kind == COMMENT {
        Comment::descriptor_spec()
    } else if kind == COMMENTS {
        Comments::descriptor_spec()
    } else if kind == FAMILY {
        Family::descriptor_spec()
    } else if kind == PITCH {
        Pitch::descriptor_spec()
    } else if kind == FONT {
        Font::descriptor_spec()
    } else {
        FontTable::descriptor_spec()
    }
}

/// The table of symbols with the index `table`.
#[verifier::opaque]
pub open spec fn symbols_of(table: int) -> Seq<Seq<char>> {
    if table == BORDER_STYLE_SYMBOLS {
        BorderStyle::symbols_spec()
    } else if table == JUSTIFICATION_VAL_SYMBOLS {
        JustificationVal::symbols_spec()
    } else if table == TABLE_JUSTIFICATION_VAL_SYMBOLS {
        TableJustificationVal::symbols_spec()
    } else if table == TABLE_INDENT_UNIT_SYMBOLS {
        TableIndentUnit::symbols_spec()
    } else if table == TABLE_WIDTH_UNIT_SYMBOLS {
        TableWidthUnit::symbols_spec()
    } else if table == TEXT_SPACE_SYMBOLS {
        TextSpace::symbols_spec()
    } else if table == BREAK_TYPE_SYMBOLS {
        BreakType::symbols_spec()
    } else if table == STYLE_TYPE_SYMBOLS {
        StyleType::symbols_spec()
    } else {
        NumberingFormatVal::symbols_spec()
    }
}

/// The model: every element kind and every table of symbols.
pub open spec fn model() -> SchemaView {
    SchemaView {
        kinds: Seq::new(KINDS as nat, |kind: int| descriptor_of(kind)),
        symbols: Seq::new(TABLES as nat, |table: int| symbols_of(table)),
    }
}

/// The kind `TOP_BORDER` is that of `TopBorder`.
pub proof fn lemma_kind_top_border()
    ensures
        TOP_BORDER < model().kinds.len(),
        model().kinds[TOP_BORDER as int] == TopBorder::descriptor_spec(),
{
    reveal(descriptor_of);
}

/// The kind `BOTTOM_BORDER` is that of `BottomBorder`.
pub proof fn lemma_kind_bottom_border()
    ensures
        BOTTOM_BORDER < model().kinds.len(),
        model().kinds[BOTTOM_BORDER as int] == BottomBorder::descriptor_spec(),
{
    reveal(descriptor_of);
}

/// The kind `LEFT_BORDER` is that of `LeftBorder`.
pub proof fn lemma_kind_left_border()
    ensures
        LEFT_BORDER < model().kinds.len(),
        model().kinds[LEFT_BORDER as int] == LeftBorder::descriptor_spec(),
{
    reveal(descriptor_of);
}

/// The kind `RIGHT_BORDER` is that of `RightBorder`.
pub proof fn lemma_kind_right_border()
    ensures
        RIGHT_BORDER < model().kinds.len(),
        model().kinds[RIGHT_BORDER as int] == RightBorder::descriptor_spec(),
{
    reveal(descriptor_of);
}

/// The kind `BORDERS` is that of `Borders`.
pub proof fn lemma_kind_borders()
    ensures
        BORDERS < model().kinds.len(),
        model().kinds[BORDERS as int] == Borders::descriptor_spec(),
{
    reveal(descriptor_of);
}

/// The kind `BOLD` is that of `Bold`.
pub proof fn lemma_kind_bold()
    ensures
        BOLD < model().kinds.len(),
        model().kinds[BOLD as int] == Bold::descriptor_spec(),
{
    reveal(descriptor_of);
}

/// The kind `ITALICS` is that of `Italics`.
pub proof fn lemma_kind_italics()
    ensures
        ITALICS < model().kinds.len(),
        model().kinds[ITALICS as int] == Italics::descriptor_spec(),
{
    reveal(descriptor_of);
}

/// The kind `JUSTIFICATION` is that of `Justification`.
pub proof fn lemma_kind_justification()
    ensures
        JUSTIFICATION < model().kinds.len(),
        model().kinds[JUSTIFICATION as int] == Justification::descriptor_spec(),
{
    reveal(descriptor_of);
}

/// The kind `TABLE_JUSTIFICATION` is that of `TableJustification`.
pub proof fn lemma_kind_table_justification()
    ensures
        TABLE_JUSTIFICATION < model().kinds.len(),
        model().kinds[TABLE_JUSTIFICATION as int] == TableJustification::descriptor_spec(),
{
    reveal(descriptor_of);
}

/// The kind `NUMBERING_ID` is that of `NumberingId`.
pub proof fn lemma_kind_numbering_id()
    ensures
        NUMBERING_ID < model().kinds.len(),
        model().kinds[NUMBERING_ID as int] == NumberingId::descriptor_spec(),
{
    reveal(descriptor_of);
}

/// The kind `INDENT_LEVEL` is that of `IndentLevel`.
pub proof fn lemma_kind_indent_level()
    ensures
        INDENT_LEVEL < model().kinds.len(),
        model().kinds[INDENT_LEVEL as int] == IndentLevel::descriptor_spec(),
{
    reveal(descriptor_of);
}

/// The kind `NUMBERING_PROPERTY` is that of `NumberingProperty`.
pub proof fn lemma_kind_numbering_property()
    ensures
        NUMBERING_PROPERTY < model().kinds.len(),
        model().kinds[NUMBERING_PROPERTY as int] == NumberingProperty::descriptor_spec(),
{
    reveal(descriptor_of);
}

/// The kind `OUTLINE_LEVEL` is that of `OutlineLevel`.
pub proof fn lemma_kind_outline_level()
    ensures
        OUTLINE_LEVEL < model().kinds.len(),
        model().kinds[OUTLINE_LEVEL as int] == OutlineLevel::descriptor_spec(),
{
    reveal(descriptor_of);
}

/// The kind `SECTION_PROPERTY` is that of `SectionProperty`.
pub proof fn lemma_kind_section_property()
    ensures
        SECTION_PROPERTY < model().kinds.len(),
        model().kinds[SECTION_PROPERTY as int] == SectionProperty::descriptor_spec(),
{
    reveal(descriptor_of);
}

/// The kind `PARAGRAPH_STYLE_ID` is that of `ParagraphStyleId`.
pub proof fn lemma_kind_paragraph_style_id()
    ensures
        PARAGRAPH_STYLE_ID < model().kinds.len(),
        model().kinds[PARAGRAPH_STYLE_ID as int] == ParagraphStyleId::descriptor_spec(),
{
    reveal(descriptor_of);
}

/// The kind `PARAGRAPH_PROPERTY` is that of `ParagraphProperty`.
pub proof fn lemma_kind_paragraph_property()
    ensures
        PARAGRAPH_PROPERTY < model().kinds.len(),
        model().kinds[PARAGRAPH_PROPERTY as int] == ParagraphProperty::descriptor_spec(),
{
    reveal(descriptor_of);
}

/// The kind `CHARACTER_STYLE_ID` is that of `CharacterStyleId`.
pub proof fn lemma_kind_character_style_id()
    ensures
        CHARACTER_STYLE_ID < model().kinds.len(),
        model().kinds[CHARACTER_STYLE_ID as int] == CharacterStyleId::descriptor_spec(),
{
    reveal(descriptor_of);
}

/// The kind `CHARACTER_PROPERTY` is that of `CharacterProperty`.
pub proof fn lemma_kind_character_property()
    ensures
        CHARACTER_PROPERTY < model().kinds.len(),
        model().kinds[CHARACTER_PROPERTY as int] == CharacterProperty::descriptor_spec(),
{
    reveal(descriptor_of);
}

/// The kind `TABLE_BORDERS` is that of `TableBorders`.
pub proof fn lemma_kind_table_borders()
    ensures
        TABLE_BORDERS < model().kinds.len(),
        model().kinds[TABLE_BORDERS as int] == TableBorders::descriptor_spec(),
{
    reveal(descriptor_of);
}

/// The kind `TABLE_CELL_PROPERTY` is that of `TableCellProperty`.
pub proof fn lemma_kind_table_cell_property()
    ensures
        TABLE_CELL_PROPERTY < model().kinds.len(),
        model().kinds[TABLE_CELL_PROPERTY as int] == TableCellProperty::descriptor_spec(),
{
    reveal(descriptor_of);
}

/// The kind `TABLE_INDENT` is that of `TableIndent`.
pub proof fn lemma_kind_table_indent()
    ensures
        TABLE_INDENT < model().kinds.len(),
        model().kinds[TABLE_INDENT as int] == TableIndent::descriptor_spec(),
{
    reveal(descriptor_of);
}

/// The kind `TABLE_WIDTH` is that of `TableWidth`.
pub proof fn lemma_kind_table_width()
    ensures
        TABLE_WIDTH < model().kinds.len(),
        model().kinds[TABLE_WIDTH as int] == TableWidth::descriptor_spec(),
{
    reveal(descriptor_of);
}

/// The kind `TABLE_STYLE_ID` is that of `TableStyleId`.
pub proof fn lemma_kind_table_style_id()
    ensures
        TABLE_STYLE_ID < model().kinds.len(),
        model().kinds[TABLE_STYLE_ID as int] == TableStyleId::descriptor_spec(),
{
    reveal(descriptor_of);
}

/// The kind `TABLE_PROPERTY` is that of `TableProperty`.
pub proof fn lemma_kind_table_property()
    ensures
        TABLE_PROPERTY < model().kinds.len(),
        model().kinds[TABLE_PROPERTY as int] == TableProperty::descriptor_spec(),
{
    reveal(descriptor_of);
}

/// The kind `TEXT` is that of `Text`.
pub proof fn lemma_kind_text()
    ensures
        TEXT < model().kinds.len(),
        model().kinds[TEXT as int] == Text::descriptor_spec(),
{
    reveal(descriptor_of);
}

/// The kind `BREAK` is that of `Break`.
pub proof fn lemma_kind_break()
    ensures
        BREAK < model().kinds.len(),
        model().kinds[BREAK as int] == Break::descriptor_spec(),
{
    reveal(descriptor_of);
}

/// The kind `TAB` is that of `Tab`.
pub proof fn lemma_kind_tab()
    ensures
        TAB < model().kinds.len(),
        model().kinds[TAB as int] == Tab::descriptor_spec(),
{
    reveal(descriptor_of);
}

/// The kind `DRAWING` is that of `Drawing`.
pub proof fn lemma_kind_drawing()
    ensures
        DRAWING < model().kinds.len(),
        model().kinds[DRAWING as int] == Drawing::descriptor_spec(),
{
    reveal(descriptor_of);
}

/// The kind `RUN` is that of `Run`.
pub proof fn lemma_kind_run()
    ensures
        RUN < model().kinds.len(),
        model().kinds[RUN as int] == Run::descriptor_spec(),
{
    reveal(descriptor_of);
}

/// The kind `BOOKMARK_START` is that of `BookmarkStart`.
pub proof fn lemma_kind_bookmark_start()
    ensures
        BOOKMARK_START < model().kinds.len(),
        model().kinds[BOOKMARK_START as int] == BookmarkStart::descriptor_spec(),
{
    reveal(descriptor_of);
}

/// The kind `BOOKMARK_END` is that of `BookmarkEnd`.
pub proof fn lemma_kind_bookmark_end()
    ensures
        BOOKMARK_END < model().kinds.len(),
        model().kinds[BOOKMARK_END as int] == BookmarkEnd::descriptor_spec(),
{
    reveal(descriptor_of);
}

/// The kind `COMMENT_RANGE_START` is that of `CommentRangeStart`.
pub proof fn lemma_kind_comment_range_start()
    ensures
        COMMENT_RANGE_START < model().kinds.len(),
        model().kinds[COMMENT_RANGE_START as int] == CommentRangeStart::descriptor_spec(),
{
    reveal(descriptor_of);
}

/// The kind `COMMENT_RANGE_END` is that of `CommentRangeEnd`.
pub proof fn lemma_kind_comment_range_end()
    ensures
        COMMENT_RANGE_END < model().kinds.len(),
        model().kinds[COMMENT_RANGE_END as int] == CommentRangeEnd::descriptor_spec(),
{
    reveal(descriptor_of);
}

/// The kind `HYPERLINK` is that of `Hyperlink`.
pub proof fn lemma_kind_hyperlink()
    ensures
        HYPERLINK < model().kinds.len(),
        model().kinds[HYPERLINK as int] == Hyperlink::descriptor_spec(),
{
    reveal(descriptor_of);
}

/// The kind `PARAGRAPH` is that of `Paragraph`.
pub proof fn lemma_kind_paragraph()
    ensures
        PARAGRAPH < model().kinds.len(),
        model().kinds[PARAGRAPH as int] == Paragraph::descriptor_spec(),
{
    reveal(descriptor_of);
}

/// The kind `SMART_TAG` is that of `SmartTag`.
pub proof fn lemma_kind_smart_tag()
    ensures
        SMART_TAG < model().kinds.len(),
        model().kinds[SMART_TAG as int] == SmartTag::descriptor_spec(),
{
    reveal(descriptor_of);
}

/// The kind `GRID_COLUMN` is that of `GridColumn`.
pub proof fn lemma_kind_grid_column()
    ensures
        GRID_COLUMN < model().kinds.len(),
        model().kinds[GRID_COLUMN as int] == GridColumn::descriptor_spec(),
{
    reveal(descriptor_of);
}

/// The kind `TABLE_GRID` is that of `TableGrid`.
pub proof fn lemma_kind_table_grid()
    ensures
        TABLE_GRID < model().kinds.len(),
        model().kinds[TABLE_GRID as int] == TableGrid::descriptor_spec(),
{
    reveal(descriptor_of);
}

/// The kind `TABLE_CELL` is that of `TableCell`.
pub proof fn lemma_kind_table_cell()
    ensures
        TABLE_CELL < model().kinds.len(),
        model().kinds[TABLE_CELL as int] == TableCell::descriptor_spec(),
{
    reveal(descriptor_of);
}

/// The kind `TABLE_ROW` is that of `TableRow`.
pub proof fn lemma_kind_table_row()
    ensures
        TABLE_ROW < model().kinds.len(),
        model().kinds[TABLE_ROW as int] == TableRow::descriptor_spec(),
{
    reveal(descriptor_of);
}

/// The kind `TABLE` is that of `Table`.
pub proof fn lemma_kind_table()
    ensures
        TABLE < model().kinds.len(),
        model().kinds[TABLE as int] == Table::descriptor_spec(),
{
    reveal(descriptor_of);
}

/// The kind `BODY` is that of `Body`.
pub proof fn lemma_kind_body()
    ensures
        BODY < model().kinds.len(),
        model().kinds[BODY as int] == Body::descriptor_spec(),
{
    reveal(descriptor_of);
}

/// The kind `DOCUMENT` is that of `Document`.
pub proof fn lemma_kind_document()
    ensures
        DOCUMENT < model().kinds.len(),
        model().kinds[DOCUMENT as int] == Document::descriptor_spec(),
{
    reveal(descriptor_of);
}

/// The kind `DEFAULT_CHARACTER_STYLE` is that of `DefaultCharacterStyle`.
pub proof fn lemma_kind_default_character_style()
    ensures
        DEFAULT_CHARACTER_STYLE < model().kinds.len(),
        model().kinds[DEFAULT_CHARACTER_STYLE as int] == DefaultCharacterStyle::descriptor_spec(),
{
    reveal(descriptor_of);
}

/// The kind `DEFAULT_PARAGRAPH_STYLE` is that of `DefaultParagraphStyle`.
pub proof fn lemma_kind_default_paragraph_style()
    ensures
        DEFAULT_PARAGRAPH_STYLE < model().kinds.len(),
        model().kinds[DEFAULT_PARAGRAPH_STYLE as int] == DefaultParagraphStyle::descriptor_spec(),
{
    reveal(descriptor_of);
}

/// The kind `DEFAULT_STYLE` is that of `DefaultStyle`.
pub proof fn lemma_kind_default_style()
    ensures
        DEFAULT_STYLE < model().kinds.len(),
        model().kinds[DEFAULT_STYLE as int] == DefaultStyle::descriptor_spec(),
{
    reveal(descriptor_of);
}

/// The kind `BASED_ON` is that of `BasedOn`.
pub proof fn lemma_kind_based_on()
    ensures
        BASED_ON < model().kinds.len(),
        model().kinds[BASED_ON as int] == BasedOn::descriptor_spec(),
{
    reveal(descriptor_of);
}

/// The kind `STYLE_NAME` is that of `StyleName`.
pub proof fn lemma_kind_style_name()
    ensures
        STYLE_NAME < model().kinds.len(),
        model().kinds[STYLE_NAME as int] == StyleName::descriptor_spec(),
{
    reveal(descriptor_of);
}

/// The kind `STYLE` is that of `Style`.
pub proof fn lemma_kind_style()
    ensures
        STYLE < model().kinds.len(),
        model().kinds[STYLE as int] == Style::descriptor_spec(),
{
    reveal(descriptor_of);
}

/// The kind `STYLES` is that of `Styles`.
pub proof fn lemma_kind_styles()
    ensures
        STYLES < model().kinds.len(),
        model().kinds[STYLES as int] == Styles::descriptor_spec(),
{
    reveal(descriptor_of);
}

/// The kind `LEVEL_TEXT` is that of `LevelText`.
pub proof fn lemma_kind_level_text()
    ensures
        LEVEL_TEXT < model().kinds.len(),
        model().kinds[LEVEL_TEXT as int] == LevelText::descriptor_spec(),
{
    reveal(descriptor_of);
}

/// The kind `NUMBERING_FORMAT` is that of `NumberingFormat`.
pub proof fn lemma_kind_numbering_format()
    ensures
        NUMBERING_FORMAT < model().kinds.len(),
        model().kinds[NUMBERING_FORMAT as int] == NumberingFormat::descriptor_spec(),
{
    reveal(descriptor_of);
}

/// The kind `START` is that of `Start`.
pub proof fn lemma_kind_start()
    ensures
        START < model().kinds.len(),
        model().kinds[START as int] == Start::descriptor_spec(),
{
    reveal(descriptor_of);
}

/// The kind `LEVEL` is that of `Level`.
pub proof fn lemma_kind_level()
    ensures
        LEVEL < model().kinds.len(),
        model().kinds[LEVEL as int] == Level::descriptor_spec(),
{
    reveal(descriptor_of);
}

/// The kind `ABSTRACT_NUMBERING_ID` is that of `AbstractNumberingId`.
pub proof fn lemma_kind_abstract_numbering_id()
    ensures
        ABSTRACT_NUMBERING_ID < model().kinds.len(),
        model().kinds[ABSTRACT_NUMBERING_ID as int] == AbstractNumberingId::descriptor_spec(),
{
    reveal(descriptor_of);
}

/// The kind `NUM_STYLE_LINK` is that of `NumStyleLink`.
pub proof fn lemma_kind_num_style_link()
    ensures
        NUM_STYLE_LINK < model().kinds.len(),
        model().kinds[NUM_STYLE_LINK as int] == NumStyleLink::descriptor_spec(),
{
    reveal(descriptor_of);
}

/// The kind `ABSTRACT_NUMBERING` is that of `AbstractNumbering`.
pub proof fn lemma_kind_abstract_numbering()
    ensures
        ABSTRACT_NUMBERING < model().kinds.len(),
        model().kinds[ABSTRACT_NUMBERING as int] == AbstractNumbering::descriptor_spec(),
{
    reveal(descriptor_of);
}

/// The kind `NUMBERING` is that of `Numbering`.
pub proof fn lemma_kind_numbering()
    ensures
        NUMBERING < model().kinds.len(),
        model().kinds[NUMBERING as int] == Numbering::descriptor_spec(),
{
    reveal(descriptor_of);
}

/// The kind `NUMBERINGS` is that of `Numberings`.
pub proof fn lemma_kind_numberings()
    ensures
        NUMBERINGS < model().kinds.len(),
        model().kinds[NUMBERINGS as int] == Numberings::descriptor_spec(),
{
    reveal(descriptor_of);
}

/// The kind `COMMENT` is that of `Comment`.
pub proof fn lemma_kind_comment()
    ensures
        COMMENT < model().kinds.len(),
        model().kinds[COMMENT as int] == Comment::descriptor_spec(),
{
    reveal(descriptor_of);
}

/// The kind `COMMENTS` is that of `Comments`.
pub proof fn lemma_kind_comments()
    ensures
        COMMENTS < model().kinds.len(),
        model().kinds[COMMENTS as int] == Comments::descriptor_spec(),
{
    reveal(descriptor_of);
}

/// The kind `FAMILY` is that of `Family`.
pub proof fn lemma_kind_family()
    ensures
        FAMILY < model().kinds.len(),
        model().kinds[FAMILY as int] == Family::descriptor_spec(),
{
    reveal(descriptor_of);
}

/// The kind `PITCH` is that of `Pitch`.
pub proof fn lemma_kind_pitch()
    ensures
        PITCH < model().kinds.len(),
        model().kinds[PITCH as int] == Pitch::descriptor_spec(),
{
    reveal(descriptor_of);
}

/// The kind `FONT` is that of `Font`.
pub proof fn lemma_kind_font()
    ensures
        FONT < model().kinds.len(),
        model().kinds[FONT as int] == Font::descriptor_spec(),
{
    reveal(descriptor_of);
}

/// The kind `FONT_TABLE` is that of `FontTable`.
pub proof fn lemma_kind_font_table()
    ensures
        FONT_TABLE < model().kinds.len(),
        model().kinds[FONT_TABLE as int] == FontTable::descriptor_spec(),
{
    reveal(descriptor_of);
}

/// The table `BORDER_STYLE_SYMBOLS` is that of `BorderStyle`.
pub proof fn lemma_symbols_border_style()
    ensures
        BORDER_STYLE_SYMBOLS < model().symbols.len(),
        model().symbols[BORDER_STYLE_SYMBOLS as int] == BorderStyle::symbols_spec(),
        BorderStyle::symbols_spec().len() == 16,
{
    reveal(symbols_of);
}

/// The table `JUSTIFICATION_VAL_SYMBOLS` is that of `JustificationVal`.
pub proof fn lemma_symbols_justification_val()
    ensures
        JUSTIFICATION_VAL_SYMBOLS < model().symbols.len(),
        model().symbols[JUSTIFICATION_VAL_SYMBOLS as int] == JustificationVal::symbols_spec(),
        JustificationVal::symbols_spec().len() == 12,
{
    reveal(symbols_of);
}

/// The table `TABLE_JUSTIFICATION_VAL_SYMBOLS` is that of `TableJustificationVal`.
pub proof fn lemma_symbols_table_justification_val()
    ensures
        TABLE_JUSTIFICATION_VAL_SYMBOLS < model().symbols.len(),
        model().symbols[TABLE_JUSTIFICATION_VAL_SYMBOLS as int] == TableJustificationVal::symbols_spec(),
        TableJustificationVal::symbols_spec().len() == 5,
{
    reveal(symbols_of);
}

/// The table `TABLE_INDENT_UNIT_SYMBOLS` is that of `TableIndentUnit`.
pub proof fn lemma_symbols_table_indent_unit()
    ensures
        TABLE_INDENT_UNIT_SYMBOLS < model().symbols.len(),
        model().symbols[TABLE_INDENT_UNIT_SYMBOLS as int] == TableIndentUnit::symbols_spec(),
        TableIndentUnit::symbols_spec().len() == 4,
{
    reveal(symbols_of);
}

/// The table `TABLE_WIDTH_UNIT_SYMBOLS` is that of `TableWidthUnit`.
pub proof fn lemma_symbols_table_width_unit()
    ensures
        TABLE_WIDTH_UNIT_SYMBOLS < model().symbols.len(),
        model().symbols[TABLE_WIDTH_UNIT_SYMBOLS as int] == TableWidthUnit::symbols_spec(),
        TableWidthUnit::symbols_spec().len() == 4,
{
    reveal(symbols_of);
}

/// The table `TEXT_SPACE_SYMBOLS` is that of `TextSpace`.
pub proof fn lemma_symbols_text_space()
    ensures
        TEXT_SPACE_SYMBOLS < model().symbols.len(),
        model().symbols[TEXT_SPACE_SYMBOLS as int] == TextSpace::symbols_spec(),
        TextSpace::symbols_spec().len() == 2,
{
    reveal(symbols_of);
}

/// The table `BREAK_TYPE_SYMBOLS` is that of `BreakType`.
pub proof fn lemma_symbols_break_type()
    ensures
        BREAK_TYPE_SYMBOLS < model().symbols.len(),
        model().symbols[BREAK_TYPE_SYMBOLS as int] == BreakType::symbols_spec(),
        BreakType::symbols_spec().len() == 3,
{
    reveal(symbols_of);
}

/// The table `STYLE_TYPE_SYMBOLS` is that of `StyleType`.
pub proof fn lemma_symbols_style_type()
    ensures
        STYLE_TYPE_SYMBOLS < model().symbols.len(),
        model().symbols[STYLE_TYPE_SYMBOLS as int] == StyleType::symbols_spec(),
        StyleType::symbols_spec().len() == 4,
{
    reveal(symbols_of);
}

/// The table `NUMBERING_FORMAT_VAL_SYMBOLS` is that of `NumberingFormatVal`.
pub proof fn lemma_symbols_numbering_format_val()
    ensures
        NUMBERING_FORMAT_VAL_SYMBOLS < model().symbols.len(),
        model().symbols[NUMBERING_FORMAT_VAL_SYMBOLS as int] == NumberingFormatVal::symbols_spec(),
        NumberingFormatVal::symbols_spec().len() == 10,
{
    reveal(symbols_of);
}

/// Every kind of the model refers only to kinds and tables that the model
/// has, and every default to a kind before its owner.
pub proof fn lemma_model_valid()
    ensures
        model().valid(),
{
    assert forall|k: int| 0 <= k < model().kinds.len() implies (#[trigger] model().kinds[k]).valid(
        model(),
        k as nat,
    ) by {
        lemma_kind_valid(k);
    }
}

/// The kind with the index `k` refers only to what the model has.
proof fn lemma_kind_valid(k: int)
    requires
        0 <= k < KINDS,
    ensures
        model().kinds[k].valid(model(), k as nat),
{
    if k == TOP_BORDER {
        lemma_valid_top_border();
    } else if k == BOTTOM_BORDER {
        lemma_valid_bottom_border();
    } else if k == LEFT_BORDER {
        lemma_valid_left_border();
    } else if k == RIGHT_BORDER {
        lemma_valid_right_border();
    } else if k == BORDERS {
        lemma_valid_borders();
    } else if k == BOLD {
        lemma_valid_bold();
    } else if k == ITALICS {
        lemma_valid_italics();
    } else if k == JUSTIFICATION {
        lemma_valid_justification();
    } else if k == TABLE_JUSTIFICATION {
        lemma_valid_table_justification();
    } else if k == NUMBERING_ID {
        lemma_valid_numbering_id();
    } else if k == INDENT_LEVEL {
        lemma_valid_indent_level();
    } else if k == NUMBERING_PROPERTY {
        lemma_valid_numbering_property();
    } else if k == OUTLINE_LEVEL {
        lemma_valid_outline_level();
    } else if k == SECTION_PROPERTY {
        lemma_valid_section_property();
    } else if k == PARAGRAPH_STYLE_ID {
        lemma_valid_paragraph_style_id();
    } else if k == PARAGRAPH_PROPERTY {
        lemma_valid_paragraph_property();
    } else if k == CHARACTER_STYLE_ID {
        lemma_valid_character_style_id();
    } else if k == CHARACTER_PROPERTY {
        lemma_valid_character_property();
    } else if k == TABLE_BORDERS {
        lemma_valid_table_borders();
    } else if k == TABLE_CELL_PROPERTY {
        lemma_valid_table_cell_property();
    } else if k == TABLE_INDENT {
        lemma_valid_table_indent();
    } else if k == TABLE_WIDTH {
        lemma_valid_table_width();
    } else if k == TABLE_STYLE_ID {
        lemma_valid_table_style_id();
    } else if k == TABLE_PROPERTY {
        lemma_valid_table_property();
    } else if k == TEXT {
        lemma_valid_text();
    } else if k == BREAK {
        lemma_valid_break();
    } else if k == TAB {
        lemma_valid_tab();
    } else if k == DRAWING {
        lemma_valid_drawing();
    } else if k == RUN {
        lemma_valid_run();
    } else if k == BOOKMARK_START {
        lemma_valid_bookmark_start();
    } else if k == BOOKMARK_END {
        lemma_valid_bookmark_end();
    } else if k == COMMENT_RANGE_START {
        lemma_valid_comment_range_start();
    } else if k == COMMENT_RANGE_END {
        lemma_valid_comment_range_end();
    } else if k == HYPERLINK {
        lemma_valid_hyperlink();
    } else if k == PARAGRAPH {
        lemma_valid_paragraph();
    } else if k == SMART_TAG {
        lemma_valid_smart_tag();
    } else if k == GRID_COLUMN {
        lemma_valid_grid_column();
    } else if k == TABLE_GRID {
        lemma_valid_table_grid();
    } else if k == TABLE_CELL {
        lemma_valid_table_cell();
    } else if k == TABLE_ROW {
        lemma_valid_table_row();
    } else if k == TABLE {
        lemma_valid_table();
    } else if k == BODY {
        lemma_valid_body();
    } else if k == DOCUMENT {
        lemma_valid_document();
    } else if k == DEFAULT_CHARACTER_STYLE {
        lemma_valid_default_character_style();
    } else if k == DEFAULT_PARAGRAPH_STYLE {
        lemma_valid_default_paragraph_style();
    } else if k == DEFAULT_STYLE {
        lemma_valid_default_style();
    } else if k == BASED_ON {
        lemma_valid_based_on();
    } else if k == STYLE_NAME {
        lemma_valid_style_name();
    } else if k == STYLE {
        lemma_valid_style();
    } else if k == STYLES {
        lemma_valid_styles();
    } else if k == LEVEL_TEXT {
        lemma_valid_level_text();
    } else if k == NUMBERING_FORMAT {
        lemma_valid_numbering_format();
    } else if k == START {
        lemma_valid_start();
    } else if k == LEVEL {
        lemma_valid_level();
    } else if k == ABSTRACT_NUMBERING_ID {
        lemma_valid_abstract_numbering_id();
    } else if k == NUM_STYLE_LINK {
        lemma_valid_num_style_link();
    } else if k == ABSTRACT_NUMBERING {
        lemma_valid_abstract_numbering();
    } else if k == NUMBERING {
        lemma_valid_numbering();
    } else if k == NUMBERINGS {
        lemma_valid_numberings();
    } else if k == COMMENT {
        lemma_valid_comment();
    } else if k == COMMENTS {
        lemma_valid_comments();
    } else if k == FAMILY {
        lemma_valid_family();
    } else if k == PITCH {
        lemma_valid_pitch();
    } else if k == FONT {
        lemma_valid_font();
    } else {
        lemma_valid_font_table();
    }
}

/// The kind of `TopBorder` refers only to what the model has.
proof fn lemma_valid_top_border()
    ensures
        model().kinds[TOP_BORDER as int].valid(model(), TOP_BORDER as nat),
{
    lemma_kind_top_border();
}

/// The kind of `BottomBorder` refers only to what the model has.
proof fn lemma_valid_bottom_border()
    ensures
        model().kinds[BOTTOM_BORDER as int].valid(model(), BOTTOM_BORDER as nat),
{
    lemma_kind_bottom_border();
}

/// The kind of `LeftBorder` refers only to what the model has.
proof fn lemma_valid_left_border()
    ensures
        model().kinds[LEFT_BORDER as int].valid(model(), LEFT_BORDER as nat),
{
    lemma_kind_left_border();
}

/// The kind of `RightBorder` refers only to what the model has.
proof fn lemma_valid_right_border()
    ensures
        model().kinds[RIGHT_BORDER as int].valid(model(), RIGHT_BORDER as nat),
{
    lemma_kind_right_border();
}

/// The kind of `Borders` refers only to what the model has.
proof fn lemma_valid_borders()
    ensures
        model().kinds[BORDERS as int].valid(model(), BORDERS as nat),
{
    lemma_kind_borders();
    lemma_kind_top_border();
    lemma_kind_bottom_border();
    lemma_kind_left_border();
    lemma_kind_right_border();
}

/// The kind of `Bold` refers only to what the model has.
proof fn lemma_valid_bold()
    ensures
        model().kinds[BOLD as int].valid(model(), BOLD as nat),
{
    lemma_kind_bold();
}

/// The kind of `Italics` refers only to what the model has.
proof fn lemma_valid_italics()
    ensures
        model().kinds[ITALICS as int].valid(model(), ITALICS as nat),
{
    lemma_kind_italics();
}

/// The kind of `Justification` refers only to what the model has.
proof fn lemma_valid_justification()
    ensures
        model().kinds[JUSTIFICATION as int].valid(model(), JUSTIFICATION as nat),
{
    lemma_kind_justification();
}

/// The kind of `TableJustification` refers only to what the model has.
proof fn lemma_valid_table_justification()
    ensures
        model().kinds[TABLE_JUSTIFICATION as int].valid(model(), TABLE_JUSTIFICATION as nat),
{
    lemma_kind_table_justification();
}

/// The kind of `NumberingId` refers only to what the model has.
proof fn lemma_valid_numbering_id()
    ensures
        model().kinds[NUMBERING_ID as int].valid(model(), NUMBERING_ID as nat),
{
    lemma_kind_numbering_id();
}

/// The kind of `IndentLevel` refers only to what the model has.
proof fn lemma_valid_indent_level()
    ensures
        model().kinds[INDENT_LEVEL as int].valid(model(), INDENT_LEVEL as nat),
{
    lemma_kind_indent_level();
}

/// The kind of `NumberingProperty` refers only to what the model has.
proof fn lemma_valid_numbering_property()
    ensures
        model().kinds[NUMBERING_PROPERTY as int].valid(model(), NUMBERING_PROPERTY as nat),
{
    lemma_kind_numbering_property();
    lemma_kind_numbering_id();
    lemma_kind_indent_level();
}

/// The kind of `OutlineLevel` refers only to what the model has.
proof fn lemma_valid_outline_level()
    ensures
        model().kinds[OUTLINE_LEVEL as int].valid(model(), OUTLINE_LEVEL as nat),
{
    lemma_kind_outline_level();
}

/// The kind of `SectionProperty` refers only to what the model has.
proof fn lemma_valid_section_property()
    ensures
        model().kinds[SECTION_PROPERTY as int].valid(model(), SECTION_PROPERTY as nat),
{
    lemma_kind_section_property();
}

/// The kind of `ParagraphStyleId` refers only to what the model has.
proof fn lemma_valid_paragraph_style_id()
    ensures
        model().kinds[PARAGRAPH_STYLE_ID as int].valid(model(), PARAGRAPH_STYLE_ID as nat),
{
    lemma_kind_paragraph_style_id();
}

/// The kind of `ParagraphProperty` refers only to what the model has.
proof fn lemma_valid_paragraph_property()
    ensures
        model().kinds[PARAGRAPH_PROPERTY as int].valid(model(), PARAGRAPH_PROPERTY as nat),
{
    lemma_kind_paragraph_property();
    lemma_kind_paragraph_style_id();
    lemma_kind_justification();
    lemma_kind_borders();
    lemma_kind_numbering_property();
    lemma_kind_outline_level();
    lemma_kind_section_property();
}

/// The kind of `CharacterStyleId` refers only to what the model has.
proof fn lemma_valid_character_style_id()
    ensures
        model().kinds[CHARACTER_STYLE_ID as int].valid(model(), CHARACTER_STYLE_ID as nat),
{
    lemma_kind_character_style_id();
}

/// The kind of `CharacterProperty` refers only to what the model has.
proof fn lemma_valid_character_property()
    ensures
        model().kinds[CHARACTER_PROPERTY as int].valid(model(), CHARACTER_PROPERTY as nat),
{
    lemma_kind_character_property();
    lemma_kind_character_style_id();
    lemma_kind_bold();
    lemma_kind_italics();
}

/// The kind of `TableBorders` refers only to what the model has.
proof fn lemma_valid_table_borders()
    ensures
        model().kinds[TABLE_BORDERS as int].valid(model(), TABLE_BORDERS as nat),
{
    lemma_kind_table_borders();
    lemma_kind_top_border();
    lemma_kind_bottom_border();
}

/// The kind of `TableCellProperty` refers only to what the model has.
proof fn lemma_valid_table_cell_property()
    ensures
        model().kinds[TABLE_CELL_PROPERTY as int].valid(model(), TABLE_CELL_PROPERTY as nat),
{
    lemma_kind_table_cell_property();
}

/// The kind of `TableIndent` refers only to what the model has.
proof fn lemma_valid_table_indent()
    ensures
        model().kinds[TABLE_INDENT as int].valid(model(), TABLE_INDENT as nat),
{
    lemma_kind_table_indent();
}

/// The kind of `TableWidth` refers only to what the model has.
proof fn lemma_valid_table_width()
    ensures
        model().kinds[TABLE_WIDTH as int].valid(model(), TABLE_WIDTH as nat),
{
    lemma_kind_table_width();
}

/// The kind of `TableStyleId` refers only to what the model has.
proof fn lemma_valid_table_style_id()
    ensures
        model().kinds[TABLE_STYLE_ID as int].valid(model(), TABLE_STYLE_ID as nat),
{
    lemma_kind_table_style_id();
}

/// The kind of `TableProperty` refers only to what the model has.
proof fn lemma_valid_table_property()
    ensures
        model().kinds[TABLE_PROPERTY as int].valid(model(), TABLE_PROPERTY as nat),
{
    lemma_kind_table_property();
    lemma_kind_table_style_id();
    lemma_kind_table_justification();
    lemma_kind_table_borders();
    lemma_kind_table_indent();
    lemma_kind_table_width();
}

/// The kind of `Text` refers only to what the model has.
proof fn lemma_valid_text()
    ensures
        model().kinds[TEXT as int].valid(model(), TEXT as nat),
{
    lemma_kind_text();
}

/// The kind of `Break` refers only to what the model has.
proof fn lemma_valid_break()
    ensures
        model().kinds[BREAK as int].valid(model(), BREAK as nat),
{
    lemma_kind_break();
}

/// The kind of `Tab` refers only to what the model has.
proof fn lemma_valid_tab()
    ensures
        model().kinds[TAB as int].valid(model(), TAB as nat),
{
    lemma_kind_tab();
}

/// The kind of `Drawing` refers only to what the model has.
proof fn lemma_valid_drawing()
    ensures
        model().kinds[DRAWING as int].valid(model(), DRAWING as nat),
{
    lemma_kind_drawing();
}

/// The kind of `Run` refers only to what the model has.
proof fn lemma_valid_run()
    ensures
        model().kinds[RUN as int].valid(model(), RUN as nat),
{
    lemma_kind_run();
    lemma_kind_character_property();
    lemma_kind_text();
    lemma_kind_break();
    lemma_kind_tab();
    lemma_kind_drawing();
}

/// The kind of `BookmarkStart` refers only to what the model has.
proof fn lemma_valid_bookmark_start()
    ensures
        model().kinds[BOOKMARK_START as int].valid(model(), BOOKMARK_START as nat),
{
    lemma_kind_bookmark_start();
}

/// The kind of `BookmarkEnd` refers only to what the model has.
proof fn lemma_valid_bookmark_end()
    ensures
        model().kinds[BOOKMARK_END as int].valid(model(), BOOKMARK_END as nat),
{
    lemma_kind_bookmark_end();
}

/// The kind of `CommentRangeStart` refers only to what the model has.
proof fn lemma_valid_comment_range_start()
    ensures
        model().kinds[COMMENT_RANGE_START as int].valid(model(), COMMENT_RANGE_START as nat),
{
    lemma_kind_comment_range_start();
}

/// The kind of `CommentRangeEnd` refers only to what the model has.
proof fn lemma_valid_comment_range_end()
    ensures
        model().kinds[COMMENT_RANGE_END as int].valid(model(), COMMENT_RANGE_END as nat),
{
    lemma_kind_comment_range_end();
}

/// The kind of `Hyperlink` refers only to what the model has.
proof fn lemma_valid_hyperlink()
    ensures
        model().kinds[HYPERLINK as int].valid(model(), HYPERLINK as nat),
{
    lemma_kind_hyperlink();
    lemma_kind_run();
}

/// The kind of `Paragraph` refers only to what the model has.
proof fn lemma_valid_paragraph()
    ensures
        model().kinds[PARAGRAPH as int].valid(model(), PARAGRAPH as nat),
{
    lemma_kind_paragraph();
    lemma_kind_paragraph_property();
    lemma_kind_comment_range_start();
    lemma_kind_comment_range_end();
    lemma_kind_run();
    lemma_kind_hyperlink();
    lemma_kind_bookmark_start();
    lemma_kind_bookmark_end();
}

/// The kind of `SmartTag` refers only to what the model has.
proof fn lemma_valid_smart_tag()
    ensures
        model().kinds[SMART_TAG as int].valid(model(), SMART_TAG as nat),
{
    lemma_kind_smart_tag();
    lemma_kind_comment_range_start();
    lemma_kind_comment_range_end();
    lemma_kind_run();
    lemma_kind_hyperlink();
    lemma_kind_bookmark_start();
    lemma_kind_bookmark_end();
}

/// The kind of `GridColumn` refers only to what the model has.
proof fn lemma_valid_grid_column()
    ensures
        model().kinds[GRID_COLUMN as int].valid(model(), GRID_COLUMN as nat),
{
    lemma_kind_grid_column();
}

/// The kind of `TableGrid` refers only to what the model has.
proof fn lemma_valid_table_grid()
    ensures
        model().kinds[TABLE_GRID as int].valid(model(), TABLE_GRID as nat),
{
    lemma_kind_table_grid();
    lemma_kind_grid_column();
}

/// The kind of `TableCell` refers only to what the model has.
proof fn lemma_valid_table_cell()
    ensures
        model().kinds[TABLE_CELL as int].valid(model(), TABLE_CELL as nat),
{
    lemma_kind_table_cell();
    lemma_kind_table_cell_property();
    lemma_kind_paragraph();
}

/// The kind of `TableRow` refers only to what the model has.
proof fn lemma_valid_table_row()
    ensures
        model().kinds[TABLE_ROW as int].valid(model(), TABLE_ROW as nat),
{
    lemma_kind_table_row();
    lemma_kind_table_cell();
}

/// The kind of `Table` refers only to what the model has.
proof fn lemma_valid_table()
    ensures
        model().kinds[TABLE as int].valid(model(), TABLE as nat),
{
    lemma_kind_table();
    lemma_kind_table_property();
    lemma_kind_table_grid();
    lemma_kind_table_row();
}

/// The kind of `Body` refers only to what the model has.
proof fn lemma_valid_body()
    ensures
        model().kinds[BODY as int].valid(model(), BODY as nat),
{
    lemma_kind_body();
    lemma_kind_paragraph();
    lemma_kind_table();
}

/// The kind of `Document` refers only to what the model has.
proof fn lemma_valid_document()
    ensures
        model().kinds[DOCUMENT as int].valid(model(), DOCUMENT as nat),
{
    lemma_kind_document();
    lemma_kind_body();
}

/// The kind of `DefaultCharacterStyle` refers only to what the model has.
proof fn lemma_valid_default_character_style()
    ensures
        model().kinds[DEFAULT_CHARACTER_STYLE as int].valid(model(), DEFAULT_CHARACTER_STYLE as nat),
{
    lemma_kind_default_character_style();
    lemma_kind_character_property();
}

/// The kind of `DefaultParagraphStyle` refers only to what the model has.
proof fn lemma_valid_default_paragraph_style()
    ensures
        model().kinds[DEFAULT_PARAGRAPH_STYLE as int].valid(model(), DEFAULT_PARAGRAPH_STYLE as nat),
{
    lemma_kind_default_paragraph_style();
    lemma_kind_paragraph_property();
}

/// The kind of `DefaultStyle` refers only to what the model has.
proof fn lemma_valid_default_style()
    ensures
        model().kinds[DEFAULT_STYLE as int].valid(model(), DEFAULT_STYLE as nat),
{
    lemma_kind_default_style();
    lemma_kind_default_character_style();
    lemma_kind_default_paragraph_style();
}

/// The kind of `BasedOn` refers only to what the model has.
proof fn lemma_valid_based_on()
    ensures
        model().kinds[BASED_ON as int].valid(model(), BASED_ON as nat),
{
    lemma_kind_based_on();
}

/// The kind of `StyleName` refers only to what the model has.
proof fn lemma_valid_style_name()
    ensures
        model().kinds[STYLE_NAME as int].valid(model(), STYLE_NAME as nat),
{
    lemma_kind_style_name();
}

/// The kind of `Style` refers only to what the model has.
proof fn lemma_valid_style()
    ensures
        model().kinds[STYLE as int].valid(model(), STYLE as nat),
{
    lemma_kind_style();
    lemma_kind_based_on();
    lemma_kind_style_name();
    lemma_kind_paragraph_property();
    lemma_kind_character_property();
}

/// The kind of `Styles` refers only to what the model has.
proof fn lemma_valid_styles()
    ensures
        model().kinds[STYLES as int].valid(model(), STYLES as nat),
{
    lemma_kind_styles();
    lemma_kind_default_style();
    lemma_kind_style();
}

/// The kind of `LevelText` refers only to what the model has.
proof fn lemma_valid_level_text()
    ensures
        model().kinds[LEVEL_TEXT as int].valid(model(), LEVEL_TEXT as nat),
{
    lemma_kind_level_text();
}

/// The kind of `NumberingFormat` refers only to what the model has.
proof fn lemma_valid_numbering_format()
    ensures
        model().kinds[NUMBERING_FORMAT as int].valid(model(), NUMBERING_FORMAT as nat),
{
    lemma_kind_numbering_format();
}

/// The kind of `Start` refers only to what the model has.
proof fn lemma_valid_start()
    ensures
        model().kinds[START as int].valid(model(), START as nat),
{
    lemma_kind_start();
}

/// The kind of `Level` refers only to what the model has.
proof fn lemma_valid_level()
    ensures
        model().kinds[LEVEL as int].valid(model(), LEVEL as nat),
{
    lemma_kind_level();
    lemma_kind_level_text();
    lemma_kind_numbering_format();
    lemma_kind_start();
}

/// The kind of `AbstractNumberingId` refers only to what the model has.
proof fn lemma_valid_abstract_numbering_id()
    ensures
        model().kinds[ABSTRACT_NUMBERING_ID as int].valid(model(), ABSTRACT_NUMBERING_ID as nat),
{
    lemma_kind_abstract_numbering_id();
}

/// The kind of `NumStyleLink` refers only to what the model has.
proof fn lemma_valid_num_style_link()
    ensures
        model().kinds[NUM_STYLE_LINK as int].valid(model(), NUM_STYLE_LINK as nat),
{
    lemma_kind_num_style_link();
}

/// The kind of `AbstractNumbering` refers only to what the model has.
proof fn lemma_valid_abstract_numbering()
    ensures
        model().kinds[ABSTRACT_NUMBERING as int].valid(model(), ABSTRACT_NUMBERING as nat),
{
    lemma_kind_abstract_numbering();
    lemma_kind_level();
    lemma_kind_num_style_link();
}

/// The kind of `Numbering` refers only to what the model has.
proof fn lemma_valid_numbering()
    ensures
        model().kinds[NUMBERING as int].valid(model(), NUMBERING as nat),
{
    lemma_kind_numbering();
    lemma_kind_abstract_numbering_id();
}

/// The kind of `Numberings` refers only to what the model has.
proof fn lemma_valid_numberings()
    ensures
        model().kinds[NUMBERINGS as int].valid(model(), NUMBERINGS as nat),
{
    lemma_kind_numberings();
    lemma_kind_abstract_numbering();
    lemma_kind_numbering();
}

/// The kind of `Comment` refers only to what the model has.
proof fn lemma_valid_comment()
    ensures
        model().kinds[COMMENT as int].valid(model(), COMMENT as nat),
{
    lemma_kind_comment();
    lemma_kind_paragraph();
}

/// The kind of `Comments` refers only to what the model has.
proof fn lemma_valid_comments()
    ensures
        model().kinds[COMMENTS as int].valid(model(), COMMENTS as nat),
{
    lemma_kind_comments();
    lemma_kind_comment();
}

/// The kind of `Family` refers only to what the model has.
proof fn lemma_valid_family()
    ensures
        model().kinds[FAMILY as int].valid(model(), FAMILY as nat),
{
    lemma_kind_family();
}

/// The kind of `Pitch` refers only to what the model has.
proof fn lemma_valid_pitch()
    ensures
        model().kinds[PITCH as int].valid(model(), PITCH as nat),
{
    lemma_kind_pitch();
}

/// The kind of `Font` refers only to what the model has.
proof fn lemma_valid_font()
    ensures
        model().kinds[FONT as int].valid(model(), FONT as nat),
{
    lemma_kind_font();
    lemma_kind_family();
    lemma_kind_pitch();
}

/// The kind of `FontTable` refers only to what the model has.
proof fn lemma_valid_font_table()
    ensures
        model().kinds[FONT_TABLE as int].valid(model(), FONT_TABLE as nat),
{
    lemma_kind_font_table();
    lemma_kind_font();
}

/// The model can be read back from what it writes.
pub proof fn lemma_model_well_formed()
    ensures
        model().well_formed(),
{
    lemma_model_valid();
    let m = model();
    assert forall|k: int| 0 <= k < m.kinds.len() implies (#[trigger] m.kinds[k]).distinct() by {
        lemma_kind_well_formed(k);
    }
    assert forall|k: int, i: int, j: int|
        0 <= k < m.kinds.len() && 0 <= i < m.kinds[k].slots.len() && 0 <= j
            < m.kinds[k].slots[i].alternatives.len() implies m.kinds[(
    #[trigger] m.kinds[k].slots[i].alternatives[j]).kind as int].tag
        == m.kinds[k].slots[i].alternatives[j].tag by {
        lemma_kind_well_formed(k);
    }
    assert forall|t: int| 0 <= t < m.symbols.len() implies (#[trigger] m.symbols[t]).len() <= usize::MAX by {
        lemma_table_distinct(t);
    }
    assert forall|t: int, a: int, b: int|
        0 <= t < m.symbols.len() && 0 <= a < b < m.symbols[t].len() implies #[trigger] m.symbols[t][a]
        != #[trigger] m.symbols[t][b] by {
        lemma_table_distinct(t);
    }
}

/// In the kind with the index `k` no name and no tag stands twice, and
/// every alternative has the tag of its kind.
proof fn lemma_kind_well_formed(k: int)
    requires
        0 <= k < KINDS,
    ensures
        model().kinds[k].distinct(),
        forall|i: int, j: int|
            0 <= i < model().kinds[k].slots.len() && 0 <= j < model().kinds[k].slots[i].alternatives.len()
                ==> model().kinds[(#[trigger] model().kinds[k].slots[i].alternatives[j]).kind as int].tag
                == model().kinds[k].slots[i].alternatives[j].tag,
{
    if k == TOP_BORDER {
        lemma_well_formed_top_border();
    } else if k == BOTTOM_BORDER {
        lemma_well_formed_bottom_border();
    } else if k == LEFT_BORDER {
        lemma_well_formed_left_border();
    } else if k == RIGHT_BORDER {
        lemma_well_formed_right_border();
    } else if k == BORDERS {
        lemma_well_formed_borders();
    } else if k == BOLD {
        lemma_well_formed_bold();
    } else if k == ITALICS {
        lemma_well_formed_italics();
    } else if k == JUSTIFICATION {
        lemma_well_formed_justification();
    } else if k == TABLE_JUSTIFICATION {
        lemma_well_formed_table_justification();
    } else if k == NUMBERING_ID {
        lemma_well_formed_numbering_id();
    } else if k == INDENT_LEVEL {
        lemma_well_formed_indent_level();
    } else if k == NUMBERING_PROPERTY {
        lemma_well_formed_numbering_property();
    } else if k == OUTLINE_LEVEL {
        lemma_well_formed_outline_level();
    } else if k == SECTION_PROPERTY {
        lemma_well_formed_section_property();
    } else if k == PARAGRAPH_STYLE_ID {
        lemma_well_formed_paragraph_style_id();
    } else if k == PARAGRAPH_PROPERTY {
        lemma_well_formed_paragraph_property();
    } else if k == CHARACTER_STYLE_ID {
        lemma_well_formed_character_style_id();
    } else if k == CHARACTER_PROPERTY {
        lemma_well_formed_character_property();
    } else if k == TABLE_BORDERS {
        lemma_well_formed_table_borders();
    } else if k == TABLE_CELL_PROPERTY {
        lemma_well_formed_table_cell_property();
    } else if k == TABLE_INDENT {
        lemma_well_formed_table_indent();
    } else if k == TABLE_WIDTH {
        lemma_well_formed_table_width();
    } else if k == TABLE_STYLE_ID {
        lemma_well_formed_table_style_id();
    } else if k == TABLE_PROPERTY {
        lemma_well_formed_table_property();
    } else if k == TEXT {
        lemma_well_formed_text();
    } else if k == BREAK {
        lemma_well_formed_break();
    } else if k == TAB {
        lemma_well_formed_tab();
    } else if k == DRAWING {
        lemma_well_formed_drawing();
    } else if k == RUN {
        lemma_well_formed_run();
    } else if k == BOOKMARK_START {
        lemma_well_formed_bookmark_start();
    } else if k == BOOKMARK_END {
        lemma_well_formed_bookmark_end();
    } else if k == COMMENT_RANGE_START {
        lemma_well_formed_comment_range_start();
    } else if k == COMMENT_RANGE_END {
        lemma_well_formed_comment_range_end();
    } else if k == HYPERLINK {
        lemma_well_formed_hyperlink();
    } else if k == PARAGRAPH {
        lemma_well_formed_paragraph();
    } else if k == SMART_TAG {
        lemma_well_formed_smart_tag();
    } else if k == GRID_COLUMN {
        lemma_well_formed_grid_column();
    } else if k == TABLE_GRID {
        lemma_well_formed_table_grid();
    } else if k == TABLE_CELL {
        lemma_well_formed_table_cell();
    } else if k == TABLE_ROW {
        lemma_well_formed_table_row();
    } else if k == TABLE {
        lemma_well_formed_table();
    } else if k == BODY {
        lemma_well_formed_body();
    } else if k == DOCUMENT {
        lemma_well_formed_document();
    } else if k == DEFAULT_CHARACTER_STYLE {
        lemma_well_formed_default_character_style();
    } else if k == DEFAULT_PARAGRAPH_STYLE {
        lemma_well_formed_default_paragraph_style();
    } else if k == DEFAULT_STYLE {
        lemma_well_formed_default_style();
    } else if k == BASED_ON {
        lemma_well_formed_based_on();
    } else if k == STYLE_NAME {
        lemma_well_formed_style_name();
    } else if k == STYLE {
        lemma_well_formed_style();
    } else if k == STYLES {
        lemma_well_formed_styles();
    } else if k == LEVEL_TEXT {
        lemma_well_formed_level_text();
    } else if k == NUMBERING_FORMAT {
        lemma_well_formed_numbering_format();
    } else if k == START {
        lemma_well_formed_start();
    } else if k == LEVEL {
        lemma_well_formed_level();
    } else if k == ABSTRACT_NUMBERING_ID {
        lemma_well_formed_abstract_numbering_id();
    } else if k == NUM_STYLE_LINK {
        lemma_well_formed_num_style_link();
    } else if k == ABSTRACT_NUMBERING {
        lemma_well_formed_abstract_numbering();
    } else if k == NUMBERING {
        lemma_well_formed_numbering();
    } else if k == NUMBERINGS {
        lemma_well_formed_numberings();
    } else if k == COMMENT {
        lemma_well_formed_comment();
    } else if k == COMMENTS {
        lemma_well_formed_comments();
    } else if k == FAMILY {
        lemma_well_formed_family();
    } else if k == PITCH {
        lemma_well_formed_pitch();
    } else if k == FONT {
        lemma_well_formed_font();
    } else {
        lemma_well_formed_font_table();
    }
}

/// In the kind of `TopBorder` no name and no tag stands twice, and every
/// alternative has the tag of its kind.
proof fn lemma_well_formed_top_border()
    ensures
        model().kinds[TOP_BORDER as int].distinct(),
        forall|i: int, j: int|
            0 <= i < model().kinds[TOP_BORDER as int].slots.len() && 0 <= j
                < model().kinds[TOP_BORDER as int].slots[i].alternatives.len() ==> model().kinds[(
            #[trigger] model().kinds[TOP_BORDER as int].slots[i].alternatives[j]).kind as int].tag
                == model().kinds[TOP_BORDER as int].slots[i].alternatives[j].tag,
{
    lemma_kind_top_border();
    TopBorder::lemma_descriptor_distinct();
}

/// In the kind of `BottomBorder` no name and no tag stands twice, and every
/// alternative has the tag of its kind.
proof fn lemma_well_formed_bottom_border()
    ensures
        model().kinds[BOTTOM_BORDER as int].distinct(),
        forall|i: int, j: int|
            0 <= i < model().kinds[BOTTOM_BORDER as int].slots.len() && 0 <= j
                < model().kinds[BOTTOM_BORDER as int].slots[i].alternatives.len() ==> model().kinds[(
            #[trigger] model().kinds[BOTTOM_BORDER as int].slots[i].alternatives[j]).kind as int].tag
                == model().kinds[BOTTOM_BORDER as int].slots[i].alternatives[j].tag,
{
    lemma_kind_bottom_border();
    BottomBorder::lemma_descriptor_distinct();
}

/// In the kind of `LeftBorder` no name and no tag stands twice, and every
/// alternative has the tag of its kind.
proof fn lemma_well_formed_left_border()
    ensures
        model().kinds[LEFT_BORDER as int].distinct(),
        forall|i: int, j: int|
            0 <= i < model().kinds[LEFT_BORDER as int].slots.len() && 0 <= j
                < model().kinds[LEFT_BORDER as int].slots[i].alternatives.len() ==> model().kinds[(
            #[trigger] model().kinds[LEFT_BORDER as int].slots[i].alternatives[j]).kind as int].tag
                == model().kinds[LEFT_BORDER as int].slots[i].alternatives[j].tag,
{
    lemma_kind_left_border();
    LeftBorder::lemma_descriptor_distinct();
}

/// In the kind of `RightBorder` no name and no tag stands twice, and every
/// alternative has the tag of its kind.
proof fn lemma_well_formed_right_border()
    ensures
        model().kinds[RIGHT_BORDER as int].distinct(),
        forall|i: int, j: int|
            0 <= i < model().kinds[RIGHT_BORDER as int].slots.len() && 0 <= j
                < model().kinds[RIGHT_BORDER as int].slots[i].alternatives.len() ==> model().kinds[(
            #[trigger] model().kinds[RIGHT_BORDER as int].slots[i].alternatives[j]).kind as int].tag
                == model().kinds[RIGHT_BORDER as int].slots[i].alternatives[j].tag,
{
    lemma_kind_right_border();
    RightBorder::lemma_descriptor_distinct();
}

/// In the kind of `Borders` no name and no tag stands twice, and every
/// alternative has the tag of its kind.
proof fn lemma_well_formed_borders()
    ensures
        model().kinds[BORDERS as int].distinct(),
        forall|i: int, j: int|
            0 <= i < model().kinds[BORDERS as int].slots.len() && 0 <= j
                < model().kinds[BORDERS as int].slots[i].alternatives.len() ==> model().kinds[(
            #[trigger] model().kinds[BORDERS as int].slots[i].alternatives[j]).kind as int].tag
                == model().kinds[BORDERS as int].slots[i].alternatives[j].tag,
{
    lemma_kind_borders();
    Borders::lemma_descriptor_distinct();
    lemma_kind_top_border();
    lemma_kind_bottom_border();
    lemma_kind_left_border();
    lemma_kind_right_border();
}

/// In the kind of `Bold` no name and no tag stands twice, and every
/// alternative has the tag of its kind.
proof fn lemma_well_formed_bold()
    ensures
        model().kinds[BOLD as int].distinct(),
        forall|i: int, j: int|
            0 <= i < model().kinds[BOLD as int].slots.len() && 0 <= j
                < model().kinds[BOLD as int].slots[i].alternatives.len() ==> model().kinds[(
            #[trigger] model().kinds[BOLD as int].slots[i].alternatives[j]).kind as int].tag
                == model().kinds[BOLD as int].slots[i].alternatives[j].tag,
{
    lemma_kind_bold();
    Bold::lemma_descriptor_distinct();
}

/// In the kind of `Italics` no name and no tag stands twice, and every
/// alternative has the tag of its kind.
proof fn lemma_well_formed_italics()
    ensures
        model().kinds[ITALICS as int].distinct(),
        forall|i: int, j: int|
            0 <= i < model().kinds[ITALICS as int].slots.len() && 0 <= j
                < model().kinds[ITALICS as int].slots[i].alternatives.len() ==> model().kinds[(
            #[trigger] model().kinds[ITALICS as int].slots[i].alternatives[j]).kind as int].tag
                == model().kinds[ITALICS as int].slots[i].alternatives[j].tag,
{
    lemma_kind_italics();
    Italics::lemma_descriptor_distinct();
}

/// In the kind of `Justification` no name and no tag stands twice, and every
/// alternative has the tag of its kind.
proof fn lemma_well_formed_justification()
    ensures
        model().kinds[JUSTIFICATION as int].distinct(),
        forall|i: int, j: int|
            0 <= i < model().kinds[JUSTIFICATION as int].slots.len() && 0 <= j
                < model().kinds[JUSTIFICATION as int].slots[i].alternatives.len() ==> model().kinds[(
            #[trigger] model().kinds[JUSTIFICATION as int].slots[i].alternatives[j]).kind as int].tag
                == model().kinds[JUSTIFICATION as int].slots[i].alternatives[j].tag,
{
    lemma_kind_justification();
    Justification::lemma_descriptor_distinct();
}

/// In the kind of `TableJustification` no name and no tag stands twice, and every
/// alternative has the tag of its kind.
proof fn lemma_well_formed_table_justification()
    ensures
        model().kinds[TABLE_JUSTIFICATION as int].distinct(),
        forall|i: int, j: int|
            0 <= i < model().kinds[TABLE_JUSTIFICATION as int].slots.len() && 0 <= j
                < model().kinds[TABLE_JUSTIFICATION as int].slots[i].alternatives.len() ==> model().kinds[(
            #[trigger] model().kinds[TABLE_JUSTIFICATION as int].slots[i].alternatives[j]).kind as int].tag
                == model().kinds[TABLE_JUSTIFICATION as int].slots[i].alternatives[j].tag,
{
    lemma_kind_table_justification();
    TableJustification::lemma_descriptor_distinct();
}

/// In the kind of `NumberingId` no name and no tag stands twice, and every
/// alternative has the tag of its kind.
proof fn lemma_well_formed_numbering_id()
    ensures
        model().kinds[NUMBERING_ID as int].distinct(),
        forall|i: int, j: int|
            0 <= i < model().kinds[NUMBERING_ID as int].slots.len() && 0 <= j
                < model().kinds[NUMBERING_ID as int].slots[i].alternatives.len() ==> model().kinds[(
            #[trigger] model().kinds[NUMBERING_ID as int].slots[i].alternatives[j]).kind as int].tag
                == model().kinds[NUMBERING_ID as int].slots[i].alternatives[j].tag,
{
    lemma_kind_numbering_id();
    NumberingId::lemma_descriptor_distinct();
}

/// In the kind of `IndentLevel` no name and no tag stands twice, and every
/// alternative has the tag of its kind.
proof fn lemma_well_formed_indent_level()
    ensures
        model().kinds[INDENT_LEVEL as int].distinct(),
        forall|i: int, j: int|
            0 <= i < model().kinds[INDENT_LEVEL as int].slots.len() && 0 <= j
                < model().kinds[INDENT_LEVEL as int].slots[i].alternatives.len() ==> model().kinds[(
            #[trigger] model().kinds[INDENT_LEVEL as int].slots[i].alternatives[j]).kind as int].tag
                == model().kinds[INDENT_LEVEL as int].slots[i].alternatives[j].tag,
{
    lemma_kind_indent_level();
    IndentLevel::lemma_descriptor_distinct();
}

/// In the kind of `NumberingProperty` no name and no tag stands twice, and every
/// alternative has the tag of its kind.
proof fn lemma_well_formed_numbering_property()
    ensures
        model().kinds[NUMBERING_PROPERTY as int].distinct(),
        forall|i: int, j: int|
            0 <= i < model().kinds[NUMBERING_PROPERTY as int].slots.len() && 0 <= j
                < model().kinds[NUMBERING_PROPERTY as int].slots[i].alternatives.len() ==> model().kinds[(
            #[trigger] model().kinds[NUMBERING_PROPERTY as int].slots[i].alternatives[j]).kind as int].tag
                == model().kinds[NUMBERING_PROPERTY as int].slots[i].alternatives[j].tag,
{
    lemma_kind_numbering_property();
    NumberingProperty::lemma_descriptor_distinct();
    lemma_kind_numbering_id();
    lemma_kind_indent_level();
}

/// In the kind of `OutlineLevel` no name and no tag stands twice, and every
/// alternative has the tag of its kind.
proof fn lemma_well_formed_outline_level()
    ensures
        model().kinds[OUTLINE_LEVEL as int].distinct(),
        forall|i: int, j: int|
            0 <= i < model().kinds[OUTLINE_LEVEL as int].slots.len() && 0 <= j
                < model().kinds[OUTLINE_LEVEL as int].slots[i].alternatives.len() ==> model().kinds[(
            #[trigger] model().kinds[OUTLINE_LEVEL as int].slots[i].alternatives[j]).kind as int].tag
                == model().kinds[OUTLINE_LEVEL as int].slots[i].alternatives[j].tag,
{
    lemma_kind_outline_level();
    OutlineLevel::lemma_descriptor_distinct();
}

/// In the kind of `SectionProperty` no name and no tag stands twice, and every
/// alternative has the tag of its kind.
proof fn lemma_well_formed_section_property()
    ensures
        model().kinds[SECTION_PROPERTY as int].distinct(),
        forall|i: int, j: int|
            0 <= i < model().kinds[SECTION_PROPERTY as int].slots.len() && 0 <= j
                < model().kinds[SECTION_PROPERTY as int].slots[i].alternatives.len() ==> model().kinds[(
            #[trigger] model().kinds[SECTION_PROPERTY as int].slots[i].alternatives[j]).kind as int].tag
                == model().kinds[SECTION_PROPERTY as int].slots[i].alternatives[j].tag,
{
    lemma_kind_section_property();
    SectionProperty::lemma_descriptor_distinct();
}

/// In the kind of `ParagraphStyleId` no name and no tag stands twice, and every
/// alternative has the tag of its kind.
proof fn lemma_well_formed_paragraph_style_id()
    ensures
        model().kinds[PARAGRAPH_STYLE_ID as int].distinct(),
        forall|i: int, j: int|
            0 <= i < model().kinds[PARAGRAPH_STYLE_ID as int].slots.len() && 0 <= j
                < model().kinds[PARAGRAPH_STYLE_ID as int].slots[i].alternatives.len() ==> model().kinds[(
            #[trigger] model().kinds[PARAGRAPH_STYLE_ID as int].slots[i].alternatives[j]).kind as int].tag
                == model().kinds[PARAGRAPH_STYLE_ID as int].slots[i].alternatives[j].tag,
{
    lemma_kind_paragraph_style_id();
    ParagraphStyleId::lemma_descriptor_distinct();
}

/// In the kind of `ParagraphProperty` no name and no tag stands twice, and every
/// alternative has the tag of its kind.
proof fn lemma_well_formed_paragraph_property()
    ensures
        model().kinds[PARAGRAPH_PROPERTY as int].distinct(),
        forall|i: int, j: int|
            0 <= i < model().kinds[PARAGRAPH_PROPERTY as int].slots.len() && 0 <= j
                < model().kinds[PARAGRAPH_PROPERTY as int].slots[i].alternatives.len() ==> model().kinds[(
            #[trigger] model().kinds[PARAGRAPH_PROPERTY as int].slots[i].alternatives[j]).kind as int].tag
                == model().kinds[PARAGRAPH_PROPERTY as int].slots[i].alternatives[j].tag,
{
    lemma_kind_paragraph_property();
    ParagraphProperty::lemma_descriptor_distinct();
    lemma_kind_paragraph_style_id();
    lemma_kind_justification();
    lemma_kind_borders();
    lemma_kind_numbering_property();
    lemma_kind_outline_level();
    lemma_kind_section_property();
}

/// In the kind of `CharacterStyleId` no name and no tag stands twice, and every
/// alternative has the tag of its kind.
proof fn lemma_well_formed_character_style_id()
    ensures
        model().kinds[CHARACTER_STYLE_ID as int].distinct(),
        forall|i: int, j: int|
            0 <= i < model().kinds[CHARACTER_STYLE_ID as int].slots.len() && 0 <= j
                < model().kinds[CHARACTER_STYLE_ID as int].slots[i].alternatives.len() ==> model().kinds[(
            #[trigger] model().kinds[CHARACTER_STYLE_ID as int].slots[i].alternatives[j]).kind as int].tag
                == model().kinds[CHARACTER_STYLE_ID as int].slots[i].alternatives[j].tag,
{
    lemma_kind_character_style_id();
    CharacterStyleId::lemma_descriptor_distinct();
}

/// In the kind of `CharacterProperty` no name and no tag stands twice, and every
/// alternative has the tag of its kind.
proof fn lemma_well_formed_character_property()
    ensures
        model().kinds[CHARACTER_PROPERTY as int].distinct(),
        forall|i: int, j: int|
            0 <= i < model().kinds[CHARACTER_PROPERTY as int].slots.len() && 0 <= j
                < model().kinds[CHARACTER_PROPERTY as int].slots[i].alternatives.len() ==> model().kinds[(
            #[trigger] model().kinds[CHARACTER_PROPERTY as int].slots[i].alternatives[j]).kind as int].tag
                == model().kinds[CHARACTER_PROPERTY as int].slots[i].alternatives[j].tag,
{
    lemma_kind_character_property();
    CharacterProperty::lemma_descriptor_distinct();
    lemma_kind_character_style_id();
    lemma_kind_bold();
    lemma_kind_italics();
}

/// In the kind of `TableBorders` no name and no tag stands twice, and every
/// alternative has the tag of its kind.
proof fn lemma_well_formed_table_borders()
    ensures
        model().kinds[TABLE_BORDERS as int].distinct(),
        forall|i: int, j: int|
            0 <= i < model().kinds[TABLE_BORDERS as int].slots.len() && 0 <= j
                < model().kinds[TABLE_BORDERS as int].slots[i].alternatives.len() ==> model().kinds[(
            #[trigger] model().kinds[TABLE_BORDERS as int].slots[i].alternatives[j]).kind as int].tag
                == model().kinds[TABLE_BORDERS as int].slots[i].alternatives[j].tag,
{
    lemma_kind_table_borders();
    TableBorders::lemma_descriptor_distinct();
    lemma_kind_top_border();
    lemma_kind_bottom_border();
}

/// In the kind of `TableCellProperty` no name and no tag stands twice, and every
/// alternative has the tag of its kind.
proof fn lemma_well_formed_table_cell_property()
    ensures
        model().kinds[TABLE_CELL_PROPERTY as int].distinct(),
        forall|i: int, j: int|
            0 <= i < model().kinds[TABLE_CELL_PROPERTY as int].slots.len() && 0 <= j
                < model().kinds[TABLE_CELL_PROPERTY as int].slots[i].alternatives.len() ==> model().kinds[(
            #[trigger] model().kinds[TABLE_CELL_PROPERTY as int].slots[i].alternatives[j]).kind as int].tag
                == model().kinds[TABLE_CELL_PROPERTY as int].slots[i].alternatives[j].tag,
{
    lemma_kind_table_cell_property();
    TableCellProperty::lemma_descriptor_distinct();
}

/// In the kind of `TableIndent` no name and no tag stands twice, and every
/// alternative has the tag of its kind.
proof fn lemma_well_formed_table_indent()
    ensures
        model().kinds[TABLE_INDENT as int].distinct(),
        forall|i: int, j: int|
            0 <= i < model().kinds[TABLE_INDENT as int].slots.len() && 0 <= j
                < model().kinds[TABLE_INDENT as int].slots[i].alternatives.len() ==> model().kinds[(
            #[trigger] model().kinds[TABLE_INDENT as int].slots[i].alternatives[j]).kind as int].tag
                == model().kinds[TABLE_INDENT as int].slots[i].alternatives[j].tag,
{
    lemma_kind_table_indent();
    TableIndent::lemma_descriptor_distinct();
}

/// In the kind of `TableWidth` no name and no tag stands twice, and every
/// alternative has the tag of its kind.
proof fn lemma_well_formed_table_width()
    ensures
        model().kinds[TABLE_WIDTH as int].distinct(),
        forall|i: int, j: int|
            0 <= i < model().kinds[TABLE_WIDTH as int].slots.len() && 0 <= j
                < model().kinds[TABLE_WIDTH as int].slots[i].alternatives.len() ==> model().kinds[(
            #[trigger] model().kinds[TABLE_WIDTH as int].slots[i].alternatives[j]).kind as int].tag
                == model().kinds[TABLE_WIDTH as int].slots[i].alternatives[j].tag,
{
    lemma_kind_table_width();
    TableWidth::lemma_descriptor_distinct();
}

/// In the kind of `TableStyleId` no name and no tag stands twice, and every
/// alternative has the tag of its kind.
proof fn lemma_well_formed_table_style_id()
    ensures
        model().kinds[TABLE_STYLE_ID as int].distinct(),
        forall|i: int, j: int|
            0 <= i < model().kinds[TABLE_STYLE_ID as int].slots.len() && 0 <= j
                < model().kinds[TABLE_STYLE_ID as int].slots[i].alternatives.len() ==> model().kinds[(
            #[trigger] model().kinds[TABLE_STYLE_ID as int].slots[i].alternatives[j]).kind as int].tag
                == model().kinds[TABLE_STYLE_ID as int].slots[i].alternatives[j].tag,
{
    lemma_kind_table_style_id();
    TableStyleId::lemma_descriptor_distinct();
}

/// In the kind of `TableProperty` no name and no tag stands twice, and every
/// alternative has the tag of its kind.
proof fn lemma_well_formed_table_property()
    ensures
        model().kinds[TABLE_PROPERTY as int].distinct(),
        forall|i: int, j: int|
            0 <= i < model().kinds[TABLE_PROPERTY as int].slots.len() && 0 <= j
                < model().kinds[TABLE_PROPERTY as int].slots[i].alternatives.len() ==> model().kinds[(
            #[trigger] model().kinds[TABLE_PROPERTY as int].slots[i].alternatives[j]).kind as int].tag
                == model().kinds[TABLE_PROPERTY as int].slots[i].alternatives[j].tag,
{
    lemma_kind_table_property();
    TableProperty::lemma_descriptor_distinct();
    lemma_kind_table_style_id();
    lemma_kind_table_justification();
    lemma_kind_table_borders();
    lemma_kind_table_indent();
    lemma_kind_table_width();
}

/// In the kind of `Text` no name and no tag stands twice, and every
/// alternative has the tag of its kind.
proof fn lemma_well_formed_text()
    ensures
        model().kinds[TEXT as int].distinct(),
        forall|i: int, j: int|
            0 <= i < model().kinds[TEXT as int].slots.len() && 0 <= j
                < model().kinds[TEXT as int].slots[i].alternatives.len() ==> model().kinds[(
            #[trigger] model().kinds[TEXT as int].slots[i].alternatives[j]).kind as int].tag
                == model().kinds[TEXT as int].slots[i].alternatives[j].tag,
{
    lemma_kind_text();
    Text::lemma_descriptor_distinct();
}

/// In the kind of `Break` no name and no tag stands twice, and every
/// alternative has the tag of its kind.
proof fn lemma_well_formed_break()
    ensures
        model().kinds[BREAK as int].distinct(),
        forall|i: int, j: int|
            0 <= i < model().kinds[BREAK as int].slots.len() && 0 <= j
                < model().kinds[BREAK as int].slots[i].alternatives.len() ==> model().kinds[(
            #[trigger] model().kinds[BREAK as int].slots[i].alternatives[j]).kind as int].tag
                == model().kinds[BREAK as int].slots[i].alternatives[j].tag,
{
    lemma_kind_break();
    Break::lemma_descriptor_distinct();
}

/// In the kind of `Tab` no name and no tag stands twice, and every
/// alternative has the tag of its kind.
proof fn lemma_well_formed_tab()
    ensures
        model().kinds[TAB as int].distinct(),
        forall|i: int, j: int|
            0 <= i < model().kinds[TAB as int].slots.len() && 0 <= j
                < model().kinds[TAB as int].slots[i].alternatives.len() ==> model().kinds[(
            #[trigger] model().kinds[TAB as int].slots[i].alternatives[j]).kind as int].tag
                == model().kinds[TAB as int].slots[i].alternatives[j].tag,
{
    lemma_kind_tab();
    Tab::lemma_descriptor_distinct();
}

/// In the kind of `Drawing` no name and no tag stands twice, and every
/// alternative has the tag of its kind.
proof fn lemma_well_formed_drawing()
    ensures
        model().kinds[DRAWING as int].distinct(),
        forall|i: int, j: int|
            0 <= i < model().kinds[DRAWING as int].slots.len() && 0 <= j
                < model().kinds[DRAWING as int].slots[i].alternatives.len() ==> model().kinds[(
            #[trigger] model().kinds[DRAWING as int].slots[i].alternatives[j]).kind as int].tag
                == model().kinds[DRAWING as int].slots[i].alternatives[j].tag,
{
    lemma_kind_drawing();
    Drawing::lemma_descriptor_distinct();
}

/// In the kind of `Run` no name and no tag stands twice, and every
/// alternative has the tag of its kind.
proof fn lemma_well_formed_run()
    ensures
        model().kinds[RUN as int].distinct(),
        forall|i: int, j: int|
            0 <= i < model().kinds[RUN as int].slots.len() && 0 <= j
                < model().kinds[RUN as int].slots[i].alternatives.len() ==> model().kinds[(
            #[trigger] model().kinds[RUN as int].slots[i].alternatives[j]).kind as int].tag
                == model().kinds[RUN as int].slots[i].alternatives[j].tag,
{
    lemma_kind_run();
    Run::lemma_descriptor_distinct();
    lemma_kind_character_property();
    lemma_kind_text();
    lemma_kind_break();
    lemma_kind_tab();
    lemma_kind_drawing();
}

/// In the kind of `BookmarkStart` no name and no tag stands twice, and every
/// alternative has the tag of its kind.
proof fn lemma_well_formed_bookmark_start()
    ensures
        model().kinds[BOOKMARK_START as int].distinct(),
        forall|i: int, j: int|
            0 <= i < model().kinds[BOOKMARK_START as int].slots.len() && 0 <= j
                < model().kinds[BOOKMARK_START as int].slots[i].alternatives.len() ==> model().kinds[(
            #[trigger] model().kinds[BOOKMARK_START as int].slots[i].alternatives[j]).kind as int].tag
                == model().kinds[BOOKMARK_START as int].slots[i].alternatives[j].tag,
{
    lemma_kind_bookmark_start();
    BookmarkStart::lemma_descriptor_distinct();
}

/// In the kind of `BookmarkEnd` no name and no tag stands twice, and every
/// alternative has the tag of its kind.
proof fn lemma_well_formed_bookmark_end()
    ensures
        model().kinds[BOOKMARK_END as int].distinct(),
        forall|i: int, j: int|
            0 <= i < model().kinds[BOOKMARK_END as int].slots.len() && 0 <= j
                < model().kinds[BOOKMARK_END as int].slots[i].alternatives.len() ==> model().kinds[(
            #[trigger] model().kinds[BOOKMARK_END as int].slots[i].alternatives[j]).kind as int].tag
                == model().kinds[BOOKMARK_END as int].slots[i].alternatives[j].tag,
{
    lemma_kind_bookmark_end();
    BookmarkEnd::lemma_descriptor_distinct();
}

/// In the kind of `CommentRangeStart` no name and no tag stands twice, and every
/// alternative has the tag of its kind.
proof fn lemma_well_formed_comment_range_start()
    ensures
        model().kinds[COMMENT_RANGE_START as int].distinct(),
        forall|i: int, j: int|
            0 <= i < model().kinds[COMMENT_RANGE_START as int].slots.len() && 0 <= j
                < model().kinds[COMMENT_RANGE_START as int].slots[i].alternatives.len() ==> model().kinds[(
            #[trigger] model().kinds[COMMENT_RANGE_START as int].slots[i].alternatives[j]).kind as int].tag
                == model().kinds[COMMENT_RANGE_START as int].slots[i].alternatives[j].tag,
{
    lemma_kind_comment_range_start();
    CommentRangeStart::lemma_descriptor_distinct();
}

/// In the kind of `CommentRangeEnd` no name and no tag stands twice, and every
/// alternative has the tag of its kind.
proof fn lemma_well_formed_comment_range_end()
    ensures
        model().kinds[COMMENT_RANGE_END as int].distinct(),
        forall|i: int, j: int|
            0 <= i < model().kinds[COMMENT_RANGE_END as int].slots.len() && 0 <= j
                < model().kinds[COMMENT_RANGE_END as int].slots[i].alternatives.len() ==> model().kinds[(
            #[trigger] model().kinds[COMMENT_RANGE_END as int].slots[i].alternatives[j]).kind as int].tag
                == model().kinds[COMMENT_RANGE_END as int].slots[i].alternatives[j].tag,
{
    lemma_kind_comment_range_end();
    CommentRangeEnd::lemma_descriptor_distinct();
}

/// In the kind of `Hyperlink` no name and no tag stands twice, and every
/// alternative has the tag of its kind.
proof fn lemma_well_formed_hyperlink()
    ensures
        model().kinds[HYPERLINK as int].distinct(),
        forall|i: int, j: int|
            0 <= i < model().kinds[HYPERLINK as int].slots.len() && 0 <= j
                < model().kinds[HYPERLINK as int].slots[i].alternatives.len() ==> model().kinds[(
            #[trigger] model().kinds[HYPERLINK as int].slots[i].alternatives[j]).kind as int].tag
                == model().kinds[HYPERLINK as int].slots[i].alternatives[j].tag,
{
    lemma_kind_hyperlink();
    Hyperlink::lemma_descriptor_distinct();
    lemma_kind_run();
}

/// In the kind of `Paragraph` no name and no tag stands twice, and every
/// alternative has the tag of its kind.
proof fn lemma_well_formed_paragraph()
    ensures
        model().kinds[PARAGRAPH as int].distinct(),
        forall|i: int, j: int|
            0 <= i < model().kinds[PARAGRAPH as int].slots.len() && 0 <= j
                < model().kinds[PARAGRAPH as int].slots[i].alternatives.len() ==> model().kinds[(
            #[trigger] model().kinds[PARAGRAPH as int].slots[i].alternatives[j]).kind as int].tag
                == model().kinds[PARAGRAPH as int].slots[i].alternatives[j].tag,
{
    lemma_kind_paragraph();
    Paragraph::lemma_descriptor_distinct();
    lemma_kind_paragraph_property();
    lemma_kind_comment_range_start();
    lemma_kind_comment_range_end();
    lemma_kind_run();
    lemma_kind_hyperlink();
    lemma_kind_bookmark_start();
    lemma_kind_bookmark_end();
}

/// In the kind of `SmartTag` no name and no tag stands twice, and every
/// alternative has the tag of its kind.
proof fn lemma_well_formed_smart_tag()
    ensures
        model().kinds[SMART_TAG as int].distinct(),
        forall|i: int, j: int|
            0 <= i < model().kinds[SMART_TAG as int].slots.len() && 0 <= j
                < model().kinds[SMART_TAG as int].slots[i].alternatives.len() ==> model().kinds[(
            #[trigger] model().kinds[SMART_TAG as int].slots[i].alternatives[j]).kind as int].tag
                == model().kinds[SMART_TAG as int].slots[i].alternatives[j].tag,
{
    lemma_kind_smart_tag();
    SmartTag::lemma_descriptor_distinct();
    lemma_kind_comment_range_start();
    lemma_kind_comment_range_end();
    lemma_kind_run();
    lemma_kind_hyperlink();
    lemma_kind_bookmark_start();
    lemma_kind_bookmark_end();
}

/// In the kind of `GridColumn` no name and no tag stands twice, and every
/// alternative has the tag of its kind.
proof fn lemma_well_formed_grid_column()
    ensures
        model().kinds[GRID_COLUMN as int].distinct(),
        forall|i: int, j: int|
            0 <= i < model().kinds[GRID_COLUMN as int].slots.len() && 0 <= j
                < model().kinds[GRID_COLUMN as int].slots[i].alternatives.len() ==> model().kinds[(
            #[trigger] model().kinds[GRID_COLUMN as int].slots[i].alternatives[j]).kind as int].tag
                == model().kinds[GRID_COLUMN as int].slots[i].alternatives[j].tag,
{
    lemma_kind_grid_column();
    GridColumn::lemma_descriptor_distinct();
}

/// In the kind of `TableGrid` no name and no tag stands twice, and every
/// alternative has the tag of its kind.
proof fn lemma_well_formed_table_grid()
    ensures
        model().kinds[TABLE_GRID as int].distinct(),
        forall|i: int, j: int|
            0 <= i < model().kinds[TABLE_GRID as int].slots.len() && 0 <= j
                < model().kinds[TABLE_GRID as int].slots[i].alternatives.len() ==> model().kinds[(
            #[trigger] model().kinds[TABLE_GRID as int].slots[i].alternatives[j]).kind as int].tag
                == model().kinds[TABLE_GRID as int].slots[i].alternatives[j].tag,
{
    lemma_kind_table_grid();
    TableGrid::lemma_descriptor_distinct();
    lemma_kind_grid_column();
}

/// In the kind of `TableCell` no name and no tag stands twice, and every
/// alternative has the tag of its kind.
proof fn lemma_well_formed_table_cell()
    ensures
        model().kinds[TABLE_CELL as int].distinct(),
        forall|i: int, j: int|
            0 <= i < model().kinds[TABLE_CELL as int].slots.len() && 0 <= j
                < model().kinds[TABLE_CELL as int].slots[i].alternatives.len() ==> model().kinds[(
            #[trigger] model().kinds[TABLE_CELL as int].slots[i].alternatives[j]).kind as int].tag
                == model().kinds[TABLE_CELL as int].slots[i].alternatives[j].tag,
{
    lemma_kind_table_cell();
    TableCell::lemma_descriptor_distinct();
    lemma_kind_table_cell_property();
    lemma_kind_paragraph();
}

/// In the kind of `TableRow` no name and no tag stands twice, and every
/// alternative has the tag of its kind.
proof fn lemma_well_formed_table_row()
    ensures
        model().kinds[TABLE_ROW as int].distinct(),
        forall|i: int, j: int|
            0 <= i < model().kinds[TABLE_ROW as int].slots.len() && 0 <= j
                < model().kinds[TABLE_ROW as int].slots[i].alternatives.len() ==> model().kinds[(
            #[trigger] model().kinds[TABLE_ROW as int].slots[i].alternatives[j]).kind as int].tag
                == model().kinds[TABLE_ROW as int].slots[i].alternatives[j].tag,
{
    lemma_kind_table_row();
    TableRow::lemma_descriptor_distinct();
    lemma_kind_table_cell();
}

/// In the kind of `Table` no name and no tag stands twice, and every
/// alternative has the tag of its kind.
proof fn lemma_well_formed_table()
    ensures
        model().kinds[TABLE as int].distinct(),
        forall|i: int, j: int|
            0 <= i < model().kinds[TABLE as int].slots.len() && 0 <= j
                < model().kinds[TABLE as int].slots[i].alternatives.len() ==> model().kinds[(
            #[trigger] model().kinds[TABLE as int].slots[i].alternatives[j]).kind as int].tag
                == model().kinds[TABLE as int].slots[i].alternatives[j].tag,
{
    lemma_kind_table();
    Table::lemma_descriptor_distinct();
    lemma_kind_table_property();
    lemma_kind_table_grid();
    lemma_kind_table_row();
}

/// In the kind of `Body` no name and no tag stands twice, and every
/// alternative has the tag of its kind.
proof fn lemma_well_formed_body()
    ensures
        model().kinds[BODY as int].distinct(),
        forall|i: int, j: int|
            0 <= i < model().kinds[BODY as int].slots.len() && 0 <= j
                < model().kinds[BODY as int].slots[i].alternatives.len() ==> model().kinds[(
            #[trigger] model().kinds[BODY as int].slots[i].alternatives[j]).kind as int].tag
                == model().kinds[BODY as int].slots[i].alternatives[j].tag,
{
    lemma_kind_body();
    Body::lemma_descriptor_distinct();
    lemma_kind_paragraph();
    lemma_kind_table();
}

/// In the kind of `Document` no name and no tag stands twice, and every
/// alternative has the tag of its kind.
proof fn lemma_well_formed_document()
    ensures
        model().kinds[DOCUMENT as int].distinct(),
        forall|i: int, j: int|
            0 <= i < model().kinds[DOCUMENT as int].slots.len() && 0 <= j
                < model().kinds[DOCUMENT as int].slots[i].alternatives.len() ==> model().kinds[(
            #[trigger] model().kinds[DOCUMENT as int].slots[i].alternatives[j]).kind as int].tag
                == model().kinds[DOCUMENT as int].slots[i].alternatives[j].tag,
{
    lemma_kind_document();
    Document::lemma_descriptor_distinct();
    lemma_kind_body();
}

/// In the kind of `DefaultCharacterStyle` no name and no tag stands twice, and every
/// alternative has the tag of its kind.
proof fn lemma_well_formed_default_character_style()
    ensures
        model().kinds[DEFAULT_CHARACTER_STYLE as int].distinct(),
        forall|i: int, j: int|
            0 <= i < model().kinds[DEFAULT_CHARACTER_STYLE as int].slots.len() && 0 <= j
                < model().kinds[DEFAULT_CHARACTER_STYLE as int].slots[i].alternatives.len() ==> model().kinds[(
            #[trigger] model().kinds[DEFAULT_CHARACTER_STYLE as int].slots[i].alternatives[j]).kind as int].tag
                == model().kinds[DEFAULT_CHARACTER_STYLE as int].slots[i].alternatives[j].tag,
{
    lemma_kind_default_character_style();
    DefaultCharacterStyle::lemma_descriptor_distinct();
    lemma_kind_character_property();
}

/// In the kind of `DefaultParagraphStyle` no name and no tag stands twice, and every
/// alternative has the tag of its kind.
proof fn lemma_well_formed_default_paragraph_style()
    ensures
        model().kinds[DEFAULT_PARAGRAPH_STYLE as int].distinct(),
        forall|i: int, j: int|
            0 <= i < model().kinds[DEFAULT_PARAGRAPH_STYLE as int].slots.len() && 0 <= j
                < model().kinds[DEFAULT_PARAGRAPH_STYLE as int].slots[i].alternatives.len() ==> model().kinds[(
            #[trigger] model().kinds[DEFAULT_PARAGRAPH_STYLE as int].slots[i].alternatives[j]).kind as int].tag
                == model().kinds[DEFAULT_PARAGRAPH_STYLE as int].slots[i].alternatives[j].tag,
{
    lemma_kind_default_paragraph_style();
    DefaultParagraphStyle::lemma_descriptor_distinct();
    lemma_kind_paragraph_property();
}

/// In the kind of `DefaultStyle` no name and no tag stands twice, and every
/// alternative has the tag of its kind.
proof fn lemma_well_formed_default_style()
    ensures
        model().kinds[DEFAULT_STYLE as int].distinct(),
        forall|i: int, j: int|
            0 <= i < model().kinds[DEFAULT_STYLE as int].slots.len() && 0 <= j
                < model().kinds[DEFAULT_STYLE as int].slots[i].alternatives.len() ==> model().kinds[(
            #[trigger] model().kinds[DEFAULT_STYLE as int].slots[i].alternatives[j]).kind as int].tag
                == model().kinds[DEFAULT_STYLE as int].slots[i].alternatives[j].tag,
{
    lemma_kind_default_style();
    DefaultStyle::lemma_descriptor_distinct();
    lemma_kind_default_character_style();
    lemma_kind_default_paragraph_style();
}

/// In the kind of `BasedOn` no name and no tag stands twice, and every
/// alternative has the tag of its kind.
proof fn lemma_well_formed_based_on()
    ensures
        model().kinds[BASED_ON as int].distinct(),
        forall|i: int, j: int|
            0 <= i < model().kinds[BASED_ON as int].slots.len() && 0 <= j
                < model().kinds[BASED_ON as int].slots[i].alternatives.len() ==> model().kinds[(
            #[trigger] model().kinds[BASED_ON as int].slots[i].alternatives[j]).kind as int].tag
                == model().kinds[BASED_ON as int].slots[i].alternatives[j].tag,
{
    lemma_kind_based_on();
    BasedOn::lemma_descriptor_distinct();
}

/// In the kind of `StyleName` no name and no tag stands twice, and every
/// alternative has the tag of its kind.
proof fn lemma_well_formed_style_name()
    ensures
        model().kinds[STYLE_NAME as int].distinct(),
        forall|i: int, j: int|
            0 <= i < model().kinds[STYLE_NAME as int].slots.len() && 0 <= j
                < model().kinds[STYLE_NAME as int].slots[i].alternatives.len() ==> model().kinds[(
            #[trigger] model().kinds[STYLE_NAME as int].slots[i].alternatives[j]).kind as int].tag
                == model().kinds[STYLE_NAME as int].slots[i].alternatives[j].tag,
{
    lemma_kind_style_name();
    StyleName::lemma_descriptor_distinct();
}

/// In the kind of `Style` no name and no tag stands twice, and every
/// alternative has the tag of its kind.
proof fn lemma_well_formed_style()
    ensures
        model().kinds[STYLE as int].distinct(),
        forall|i: int, j: int|
            0 <= i < model().kinds[STYLE as int].slots.len() && 0 <= j
                < model().kinds[STYLE as int].slots[i].alternatives.len() ==> model().kinds[(
            #[trigger] model().kinds[STYLE as int].slots[i].alternatives[j]).kind as int].tag
                == model().kinds[STYLE as int].slots[i].alternatives[j].tag,
{
    lemma_kind_style();
    Style::lemma_descriptor_distinct();
    lemma_kind_based_on();
    lemma_kind_style_name();
    lemma_kind_paragraph_property();
    lemma_kind_character_property();
}

/// In the kind of `Styles` no name and no tag stands twice, and every
/// alternative has the tag of its kind.
proof fn lemma_well_formed_styles()
    ensures
        model().kinds[STYLES as int].distinct(),
        forall|i: int, j: int|
            0 <= i < model().kinds[STYLES as int].slots.len() && 0 <= j
                < model().kinds[STYLES as int].slots[i].alternatives.len() ==> model().kinds[(
            #[trigger] model().kinds[STYLES as int].slots[i].alternatives[j]).kind as int].tag
                == model().kinds[STYLES as int].slots[i].alternatives[j].tag,
{
    lemma_kind_styles();
    Styles::lemma_descriptor_distinct();
    lemma_kind_default_style();
    lemma_kind_style();
}

/// In the kind of `LevelText` no name and no tag stands twice, and every
/// alternative has the tag of its kind.
proof fn lemma_well_formed_level_text()
    ensures
        model().kinds[LEVEL_TEXT as int].distinct(),
        forall|i: int, j: int|
            0 <= i < model().kinds[LEVEL_TEXT as int].slots.len() && 0 <= j
                < model().kinds[LEVEL_TEXT as int].slots[i].alternatives.len() ==> model().kinds[(
            #[trigger] model().kinds[LEVEL_TEXT as int].slots[i].alternatives[j]).kind as int].tag
                == model().kinds[LEVEL_TEXT as int].slots[i].alternatives[j].tag,
{
    lemma_kind_level_text();
    LevelText::lemma_descriptor_distinct();
}

/// In the kind of `NumberingFormat` no name and no tag stands twice, and every
/// alternative has the tag of its kind.
proof fn lemma_well_formed_numbering_format()
    ensures
        model().kinds[NUMBERING_FORMAT as int].distinct(),
        forall|i: int, j: int|
            0 <= i < model().kinds[NUMBERING_FORMAT as int].slots.len() && 0 <= j
                < model().kinds[NUMBERING_FORMAT as int].slots[i].alternatives.len() ==> model().kinds[(
            #[trigger] model().kinds[NUMBERING_FORMAT as int].slots[i].alternatives[j]).kind as int].tag
                == model().kinds[NUMBERING_FORMAT as int].slots[i].alternatives[j].tag,
{
    lemma_kind_numbering_format();
    NumberingFormat::lemma_descriptor_distinct();
}

/// In the kind of `Start` no name and no tag stands twice, and every
/// alternative has the tag of its kind.
proof fn lemma_well_formed_start()
    ensures
        model().kinds[START as int].distinct(),
        forall|i: int, j: int|
            0 <= i < model().kinds[START as int].slots.len() && 0 <= j
                < model().kinds[START as int].slots[i].alternatives.len() ==> model().kinds[(
            #[trigger] model().kinds[START as int].slots[i].alternatives[j]).kind as int].tag
                == model().kinds[START as int].slots[i].alternatives[j].tag,
{
    lemma_kind_start();
    Start::lemma_descriptor_distinct();
}

/// In the kind of `Level` no name and no tag stands twice, and every
/// alternative has the tag of its kind.
proof fn lemma_well_formed_level()
    ensures
        model().kinds[LEVEL as int].distinct(),
        forall|i: int, j: int|
            0 <= i < model().kinds[LEVEL as int].slots.len() && 0 <= j
                < model().kinds[LEVEL as int].slots[i].alternatives.len() ==> model().kinds[(
            #[trigger] model().kinds[LEVEL as int].slots[i].alternatives[j]).kind as int].tag
                == model().kinds[LEVEL as int].slots[i].alternatives[j].tag,
{
    lemma_kind_level();
    Level::lemma_descriptor_distinct();
    lemma_kind_level_text();
    lemma_kind_numbering_format();
    lemma_kind_start();
}

/// In the kind of `AbstractNumberingId` no name and no tag stands twice, and every
/// alternative has the tag of its kind.
proof fn lemma_well_formed_abstract_numbering_id()
    ensures
        model().kinds[ABSTRACT_NUMBERING_ID as int].distinct(),
        forall|i: int, j: int|
            0 <= i < model().kinds[ABSTRACT_NUMBERING_ID as int].slots.len() && 0 <= j
                < model().kinds[ABSTRACT_NUMBERING_ID as int].slots[i].alternatives.len() ==> model().kinds[(
            #[trigger] model().kinds[ABSTRACT_NUMBERING_ID as int].slots[i].alternatives[j]).kind as int].tag
                == model().kinds[ABSTRACT_NUMBERING_ID as int].slots[i].alternatives[j].tag,
{
    lemma_kind_abstract_numbering_id();
    AbstractNumberingId::lemma_descriptor_distinct();
}

/// In the kind of `NumStyleLink` no name and no tag stands twice, and every
/// alternative has the tag of its kind.
proof fn lemma_well_formed_num_style_link()
    ensures
        model().kinds[NUM_STYLE_LINK as int].distinct(),
        forall|i: int, j: int|
            0 <= i < model().kinds[NUM_STYLE_LINK as int].slots.len() && 0 <= j
                < model().kinds[NUM_STYLE_LINK as int].slots[i].alternatives.len() ==> model().kinds[(
            #[trigger] model().kinds[NUM_STYLE_LINK as int].slots[i].alternatives[j]).kind as int].tag
                == model().kinds[NUM_STYLE_LINK as int].slots[i].alternatives[j].tag,
{
    lemma_kind_num_style_link();
    NumStyleLink::lemma_descriptor_distinct();
}

/// In the kind of `AbstractNumbering` no name and no tag stands twice, and every
/// alternative has the tag of its kind.
proof fn lemma_well_formed_abstract_numbering()
    ensures
        model().kinds[ABSTRACT_NUMBERING as int].distinct(),
        forall|i: int, j: int|
            0 <= i < model().kinds[ABSTRACT_NUMBERING as int].slots.len() && 0 <= j
                < model().kinds[ABSTRACT_NUMBERING as int].slots[i].alternatives.len() ==> model().kinds[(
            #[trigger] model().kinds[ABSTRACT_NUMBERING as int].slots[i].alternatives[j]).kind as int].tag
                == model().kinds[ABSTRACT_NUMBERING as int].slots[i].alternatives[j].tag,
{
    lemma_kind_abstract_numbering();
    AbstractNumbering::lemma_descriptor_distinct();
    lemma_kind_level();
    lemma_kind_num_style_link();
}

/// In the kind of `Numbering` no name and no tag stands twice, and every
/// alternative has the tag of its kind.
proof fn lemma_well_formed_numbering()
    ensures
        model().kinds[NUMBERING as int].distinct(),
        forall|i: int, j: int|
            0 <= i < model().kinds[NUMBERING as int].slots.len() && 0 <= j
                < model().kinds[NUMBERING as int].slots[i].alternatives.len() ==> model().kinds[(
            #[trigger] model().kinds[NUMBERING as int].slots[i].alternatives[j]).kind as int].tag
                == model().kinds[NUMBERING as int].slots[i].alternatives[j].tag,
{
    lemma_kind_numbering();
    Numbering::lemma_descriptor_distinct();
    lemma_kind_abstract_numbering_id();
}

/// In the kind of `Numberings` no name and no tag stands twice, and every
/// alternative has the tag of its kind.
proof fn lemma_well_formed_numberings()
    ensures
        model().kinds[NUMBERINGS as int].distinct(),
        forall|i: int, j: int|
            0 <= i < model().kinds[NUMBERINGS as int].slots.len() && 0 <= j
                < model().kinds[NUMBERINGS as int].slots[i].alternatives.len() ==> model().kinds[(
            #[trigger] model().kinds[NUMBERINGS as int].slots[i].alternatives[j]).kind as int].tag
                == model().kinds[NUMBERINGS as int].slots[i].alternatives[j].tag,
{
    lemma_kind_numberings();
    Numberings::lemma_descriptor_distinct();
    lemma_kind_abstract_numbering();
    lemma_kind_numbering();
}

/// In the kind of `Comment` no name and no tag stands twice, and every
/// alternative has the tag of its kind.
proof fn lemma_well_formed_comment()
    ensures
        model().kinds[COMMENT as int].distinct(),
        forall|i: int, j: int|
            0 <= i < model().kinds[COMMENT as int].slots.len() && 0 <= j
                < model().kinds[COMMENT as int].slots[i].alternatives.len() ==> model().kinds[(
            #[trigger] model().kinds[COMMENT as int].slots[i].alternatives[j]).kind as int].tag
                == model().kinds[COMMENT as int].slots[i].alternatives[j].tag,
{
    lemma_kind_comment();
    Comment::lemma_descriptor_distinct();
    lemma_kind_paragraph();
}

/// In the kind of `Comments` no name and no tag stands twice, and every
/// alternative has the tag of its kind.
proof fn lemma_well_formed_comments()
    ensures
        model().kinds[COMMENTS as int].distinct(),
        forall|i: int, j: int|
            0 <= i < model().kinds[COMMENTS as int].slots.len() && 0 <= j
                < model().kinds[COMMENTS as int].slots[i].alternatives.len() ==> model().kinds[(
            #[trigger] model().kinds[COMMENTS as int].slots[i].alternatives[j]).kind as int].tag
                == model().kinds[COMMENTS as int].slots[i].alternatives[j].tag,
{
    lemma_kind_comments();
    Comments::lemma_descriptor_distinct();
    lemma_kind_comment();
}

/// In the kind of `Family` no name and no tag stands twice, and every
/// alternative has the tag of its kind.
proof fn lemma_well_formed_family()
    ensures
        model().kinds[FAMILY as int].distinct(),
        forall|i: int, j: int|
            0 <= i < model().kinds[FAMILY as int].slots.len() && 0 <= j
                < model().kinds[FAMILY as int].slots[i].alternatives.len() ==> model().kinds[(
            #[trigger] model().kinds[FAMILY as int].slots[i].alternatives[j]).kind as int].tag
                == model().kinds[FAMILY as int].slots[i].alternatives[j].tag,
{
    lemma_kind_family();
    Family::lemma_descriptor_distinct();
}

/// In the kind of `Pitch` no name and no tag stands twice, and every
/// alternative has the tag of its kind.
proof fn lemma_well_formed_pitch()
    ensures
        model().kinds[PITCH as int].distinct(),
        forall|i: int, j: int|
            0 <= i < model().kinds[PITCH as int].slots.len() && 0 <= j
                < model().kinds[PITCH as int].slots[i].alternatives.len() ==> model().kinds[(
            #[trigger] model().kinds[PITCH as int].slots[i].alternatives[j]).kind as int].tag
                == model().kinds[PITCH as int].slots[i].alternatives[j].tag,
{
    lemma_kind_pitch();
    Pitch::lemma_descriptor_distinct();
}

/// In the kind of `Font` no name and no tag stands twice, and every
/// alternative has the tag of its kind.
proof fn lemma_well_formed_font()
    ensures
        model().kinds[FONT as int].distinct(),
        forall|i: int, j: int|
            0 <= i < model().kinds[FONT as int].slots.len() && 0 <= j
                < model().kinds[FONT as int].slots[i].alternatives.len() ==> model().kinds[(
            #[trigger] model().kinds[FONT as int].slots[i].alternatives[j]).kind as int].tag
                == model().kinds[FONT as int].slots[i].alternatives[j].tag,
{
    lemma_kind_font();
    Font::lemma_descriptor_distinct();
    lemma_kind_family();
    lemma_kind_pitch();
}

/// In the kind of `FontTable` no name and no tag stands twice, and every
/// alternative has the tag of its kind.
proof fn lemma_well_formed_font_table()
    ensures
        model().kinds[FONT_TABLE as int].distinct(),
        forall|i: int, j: int|
            0 <= i < model().kinds[FONT_TABLE as int].slots.len() && 0 <= j
                < model().kinds[FONT_TABLE as int].slots[i].alternatives.len() ==> model().kinds[(
            #[trigger] model().kinds[FONT_TABLE as int].slots[i].alternatives[j]).kind as int].tag
                == model().kinds[FONT_TABLE as int].slots[i].alternatives[j].tag,
{
    lemma_kind_font_table();
    FontTable::lemma_descriptor_distinct();
    lemma_kind_font();
}

/// No attribute of the model has the name under which the namespace is
/// declared.
pub proof fn lemma_model_declares_nothing()
    ensures
        model().declares_nothing(),
{
    let m = model();
    assert forall|k: int, i: int|
        0 <= k < m.kinds.len() && 0 <= i < m.kinds[k].attributes.len() implies (
    #[trigger] m.kinds[k].attributes[i]).name != (NameView { prefix: "xmlns"@, local: "w"@ }) by {
        lemma_kind_declares_nothing(k);
    }
}

/// No attribute of the kind with the index `k` has the name under which the
/// namespace is declared.
proof fn lemma_kind_declares_nothing(k: int)
    requires
        0 <= k < KINDS,
    ensures
        forall|i: int|
            0 <= i < model().kinds[k].attributes.len() ==> (#[trigger] model().kinds[k].attributes[i]).name
                != (NameView { prefix: "xmlns"@, local: "w"@ }),
{
    reveal_strlit("xmlns");
    reveal_strlit("");
    reveal_strlit("r");
    reveal_strlit("w");
    reveal_strlit("w14");
    reveal_strlit("xml");
    assert(""@.len() != "xmlns"@.len());
    assert("r"@.len() != "xmlns"@.len());
    assert("w"@.len() != "xmlns"@.len());
    assert("w14"@.len() != "xmlns"@.len());
    assert("xml"@.len() != "xmlns"@.len());
    if k == TOP_BORDER {
        lemma_kind_top_border();
    } else if k == BOTTOM_BORDER {
        lemma_kind_bottom_border();
    } else if k == LEFT_BORDER {
        lemma_kind_left_border();
    } else if k == RIGHT_BORDER {
        lemma_kind_right_border();
    } else if k == BOLD {
        lemma_kind_bold();
    } else if k == ITALICS {
        lemma_kind_italics();
    } else if k == JUSTIFICATION {
        lemma_kind_justification();
    } else if k == TABLE_JUSTIFICATION {
        lemma_kind_table_justification();
    } else if k == NUMBERING_ID {
        lemma_kind_numbering_id();
    } else if k == INDENT_LEVEL {
        lemma_kind_indent_level();
    } else if k == OUTLINE_LEVEL {
        lemma_kind_outline_level();
    } else if k == PARAGRAPH_STYLE_ID {
        lemma_kind_paragraph_style_id();
    } else if k == CHARACTER_STYLE_ID {
        lemma_kind_character_style_id();
    } else if k == TABLE_INDENT {
        lemma_kind_table_indent();
    } else if k == TABLE_WIDTH {
        lemma_kind_table_width();
    } else if k == TABLE_STYLE_ID {
        lemma_kind_table_style_id();
    } else if k == TEXT {
        lemma_kind_text();
    } else if k == BREAK {
        lemma_kind_break();
    } else if k == DRAWING {
        lemma_kind_drawing();
    } else if k == BOOKMARK_START {
        lemma_kind_bookmark_start();
    } else if k == BOOKMARK_END {
        lemma_kind_bookmark_end();
    } else if k == COMMENT_RANGE_START {
        lemma_kind_comment_range_start();
    } else if k == COMMENT_RANGE_END {
        lemma_kind_comment_range_end();
    } else if k == HYPERLINK {
        lemma_kind_hyperlink();
    } else if k == PARAGRAPH {
        lemma_kind_paragraph();
    } else if k == GRID_COLUMN {
        lemma_kind_grid_column();
    } else if k == BASED_ON {
        lemma_kind_based_on();
    } else if k == STYLE_NAME {
        lemma_kind_style_name();
    } else if k == STYLE {
        lemma_kind_style();
    } else if k == LEVEL_TEXT {
        lemma_kind_level_text();
    } else if k == NUMBERING_FORMAT {
        lemma_kind_numbering_format();
    } else if k == START {
        lemma_kind_start();
    } else if k == LEVEL {
        lemma_kind_level();
    } else if k == ABSTRACT_NUMBERING_ID {
        lemma_kind_abstract_numbering_id();
    } else if k == NUM_STYLE_LINK {
        lemma_kind_num_style_link();
    } else if k == ABSTRACT_NUMBERING {
        lemma_kind_abstract_numbering();
    } else if k == NUMBERING {
        lemma_kind_numbering();
    } else if k == COMMENT {
        lemma_kind_comment();
    } else if k == FAMILY {
        lemma_kind_family();
    } else if k == PITCH {
        lemma_kind_pitch();
    } else if k == FONT {
        lemma_kind_font();
    } else {
        lemma_kind_no_attributes(k);
    }
}

/// The kinds that are not named here have no attributes.
proof fn lemma_kind_no_attributes(k: int)
    requires
        0 <= k < KINDS,
        k != TOP_BORDER,
        k != BOTTOM_BORDER,
        k != LEFT_BORDER,
        k != RIGHT_BORDER,
        k != BOLD,
        k != ITALICS,
        k != JUSTIFICATION,
        k != TABLE_JUSTIFICATION,
        k != NUMBERING_ID,
        k != INDENT_LEVEL,
        k != OUTLINE_LEVEL,
        k != PARAGRAPH_STYLE_ID,
        k != CHARACTER_STYLE_ID,
        k != TABLE_INDENT,
        k != TABLE_WIDTH,
        k != TABLE_STYLE_ID,
        k != TEXT,
        k != BREAK,
        k != DRAWING,
        k != BOOKMARK_START,
        k != BOOKMARK_END,
        k != COMMENT_RANGE_START,
        k != COMMENT_RANGE_END,
        k != HYPERLINK,
        k != PARAGRAPH,
        k != GRID_COLUMN,
        k != BASED_ON,
        k != STYLE_NAME,
        k != STYLE,
        k != LEVEL_TEXT,
        k != NUMBERING_FORMAT,
        k != START,
        k != LEVEL,
        k != ABSTRACT_NUMBERING_ID,
        k != NUM_STYLE_LINK,
        k != ABSTRACT_NUMBERING,
        k != NUMBERING,
        k != COMMENT,
        k != FAMILY,
        k != PITCH,
        k != FONT,
    ensures
        model().kinds[k].attributes.len() == 0,
{
    if k == BORDERS {
        lemma_kind_borders();
    } else if k == NUMBERING_PROPERTY {
        lemma_kind_numbering_property();
    } else if k == SECTION_PROPERTY {
        lemma_kind_section_property();
    } else if k == PARAGRAPH_PROPERTY {
        lemma_kind_paragraph_property();
    } else if k == CHARACTER_PROPERTY {
        lemma_kind_character_property();
    } else if k == TABLE_BORDERS {
        lemma_kind_table_borders();
    } else if k == TABLE_CELL_PROPERTY {
        lemma_kind_table_cell_property();
    } else if k == TABLE_PROPERTY {
        lemma_kind_table_property();
    } else if k == TAB {
        lemma_kind_tab();
    } else if k == RUN {
        lemma_kind_run();
    } else if k == SMART_TAG {
        lemma_kind_smart_tag();
    } else if k == TABLE_GRID {
        lemma_kind_table_grid();
    } else if k == TABLE_CELL {
        lemma_kind_table_cell();
    } else if k == TABLE_ROW {
        lemma_kind_table_row();
    } else if k == TABLE {
        lemma_kind_table();
    } else if k == BODY {
        lemma_kind_body();
    } else if k == DOCUMENT {
        lemma_kind_document();
    } else if k == DEFAULT_CHARACTER_STYLE {
        lemma_kind_default_character_style();
    } else if k == DEFAULT_PARAGRAPH_STYLE {
        lemma_kind_default_paragraph_style();
    } else if k == DEFAULT_STYLE {
        lemma_kind_default_style();
    } else if k == STYLES {
        lemma_kind_styles();
    } else if k == NUMBERINGS {
        lemma_kind_numberings();
    } else if k == COMMENTS {
        lemma_kind_comments();
    } else if k == FONT_TABLE {
        lemma_kind_font_table();
    }
}

/// The table with the index `t` holds no text twice.
proof fn lemma_table_distinct(t: int)
    requires
        0 <= t < TABLES,
    ensures
        model().symbols[t].len() <= usize::MAX,
        forall|a: int, b: int|
            0 <= a < b < model().symbols[t].len() ==> #[trigger] model().symbols[t][a]
                != #[trigger] model().symbols[t][b],
{
    if t == BORDER_STYLE_SYMBOLS {
        lemma_symbols_border_style();
        BorderStyle::lemma_symbols_distinct();
    } else if t == JUSTIFICATION_VAL_SYMBOLS {
        lemma_symbols_justification_val();
        JustificationVal::lemma_symbols_distinct();
    } else if t == TABLE_JUSTIFICATION_VAL_SYMBOLS {
        lemma_symbols_table_justification_val();
        TableJustificationVal::lemma_symbols_distinct();
    } else if t == TABLE_INDENT_UNIT_SYMBOLS {
        lemma_symbols_table_indent_unit();
        TableIndentUnit::lemma_symbols_distinct();
    } else if t == TABLE_WIDTH_UNIT_SYMBOLS {
        lemma_symbols_table_width_unit();
        TableWidthUnit::lemma_symbols_distinct();
    } else if t == TEXT_SPACE_SYMBOLS {
        lemma_symbols_text_space();
        TextSpace::lemma_symbols_distinct();
    } else if t == BREAK_TYPE_SYMBOLS {
        lemma_symbols_break_type();
        BreakType::lemma_symbols_distinct();
    } else if t == STYLE_TYPE_SYMBOLS {
        lemma_symbols_style_type();
        StyleType::lemma_symbols_distinct();
    } else {
        lemma_symbols_numbering_format_val();
        NumberingFormatVal::lemma_symbols_distinct();
    }
}

/// The model as the mapping reads it.
pub fn schema() -> (s: Schema)
    ensures
        s@ == model(),
        s@.valid(),
{
    let mut kinds: Vec<Descriptor> = Vec::new();
    kinds.push(TopBorder::descriptor());
    kinds.push(BottomBorder::descriptor());
    kinds.push(LeftBorder::descriptor());
    kinds.push(RightBorder::descriptor());
    kinds.push(Borders::descriptor());
    kinds.push(Bold::descriptor());
    kinds.push(Italics::descriptor());
    kinds.push(Justification::descriptor());
    kinds.push(TableJustification::descriptor());
    kinds.push(NumberingId::descriptor());
    kinds.push(IndentLevel::descriptor());
    kinds.push(NumberingProperty::descriptor());
    kinds.push(OutlineLevel::descriptor());
    kinds.push(SectionProperty::descriptor());
    kinds.push(ParagraphStyleId::descriptor());
    kinds.push(ParagraphProperty::descriptor());
    kinds.push(CharacterStyleId::descriptor());
    kinds.push(CharacterProperty::descriptor());
    kinds.push(TableBorders::descriptor());
    kinds.push(TableCellProperty::descriptor());
    kinds.push(TableIndent::descriptor());
    kinds.push(TableWidth::descriptor());
    kinds.push(TableStyleId::descriptor());
    kinds.push(TableProperty::descriptor());
    kinds.push(Text::descriptor());
    kinds.push(Break::descriptor());
    kinds.push(Tab::descriptor());
    kinds.push(Drawing::descriptor());
    kinds.push(Run::descriptor());
    kinds.push(BookmarkStart::descriptor());
    kinds.push(BookmarkEnd::descriptor());
    kinds.push(CommentRangeStart::descriptor());
    kinds.push(CommentRangeEnd::descriptor());
    kinds.push(Hyperlink::descriptor());
    kinds.push(Paragraph::descriptor());
    kinds.push(SmartTag::descriptor());
    kinds.push(GridColumn::descriptor());
    kinds.push(TableGrid::descriptor());
    kinds.push(TableCell::descriptor());
    kinds.push(TableRow::descriptor());
    kinds.push(Table::descriptor());
    kinds.push(Body::descriptor());
    kinds.push(Document::descriptor());
    kinds.push(DefaultCharacterStyle::descriptor());
    kinds.push(DefaultParagraphStyle::descriptor());
    kinds.push(DefaultStyle::descriptor());
    kinds.push(BasedOn::descriptor());
    kinds.push(StyleName::descriptor());
    kinds.push(Style::descriptor());
    kinds.push(Styles::descriptor());
    kinds.push(LevelText::descriptor());
    kinds.push(NumberingFormat::descriptor());
    kinds.push(Start::descriptor());
    kinds.push(Level::descriptor());
    kinds.push(AbstractNumberingId::descriptor());
    kinds.push(NumStyleLink::descriptor());
    kinds.push(AbstractNumbering::descriptor());
    kinds.push(Numbering::descriptor());
    kinds.push(Numberings::descriptor());
    kinds.push(Comment::descriptor());
    kinds.push(Comments::descriptor());
    kinds.push(Family::descriptor());
    kinds.push(Pitch::descriptor());
    kinds.push(Font::descriptor());
    kinds.push(FontTable::descriptor());
    let mut symbols: Vec<Vec<String>> = Vec::new();
    symbols.push(BorderStyle::symbols());
    symbols.push(JustificationVal::symbols());
    symbols.push(TableJustificationVal::symbols());
    symbols.push(TableIndentUnit::symbols());
    symbols.push(TableWidthUnit::symbols());
    symbols.push(TextSpace::symbols());
    symbols.push(BreakType::symbols());
    symbols.push(StyleType::symbols());
    symbols.push(NumberingFormatVal::symbols());
    let s = Schema { kinds, symbols };
    proof {
        reveal(descriptor_of);
        reveal(symbols_of);
        assert(s@.kinds =~= model().kinds);
        assert(s@.symbols =~= model().symbols);
        lemma_model_valid();
    }
    s
}

} // verus!
