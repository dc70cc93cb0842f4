//! Formatting: the properties of paragraphs, runs and tables.

pub mod bold;
pub mod border;
pub mod borders;
pub mod character_property;
pub mod indent_level;
pub mod italics;
pub mod justification;
pub mod numbering_id;
pub mod numbering_property;
pub mod paragraph_property;
pub mod table_borders;
pub mod table_cell_property;
pub mod table_indent;
pub mod table_justification;
pub mod table_property;
pub mod table_width;

pub use self::bold::Bold;
pub use self::border::{BorderStyle, BottomBorder, LeftBorder, RightBorder, TopBorder};
pub use self::borders::Borders;
pub use self::character_property::{CharacterStyleId, CharacterProperty};
pub use self::indent_level::IndentLevel;
pub use self::italics::Italics;
pub use self::justification::{JustificationVal, Justification};
pub use self::numbering_id::NumberingId;
pub use self::numbering_property::NumberingProperty;
pub use self::paragraph_property::{OutlineLevel, SectionProperty, ParagraphStyleId, ParagraphProperty};
pub use self::table_borders::TableBorders;
pub use self::table_cell_property::TableCellProperty;
pub use self::table_indent::{TableIndentUnit, TableIndent};
pub use self::table_justification::{TableJustificationVal, TableJustification};
pub use self::table_property::{TableStyleId, TableProperty};
pub use self::table_width::{TableWidthUnit, TableWidth};
