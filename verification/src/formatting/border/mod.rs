//! Borders, side by side, and the lines they are drawn with.

pub mod border_style;
pub mod bottom_border;
pub mod left_border;
pub mod right_border;
pub mod top_border;

pub use self::border_style::BorderStyle;
pub use self::bottom_border::BottomBorder;
pub use self::left_border::LeftBorder;
pub use self::right_border::RightBorder;
pub use self::top_border::TopBorder;
