//! An object model for word-processing document parts and its mapping to and
//! from XML tokens.

pub mod catalog;
pub mod comments;
pub mod decode;
pub mod document;
pub mod encode;
pub mod entity;
pub mod error;
pub mod escape;
pub mod font_table;
pub mod laws;
pub mod formatting;
pub mod lexer;
pub mod node;
pub mod numbering;
pub mod scalar;
pub mod schema;
pub mod styles;
pub mod token;
pub mod writer;
