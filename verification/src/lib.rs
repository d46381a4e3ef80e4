//! A small JSON-like document library.
//!
//! The parser reads a text buffer into a [`value::JsonValue`] tree by
//! recursive descent, with a lookahead heuristic in place of escape
//! processing for string literals.  The writer renders a tree back to
//! text, quoting every leaf.  The grammar the parser recognises is
//! stated as a family of specification functions in [`grammar`], and
//! every parsing routine is proved to agree with it.

pub mod value;
pub mod grammar;
pub mod parser;
pub mod deserializer;
pub mod combine;

pub use parser::JsonParser;
pub use value::JsonValue;
pub use value::ParserError;
pub use deserializer::Deserializer;
