//! Parsing of type tags and parameter declarations of a scripting language
//! into a typed model.
//!
//! A text is modelled as the sequence of its characters, and a position as an
//! index into it. Each grammar is a specification function from a text and a
//! start position to either the position where the parse stopped together
//! with the parsed value, or the position and kind of the failure. Each parser
//! is proved to compute exactly that function, and to hand back the rest of
//! the input from where the grammar stopped.
//!
//! - [`text`]: character classes, runs of characters and literal tokens.
//! - [`error`]: failures, and what it means for a parser to answer as a
//!   grammar does.
//! - [`model::datatype`]: data types and the grammar of type tags.
//! - [`model::name`]: variable references.
//! - [`model::parameter`]: parameter declarations with their attribute block.
//! - [`model::variable`]: variable declarations.
//! - [`model::plain`]: the plain written form of a declaration, which the
//!   parser reads back.

pub mod error;
pub mod model;
pub mod text;
