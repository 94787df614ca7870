//! The typed model and its parsers.

pub mod datatype;
pub mod name;
pub mod parameter;
pub mod plain;
pub mod variable;
