//! The search query language: a parser from query text to a validated AST
//! and a compiler from that AST to parameterized SQL mixing a full-text
//! MATCH with structured predicates.
pub mod compile;
pub mod decimal;
pub mod parser;
pub mod schema;

pub use parser::{parse, Condition, Op, QueryAst, SearchError, Value};
pub use schema::{field, FieldDef, FieldType};
pub use compile::{compile, Bind, CompiledQuery};
