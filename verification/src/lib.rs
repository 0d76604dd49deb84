//! Line-oriented text search.
//!
//! A pattern, literal or regular expression, is compiled once into a
//! [`matcher::CompiledMatcher`]; each line of input is then judged by
//! [`evaluate::evaluate_line`], which decides whether the line is selected and
//! where its first match lies, and a run over many lines is summed up by
//! [`evaluate::search_lines`].
pub mod text;
pub mod engine;
pub mod matcher;
pub mod evaluate;
pub mod laws;
