//! An arithmetic expression engine: a tokenizer, a shunting-yard parser that
//! builds an expression tree honouring precedence and parentheses, and the
//! growable LIFO stack the parser runs on.
//!
//! Numbers stay in their source text in the tree (`Factor::Literal`), and
//! the previous result enters it as an opaque value (`Factor::Value`), so
//! the caller chooses the arithmetic that evaluates it.

pub mod engine;
pub mod error;
pub mod expressions;
pub mod operators;
pub mod parser;
pub mod stack;
pub mod text;
pub mod tokenizer;

pub use engine::{next_step, parse_buffer, process_expression, source_text, LineError, Step};
pub use error::{LexError, ParseError};
pub use expressions::{Expression, Factor};
pub use operators::Operator;
pub use parser::shunting_yard_algorithm;
pub use stack::Stack;
pub use tokenizer::{build_tokenised_string, Pattern, StringTokenizer};
