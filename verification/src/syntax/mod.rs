//! The nxc frontend: identifier spellings, tokens and the parser.
pub mod cst;
pub mod grammar;
pub mod ident;
pub mod kind;
pub mod lexer;

pub use cst::{parse, parse_with_limits, SourceParse};
pub use kind::SyntaxKind;
pub(crate) mod parser;
