//! A Markdown parser: text in, a tree of block and inline nodes out.
//!
//! Every function of the parser carries a contract over the mathematical
//! model of the tree (`BlockView`, `SpanView`) and of the text (`Seq<char>`).

pub mod parser;
