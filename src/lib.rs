//! Truth tables for boolean expressions over single-character symbols.
//!
//! Every sub-expression is evaluated as a whole column of truth values, one
//! character `'0'` or `'1'` per assignment of the symbols, rather than row by
//! row. The pieces, leaves first:
//!
//! - `symbols` collects the distinct symbols of the text in first-seen order;
//! - `table` builds each symbol's base column, rows in binary counting order;
//! - `parser` turns the text into an expression tree;
//! - `column` holds the positionwise operators on columns;
//! - `eval` walks the tree bottom-up and records each sub-expression's column;
//! - `session` runs all of it for one line of text.
pub mod column;
pub mod symbols;
pub mod table;
pub mod parser;
pub mod eval;
pub mod session;
