//! Splits a lexed SQL source into statements and reconciles what a grammar
//! engine says of each statement with the tokens it was made of.
//!
//! A [`parser::Parser`] holds the tokens of a source and a cursor into them.
//! [`statement_start::is_at_stmt_start`] tells from the lookahead tables of
//! [`start_maps`] whether a statement starts at the cursor, and
//! [`statement::collect_statement_token_range`] finds where it ends.
//! [`bridge::statement_text`] makes the text that the grammar engine is
//! given, and [`statement::statement`] records what the engine said of it
//! and moves the cursor on. [`source`] goes through a whole source this
//! way, and [`theorems`] states what holds of every session.

pub mod bridge;
pub mod parser;
pub mod scan;
pub mod source;
pub mod statement;
pub mod statement_start;
pub mod start_maps;
pub mod syntax_kind;
pub mod text;
pub mod theorems;
pub mod token;
