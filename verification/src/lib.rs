//! Front end of a small explicitly polymorphic functional language: the
//! syntax tree, its printer, and the tokenizer that reads the printed form
//! back.
//!
//! - [`ast`] holds the syntax tree: types, patterns, expressions and
//!   declarations.
//! - [`print`] says what each node looks like as text, and produces that text.
//! - [`grammar`] is the lexical grammar as a function from bytes to tokens;
//!   [`table`] states it once more as a table of lexemes with the rule of the
//!   longest match; [`lex`] is the tokenizer that implements it.
//! - [`tokens`] gives the tokens that each node is written with, and [`laws`]
//!   states what holds of printer and tokenizer together: what is printed is
//!   read back as those tokens.
//! - [`ascii`], [`decimal`], [`reading`], [`spelling`] and [`round_trip`] hold
//!   the definitions and lemmas that the proofs rest on.

pub mod ascii;
pub mod ast;
pub mod decimal;
pub mod grammar;
pub mod laws;
pub mod lex;
pub mod print;
pub mod reading;
pub mod round_trip;
pub mod spelling;
pub mod table;
pub mod tokens;
