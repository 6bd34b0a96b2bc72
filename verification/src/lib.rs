//! Core of a calculator: a tokenizer and a precedence evaluator over
//! arbitrary-precision decimals, verified against an exact mathematical
//! model of the decimal representation.

pub mod calc;
pub mod calculator;
pub mod decimal;
pub mod error;
pub mod evaluator;
pub mod laws;
pub mod model;
pub mod parser;
