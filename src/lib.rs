//! A terminal stopwatch's core: a parser for typed duration expressions,
//! the time span it produces, and the elapsed-time accumulator.

pub mod command;
pub mod disjoint;
pub mod display;
pub mod duration;
pub mod lexer;
pub mod num;
pub mod parse;
pub mod report;
pub mod reread;
pub mod span;
pub mod stopwatch;
pub mod sw;
pub mod text;
pub mod unit;
