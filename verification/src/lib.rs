//! A small imperative language: lexer, compiler to a flat intermediate
//! representation, dataflow-driven optimizer and interpreter.

pub mod compile;
pub mod dump;
pub mod error;
pub mod exec;
pub mod expr;
pub mod lexer;
pub mod name_map;
pub mod optimize;
pub mod parser;
pub mod phrase;
pub mod pipeline;
pub mod text;
pub mod var_map;
