//! Analyses and rewrites of the intermediate code.

pub mod cfg;
pub mod constant;
pub mod peekhole;
pub mod remove_nop;
pub mod remove_unreachable;
