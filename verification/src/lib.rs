//! An interpreter for a small stack language written in symbols: a lexer, a
//! recursive-descent parser and an evaluator that advances one statement at a
//! time.
//!
//! Numbers are IEEE-754 double-precision values, held as their 64-bit
//! patterns. Whatever needs floating-point hardware or an output device is
//! requested from the caller through [`run::Action`] and answered through
//! [`run::Event`].

pub mod env;
pub mod number;
pub mod parse;
pub mod primitive;
pub mod result;
pub mod run;
pub mod show;
pub mod text;
pub mod value;
