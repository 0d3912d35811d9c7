//! A Forth-family interpreter.
//!
//! Program text is lower-cased and split at whitespace ([`lexer`]), read by a
//! recursive-descent parser into expressions and dictionary entries ([`parser`]), and run by
//! a tree-walking evaluator against a stack of 64-bit integers ([`env`], [`prims`]).
//! [`interp::ForthInterp`] ties them into a session whose definitions, variables and stack
//! persist from one input to the next. Each executable function is proved against a model
//! of what it computes; [`laws`] states properties of the primitives over that model.
pub mod types;
pub mod prims;
pub mod env;
pub mod lexer;
pub mod parser;
pub mod interp;
pub mod laws;
