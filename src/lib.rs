//! A regular-expression engine: a recursive-descent parser from pattern text
//! to a syntax tree, and an instrumented backtracking matcher that records
//! every decision it makes; plus a small generator of C/C++ binding
//! declarations.
pub mod char;
pub mod range;
pub mod regex;
pub mod parser;
pub mod matcher;
pub mod mangle;
pub mod datatype;
pub mod function;
pub mod bindings;
pub mod codegen;
pub mod separator;
mod text;
