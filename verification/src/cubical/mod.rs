//! The front end of the cubical type theory language: its lexer.

pub mod lexer;
