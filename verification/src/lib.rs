//! An interpreter for a small line-oriented scripting language: typed variable
//! declarations, `echo`, and a one-level conditional over two operands.
//!
//! A source text is cut into lines ([`lines`]); each line is taken for a declaration, an
//! echo statement or neither ([`grammar`]) and read into an expression ([`variables`],
//! [`echo`], [`lang_parser`]); the expressions, in the order of their lines, are the
//! program. An [`executor::Executor`] first puts every declaration of the program into
//! its [`environment`], then lets the expressions take effect one by one, comparing
//! values ([`compare`]) where a conditional asks for it, and collects the lines that the
//! program puts out.
//!
//! Every function states what it computes over the characters of its input, and the
//! laws that hold between the functions are stated and proved beside them.

pub mod compare;
pub mod echo;
pub mod environment;
pub mod executor;
pub mod grammar;
pub mod lang_parser;
pub mod lines;
pub mod number;
pub mod result;
pub mod text;
pub mod variables;
