//! A small interpreter for a Forth-like stack-based language.
//!
//! The crate is organised around the execution engine: a tagged value type
//! ([`literal::Literal`]), an operand stack ([`stack::Stack`]), a store of
//! named variables and constants, and a dictionary of native and user-defined
//! words, all owned by [`interpreter::ForthInterpreter`]. A line of source
//! text is lexed into typed tokens, each token is resolved to a literal push
//! or a word invocation, and the resolved sequence is executed against the
//! interpreter state.

pub mod errors;
pub mod interpreter;
pub mod laws;
pub mod lexer;
pub mod literal;
pub mod stack;

pub use errors::ForthError;
pub use interpreter::ForthInterpreter;
pub use interpreter::NativeWord;
pub use interpreter::Variable;
pub use interpreter::WordElement;
pub use literal::Literal;
pub use literal::Pointer;
