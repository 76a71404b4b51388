//! A lazy, zero-copy tokenizer for XML-like byte streams.
//!
//! [`Tokenizer`] cuts a byte slice into [`Token`]s: text spans, entity
//! references, comments, processing instructions, declarations and tags. It
//! builds no tree and validates nothing beyond the delimiters themselves.
//! Every token borrows its bytes from the input, and the tokens of one input,
//! laid end to end, are that input again.
//!
//! The modules:
//! - `bytes`: the delimiter bytes;
//! - `search`: what the first occurrence of a byte or of a pattern is, and
//!   the contracts under which the searches of the `memchr` crate are
//!   called. These contracts are believed, not proved;
//! - `token`: the tokens, and their view in specifications;
//! - `grammar`: what the next token of any input is, as specification
//!   functions;
//! - `tokenizer`: the tokenizer itself, proved against the grammar;
//! - `laws`: what follows for every input and every state.
pub mod bytes;
pub mod grammar;
pub mod laws;
pub mod search;
pub mod token;
pub mod tokenizer;

pub use token::Token;
pub use tokenizer::Tokenizer;
