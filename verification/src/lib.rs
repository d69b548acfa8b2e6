//! A lexical scanner that classifies source text into a flat, ordered stream
//! of tagged spans: comments, string and char literals, lifetime elisions,
//! newlines, and plain text. The concatenation of the emitted spans always
//! reproduces the input exactly.

pub mod pass1;
pub mod pass2;
pub mod pass3;
pub mod parser;
pub mod spans;
pub mod tokens;
