//! A rule-driven tokenizer: splits whitespace-delimited chunks of text into
//! tokens by exception lookup, whole-token matches, prefix and suffix
//! stripping and infix splitting, keeping exact character offsets.

pub mod chunk;
pub mod exceptions;
pub mod external;
pub mod line;
pub mod pattern;
pub mod order;
pub mod rules;
pub mod spans;
