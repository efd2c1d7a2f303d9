//! Parsing support for JavaScript/TypeScript text: the comment list that goes
//! beside the syntax tree, its JSON encoding, and the single failure value a
//! parse call hands back.

pub mod comments;
pub mod encode;
pub mod failure;
pub mod pipeline;
pub mod program;
pub mod span;
