//! Indent analysis for visual indent guides and scope highlighting.
//!
//! The library computes, for a buffer given as lines of text, the indent
//! level of every line, the buffer's dominant indent style, the innermost
//! scope around a cursor line, and the guide marks that an editor front end
//! draws. Everything here is pure computation on plain values; talking to the
//! editor is left to the caller.

pub mod indent;
pub mod scope;
pub mod guides;
