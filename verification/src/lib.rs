//! Decoder for a binary tree-structured key-value format used by a game
//! launcher to persist custom application shortcuts.
//!
//! The byte stream is a sequence of type-tagged entries: each entry is a tag
//! byte, a zero-terminated key, and a value whose shape the tag selects
//! (nested object, zero-terminated text, or a 32-bit little-endian integer).
//! Decoding produces a dynamically shaped tree of string keys to tagged
//! values; a projection step then turns one node of that tree into a
//! fixed-shape [`shortcut::Shortcut`] record.

pub mod collection;
pub mod cursor;
pub mod decode;
pub mod laws;
pub mod shortcut;
pub mod tree;
