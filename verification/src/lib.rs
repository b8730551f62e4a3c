//! A singly linked list with a tail shortcut for O(1) append.
//!
//! The chain of nodes is held in an owning arena; `head` and the
//! non-owning `tail` shortcut are arena indices, so the shortcut never
//! aliases into the owning chain. Every operation is specified against
//! the list's view, a sequence of the stored values in head-to-tail
//! order, and preserves the structural invariant that ties `head`,
//! `tail` and the links together.

pub mod laws;
pub mod list;
pub mod render;
