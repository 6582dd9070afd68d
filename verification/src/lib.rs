//! A small raft node: role bookkeeping, a bounded snapshot of entry ids,
//! a key-value store of string sets, and the decisions of the election loop.
pub mod wrappers;
pub mod raft;
pub mod trans;
