//! An emoji picker's core: it merges a usage history, a catalog of Unicode
//! emoji and a directory of PNG emoji into one ranked candidate list, writes
//! that list in the line format of an interactive picker, resolves the line
//! that the picker hands back, and decides how the selection is copied to the
//! clipboard.
//!
//! The library decides and computes; it starts no program and touches no
//! file. Its functions carry contracts that the verifier proves, over the
//! models in [`assoc`], [`ranking`] and [`text`].

pub mod assoc;
pub mod candidates;
pub mod catalog;
pub mod clipboard;
pub mod config;
pub mod failure;
pub mod history;
pub mod protocol;
pub mod ranking;
pub mod selection;
pub mod session;
pub mod store;
pub mod text;
