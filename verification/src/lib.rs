//! Vanity search for Ed25519 peer identifiers.
//!
//! A search draws random keys and keeps those whose peer identifier, in Base58, holds a
//! pattern: anywhere, at the start or at the end. This crate holds the rules of such a
//! search. Threads, files, the terminal and the clock are left to the program around it.

pub mod base58;
pub mod command;
pub mod highlight;
pub mod identity;
pub mod keystore;
pub mod laws;
pub mod matching;
pub mod options;
pub mod prefix;
pub mod report;
pub mod search;
pub mod text;
