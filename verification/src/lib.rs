//! Core of a small credential manager: authenticated streaming encryption
//! with password-based key derivation, an erasure model for sensitive data,
//! a hierarchical record tree with exact and fuzzy path resolution, and a
//! crash-safe backup protocol for rewrites of the encrypted file.

pub mod cli;
pub mod crypt;
pub mod display;
pub mod edit;
pub mod filepath;
pub mod find;
pub mod header;
pub mod ir;
pub mod output;
pub mod protocol;
pub mod key;
pub mod record;
pub mod secret;
pub mod tui;

pub use secret::{Erase, Secret};
