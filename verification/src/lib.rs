//! Scan-policy directives for hierarchical key derivation.
//!
//! A textual directive (`while`, `first<N>`, `random<N>`) selects how many
//! child-key indices a wallet scan probes and in what order. This crate
//! parses such directives into a [`ResolverModeType`] policy and turns a
//! policy into a one-shot sequence of concrete indices.

pub mod bip32;
pub mod resolver_mode;

pub use resolver_mode::{ParseError, ResolverModeIter, ResolverModeType};
