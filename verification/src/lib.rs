//! Verified core of a libvirt domain linter: validator selection by tag,
//! tags of validator scripts, and the decisions of the built-in checks.

pub mod numbers;
pub mod order;
pub mod error;
pub mod warning;
pub mod xml;
pub mod text;
pub mod checks;
pub mod paths;
pub mod scripts;
pub mod registry;
pub mod laws;
