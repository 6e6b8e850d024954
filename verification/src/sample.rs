//! A sample package.
//!
//! The example workspace that the tool is tried on holds one small library: a
//! reader for configuration files of the form `key = value`. It stands here
//! so that the example's modifications have a verified subject to start from.

pub mod config;
pub mod parser;
