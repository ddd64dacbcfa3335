//! Workspace file mentions: the verified core of an `@file` completion
//! language server.
use vstd::prelude::*;

pub mod completion;
pub mod config;
pub mod extension;
pub mod index;
pub mod order;
pub mod paths;
pub mod server;
pub mod text;

verus! {
} // verus!
