//! A security-focused static analyzer for Sway source code.
use vstd::prelude::*;

pub mod analysis;
pub mod ast;
pub mod detector_laws;
pub mod detectors;
pub mod error;
pub mod filter;
pub mod laws;
pub mod parse;
pub mod path;
pub mod project;
pub mod render;
pub mod report;
pub mod search;
pub mod storage_access;
pub mod text;
pub mod utils;
pub mod walk;

verus! {
} // verus!
