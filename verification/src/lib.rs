//! Detects the third-party packages a Python source tree depends on:
//! scans the tree for source files, extracts the modules they import,
//! filters out standard-library modules, locally defined packages and
//! already-declared dependencies (remapping import names that differ
//! from the published package name), and resolves each survivor to its
//! latest published version on an ordered list of package indexes,
//! pinning it as a compatible-release specifier.
//!
//! The crate is a verified library: the specifier grammar, the
//! scanner's selection rules, the candidate evaluation and the version
//! arithmetic all carry contracts checked by Verus.  Reading files,
//! fetching pages and rewriting the manifest are left to the embedding
//! program, which drives the engine through plain values.
use vstd::prelude::*;

pub mod cli;
pub mod config;
pub mod dependency;
pub mod engine;
pub mod evaluator;
pub mod finder;
pub mod irregulars;
pub mod parser;
pub mod resolver;
pub mod stdlib;
pub mod strutil;

verus! {

} // verus!
