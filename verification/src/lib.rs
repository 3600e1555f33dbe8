//! A hunk engine for line-level change selection: it extracts discrete hunks
//! from the edit script between two texts, gives each hunk a stable
//! content-addressed identity, and reconstructs an output text from a chosen
//! subset of hunks.  A small glob matcher decides which file paths take part,
//! and a spec model maps file paths to keep/reset/selection decisions.

pub mod strutil;
pub mod lines;
pub mod ident;
pub mod glob;
pub mod diff;
pub mod filespec;
pub mod commands;
pub mod render;
