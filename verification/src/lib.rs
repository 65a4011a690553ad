//! Skill package system: parsing of source addresses, discovery of skill
//! bundles, installation planning with collision-safe naming, and a runtime
//! catalog that merges precedence-ordered roots under platform and
//! dependency gates.
#![allow(unused_imports)]

pub mod activate;
pub mod discover;
pub mod errors;
pub mod frontmatter;
pub mod hub;
pub mod install;
pub mod laws;
pub mod manager;
pub mod memory;
pub mod sanitize;
pub mod shell;
pub mod source;
pub mod strutil;
pub mod summarizer;
pub mod web;
