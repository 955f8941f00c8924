//! Analysis of JavaScript and TypeScript projects.
//!
//! A project is a set of files held in memory ([`vfs`]). A first look tells
//! what they are for ([`scan`]); the stages of the engine parse them, collect
//! symbols, imports and references, and build control flow ([`engine`]).
pub mod adapter;
pub mod engine;
pub mod error;
pub mod panic_safety;
pub mod report;
pub mod scan;
pub mod string_map;
pub mod text;
pub mod vfs;
