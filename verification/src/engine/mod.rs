//! The analysis proper: from source files to symbols, imports, references
//! and control flow.
pub mod analyse;
pub mod batch;
pub mod cfg;
pub mod parse;
pub mod references;
pub mod resolve;
pub mod semantic;
