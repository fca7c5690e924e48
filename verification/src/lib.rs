//! Annotates a raw execution log with source locations.
//!
//! The library holds the pure logic of the pipeline: extracting the
//! valid address range from a program-header dump, filtering the raw
//! log to lines whose address falls inside that range, parsing the
//! symbolizer's `file:line` output, and grouping consecutive log lines
//! that share a resolved source line under a single header block.
//! Invoking the external symbolizer and header-dump tools, and all
//! file reading and writing, happen outside the library, which only
//! ever sees and returns plain text.
#![verifier::loop_isolation(false)]

pub mod annotate;
pub mod config;
pub mod filter;
pub mod locate;
pub mod range;
pub mod numbers;
pub mod replace;
pub mod text;
