//! Assembles a directory of cross-section slice files into one dense volume.
//!
//! The slice files are put into one total order by name, each is decoded into
//! a grid of intensity samples, and the grids are stacked in that order into a
//! single contiguous buffer that a renderer can sample.

pub mod assembler;
pub mod coordinator;
pub mod decoder;
pub mod error;
pub mod locator;
pub mod pipeline;
pub mod slice;
pub mod timing;
