//! A link checker for a deployed site: crawl from a starting URL, report every
//! link underneath it that is not alive, and fail the build if any are.
//!
//! This crate holds the checker's decisions and its bookkeeping; the network,
//! the browser and the process live in the program around it.

pub mod address;
pub mod check;
pub mod cli;
pub mod crawl;
pub mod extract;
pub mod render;
pub mod report;
pub mod scope;
pub mod text;
