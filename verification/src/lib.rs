//! Static analysis of parsed Sway modules.
//!
//! The crate holds a syntax tree of its own ([`ast`]), pure extractors over
//! that tree ([`utils`]), a traversal engine ([`visitor`]), the report that
//! findings go to ([`report`]) and the detectors that make them
//! ([`detectors`]).  Every executable function carries a contract over the
//! spec functions defined beside it, and what holds of an analysis as a whole
//! is proved beside the detector.

pub mod text;
pub mod ast;
pub mod utils;
pub mod span_map;
pub mod report;
pub mod visitor;
pub mod visitor_laws;
pub mod detectors;
