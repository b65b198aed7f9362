//! Power analysis for classical hypothesis-test designs: the exact,
//! integer-valued parts of the analysis.
//!
//! The library builds a test design from a textual field set (integers and
//! exact decimals, with the nonsphericity bound of the repeated-measures
//! designs), selects the tail of a test, and drives the windowed search for a
//! sample size. The floating-point distribution math sits outside it.
pub mod design;
pub mod fields;
pub mod numbers;
pub mod search;
