//! Molecular mass of chemical formulas, abbreviation tokens and biopolymer
//! letter codes, computed against in-memory element weight tables.
//!
//! Masses are fixed-point integers in nanodaltons (10^-9 Da).

pub mod formula;
pub mod table;
pub mod mass;
pub mod laws;
