//! Circuit-construction frontend for a PLONK-style proof system.
//!
//! The library lets a caller author an arithmetic circuit over the Pasta
//! base field and, from the same gadget calls, obtain both the circuit
//! description (gates plus copy-constraint wiring) and a satisfying
//! execution trace (witness rows).

use vstd::prelude::*;

pub mod field;
pub mod types;
pub mod writer;
pub mod poseidon;
pub mod compile;
pub mod shifts;
pub mod endo;
pub mod laws;
pub mod pack;

verus! {

/// Number of columns in a circuit row.
pub const COLUMNS: usize = 15;

/// Number of permutable columns.
pub const PERMUTS: usize = 7;

/// Number of trailing blinding rows appended by the zero-knowledge padding.
pub const ZK_ROWS: usize = 3;

/// Cells constrained by one sub-gate of the double generic gate.
pub const GENERICS: usize = 3;

/// Coefficients of a single generic sub-gate.
pub const SINGLE_GENERIC_COEFFS: usize = 5;

/// Coefficients carried by one double generic row.
pub const GENERIC_ROW_COEFFS: usize = 10;

} // verus!
