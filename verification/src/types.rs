//! Core circuit data: cell handles, gate records, wiring positions and the
//! parameter bundles consumed by the gadgets.

use vstd::prelude::*;
use crate::field::Fe;

verus! {

/// A handle on a circuit cell.
///
/// `index` identifies an equivalence class of cells that must hold equal
/// values; `value` is absent while enumerating gates and holds the concrete
/// field element while generating a witness.
#[derive(Clone, Copy, Debug, PartialEq, Eq)]
pub struct Var {
    pub index: usize,
    pub value: Option<Fe>,
}

impl Var {
    /// The value of the cell, as a natural number below the modulus.
    pub open spec fn val_n(self) -> nat {
        self.value.unwrap()@
    }

    /// The handle carries a canonical value, as every handle produced by the
    /// witness backend does.
    pub open spec fn val_wf(self) -> bool {
        self.value is Some && self.value.unwrap().wf()
    }

    /// Reads the concrete value of the cell.
    pub fn val(&self) -> (r: Fe)
        requires
            self.value is Some,
        ensures
            r == self.value.unwrap(),
            r@ == self.val_n(),
    {
        self.value.unwrap()
    }
}

/// A scalar carried in the `2·y + shift` encoding used by the
/// variable-base scalar-multiplication gadget; the circuit stores `y`.
#[derive(Clone, Copy, Debug)]
pub struct ShiftedScalar(pub Var);

/// The kind of constraint a row carries.
#[derive(Clone, Copy, Debug, PartialEq, Eq, Structural)]
pub enum GateType {
    Generic,
    Poseidon,
    CompleteAdd,
    VarBaseMul,
    EndoMul,
    Zero,
}

/// One emitted row: a gate kind, the cells of the row, and the
/// gate-specific coefficient vector.
#[derive(Clone, Debug)]
pub struct GateSpec {
    pub typ: GateType,
    pub row: Vec<Var>,
    pub coeffs: Vec<Fe>,
}

/// The values of a row of cells, as naturals.
pub open spec fn row_vals(row: Seq<Var>) -> Seq<nat> {
    row.map_values(|v: Var| v.val_n())
}

/// Every cell of the row carries a canonical value.
pub open spec fn row_has_vals(row: Seq<Var>) -> bool {
    forall|i: int| 0 <= i < row.len() ==> #[trigger] row[i].val_wf()
}

/// The values of a coefficient vector, as naturals.
pub open spec fn coeff_vals(coeffs: Seq<Fe>) -> Seq<nat> {
    coeffs.map_values(|f: Fe| f@)
}

/// A cell position: a row number and a column number.
#[derive(Clone, Copy, Debug, PartialEq, Eq, Structural)]
pub struct Wire {
    pub row: usize,
    pub col: usize,
}

/// A compiled gate: its kind, its coefficients, and one wiring target per
/// column encoding the copy-constraint permutation.
#[derive(Clone, Debug)]
pub struct CircuitGate {
    pub typ: GateType,
    pub wires: Vec<Wire>,
    pub coeffs: Vec<Fe>,
}

/// The Poseidon parameter bundle: the round-constant matrix and the MDS
/// matrix, both over the circuit field.
#[derive(Clone, Debug)]
pub struct PoseidonParams {
    pub round_constants: Vec<Vec<Fe>>,
    pub mds: Vec<Vec<Fe>>,
}

/// Width of the Poseidon state.
pub const SPONGE_WIDTH: usize = 3;

/// Full rounds of the Poseidon permutation.
pub const ROUNDS_FULL: usize = 55;

/// Rounds carried by one Poseidon row.
pub const ROUNDS_PER_ROW: usize = 5;

/// Rows emitted for one Poseidon permutation.
pub const POS_ROWS_PER_HASH: usize = 11;

impl PoseidonParams {
    /// The matrices have the shape the permutation expects: fifty-five
    /// rounds of three canonical constants, and a three-by-three MDS matrix
    /// of canonical entries.
    pub open spec fn wf(self) -> bool {
        &&& self.round_constants@.len() == ROUNDS_FULL
        &&& forall|r: int|
            0 <= r < self.round_constants@.len() ==> (#[trigger] self.round_constants@[r])@.len()
                == SPONGE_WIDTH
        &&& forall|r: int, j: int|
            0 <= r < self.round_constants@.len() && 0 <= j < SPONGE_WIDTH
                ==> (#[trigger] self.round_constants@[r]@[j]).wf()
        &&& self.mds@.len() == SPONGE_WIDTH
        &&& forall|r: int|
            0 <= r < self.mds@.len() ==> (#[trigger] self.mds@[r])@.len() == SPONGE_WIDTH
        &&& forall|r: int, j: int|
            0 <= r < self.mds@.len() && 0 <= j < SPONGE_WIDTH ==> (#[trigger] self.mds@[r]@[j]).wf()
    }

    /// The round-constant matrix as naturals.
    pub open spec fn rc(self) -> Seq<Seq<nat>> {
        self.round_constants@.map_values(|row: Vec<Fe>| coeff_vals(row@))
    }

    /// The MDS matrix as naturals.
    pub open spec fn mds_n(self) -> Seq<Seq<nat>> {
        self.mds@.map_values(|row: Vec<Fe>| coeff_vals(row@))
    }
}

/// The immutable bundle a circuit is built against: Poseidon parameters,
/// the curve-endomorphism coefficient, and the coordinates of the curve
/// generator.
#[derive(Clone, Debug)]
pub struct Constants {
    pub poseidon: PoseidonParams,
    pub endo: Fe,
    pub base_x: Fe,
    pub base_y: Fe,
}

/// An error found when a witness is checked against a gate.
#[derive(Debug)]
pub enum GateError {
    /// Two wired cells hold different values.
    DisconnectedWires(Wire, Wire),
    /// A public-input row is not toggled on its left wire.
    IncorrectPublic(usize),
    /// A gate's own constraint failed.
    Custom { row: usize, err: String },
}

/// An error found when a lookup constraint system is assembled.
#[derive(Debug)]
pub enum LookupError {
    /// A lookup table has columns of different lengths.
    InconsistentTableLength,
    /// The combined lookup table exceeds what the domain allows.
    LookupTableTooLong { length: usize, maximum_allowed: usize },
    /// The table with identifier zero lacks an all-zero entry.
    TableIDZeroMustHaveZeroEntry,
}

} // verus!
