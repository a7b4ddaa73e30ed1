//! The coset shifts of the permutation argument.
//!
//! One shift per permutable column creates a distinct coset of the
//! evaluation domain; the table maps every cell position to its shifted
//! domain element.  Sampling the shifts themselves requires the hash and
//! field machinery of the proving stack, so a `Shifts` value is built
//! from already sampled data.

use vstd::prelude::*;
use crate::PERMUTS;
use crate::field::Fe;
use crate::types::Wire;

verus! {

/// The shift constants of the permutation argument together with the
/// table of shifted domain elements, one row of the table per permutable
/// column.
pub struct Shifts {
    pub shifts: Vec<Fe>,
    pub map: Vec<Vec<Fe>>,
}

impl Shifts {
    /// One shift and one table row per permutable column.
    pub open spec fn wf(self) -> bool {
        &&& self.shifts@.len() == PERMUTS
        &&& self.map@.len() == PERMUTS
    }

    /// Assembles the shifts from sampled constants and the table of
    /// shifted domain elements.
    pub fn from_parts(shifts: Vec<Fe>, map: Vec<Vec<Fe>>) -> (r: Shifts)
        requires
            shifts@.len() == PERMUTS,
            map@.len() == PERMUTS,
        ensures
            r.wf(),
            r.shifts == shifts,
            r.map == map,
    {
        Shifts { shifts, map }
    }

    /// The shift constants, one per permutable column.
    pub fn shifts(&self) -> (r: &Vec<Fe>)
        ensures
            r == &self.shifts,
    {
        &self.shifts
    }

    /// The shifted domain element standing for a cell position.
    pub fn cell_to_field(&self, w: &Wire) -> (r: Fe)
        requires
            w.col < self.map@.len(),
            w.row < self.map@[w.col as int]@.len(),
        ensures
            r == self.map@[w.col as int]@[w.row as int],
    {
        self.map[w.col][w.row]
    }
}

} // verus!
