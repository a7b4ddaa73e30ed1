//! The dual-mode circuit builder.
//!
//! A user program is written once against [`Cs`] and run twice: once in
//! circuit mode, where fresh cell indices are enumerated and gate records
//! collected, and once in witness mode, where concrete cell values are
//! computed and accumulated as witness rows.  Both modes walk the same code
//! path, so cells are allocated and rows emitted in the same sequence.

use vstd::prelude::*;
use crate::COLUMNS;
use crate::GENERIC_ROW_COEFFS;
use crate::field::Fe;
use crate::field::fadd;
use crate::field::fsub;
use crate::field::fmul;
use crate::field::fneg;
use crate::field::finv;
use crate::field::p;
use crate::field::fdiv;
use crate::field::fe_add;
use crate::field::fe_sub;
use crate::field::fe_mul;
use crate::field::fe_neg;
use crate::field::fe_div;
use crate::field::fe_inv;
use crate::field::fe_square;
use crate::field::fe_double;
use crate::field::lemma_finv_is;
use crate::field::lemma_fsub_zero_iff;
use crate::field::lemma_fdouble_nonzero;
use crate::field::fe_rand;
use crate::types::GateSpec;
use crate::types::GateType;
use crate::types::ShiftedScalar;
use crate::types::Var;
use crate::types::coeff_vals;
use crate::types::row_has_vals;
use crate::types::row_vals;

verus! {

/// The circuit backend: enumerates fresh cell indices and collects the
/// emitted gate records.
pub struct System {
    pub next_variable: usize,
    pub gates: Vec<GateSpec>,
}

/// The witness backend: accumulates one row of concrete values per emitted
/// gate.
pub struct WitnessGenerator {
    pub rows: Vec<Vec<Fe>>,
}

/// The builder a user program is written against: one of the two backends.
pub enum Cs {
    Circuit(System),
    Witness(WitnessGenerator),
}

impl System {
    /// Every collected gate has a full row of cells.
    pub open spec fn wf(self) -> bool {
        forall|i: int|
            0 <= i < self.gates@.len() ==> (#[trigger] self.gates@[i]).row@.len() == COLUMNS
    }

    /// An empty circuit: no cells allocated, no gates emitted.
    pub fn new() -> (r: System)
        ensures
            r.next_variable == 0,
            r.gates@ =~= Seq::<GateSpec>::empty(),
            r.wf(),
    {
        System { next_variable: 0, gates: Vec::new() }
    }
}

impl WitnessGenerator {
    /// The values of the accumulated rows.
    pub open spec fn rows_n(self) -> Seq<Seq<nat>> {
        self.rows@.map_values(|r: Vec<Fe>| r@.map_values(|f: Fe| f@))
    }

    /// Every accumulated row is full and holds canonical values.
    pub open spec fn wf(self) -> bool {
        &&& forall|i: int|
            0 <= i < self.rows@.len() ==> (#[trigger] self.rows@[i])@.len() == COLUMNS
        &&& forall|i: int, j: int|
            0 <= i < self.rows@.len() && 0 <= j < COLUMNS ==> (#[trigger] self.rows@[i]@[j]).wf()
    }

    /// An empty witness: no rows accumulated.
    pub fn new() -> (r: WitnessGenerator)
        ensures
            r.rows@ =~= Seq::<Vec<Fe>>::empty(),
            r.rows_n() =~= Seq::<Seq<nat>>::empty(),
            r.wf(),
    {
        WitnessGenerator { rows: Vec::new() }
    }
}

impl Cs {
    /// Whether this is the witness backend.
    pub open spec fn is_witness(self) -> bool {
        self is Witness
    }

    /// The number of rows emitted so far: gate records in circuit mode,
    /// witness rows in witness mode.
    pub open spec fn gate_count(self) -> nat {
        match self {
            Cs::Circuit(s) => s.gates@.len(),
            Cs::Witness(w) => w.rows@.len(),
        }
    }

    /// The number of cells allocated so far; the witness backend does not
    /// count cells.
    pub open spec fn nvars(self) -> nat {
        match self {
            Cs::Circuit(s) => s.next_variable as nat,
            Cs::Witness(_) => 0,
        }
    }

    /// The collected gate records; empty for the witness backend.
    pub open spec fn gates_seq(self) -> Seq<GateSpec> {
        match self {
            Cs::Circuit(s) => s.gates@,
            Cs::Witness(_) => Seq::empty(),
        }
    }

    /// The accumulated witness row values; empty for the circuit backend.
    pub open spec fn rows_n(self) -> Seq<Seq<nat>> {
        match self {
            Cs::Circuit(_) => Seq::empty(),
            Cs::Witness(w) => w.rows_n(),
        }
    }

    /// The backend's own invariant.
    pub open spec fn wf(self) -> bool {
        match self {
            Cs::Circuit(s) => s.wf(),
            Cs::Witness(w) => w.wf(),
        }
    }

    /// A cell handle fits this backend: in witness mode it carries a
    /// canonical value.
    pub open spec fn compat(self, v: Var) -> bool {
        self.is_witness() ==> v.val_wf()
    }

    /// Whether this is the witness backend.
    pub fn witness_mode(&self) -> (r: bool)
        ensures
            r == self.is_witness(),
    {
        match self {
            Cs::Witness(_) => true,
            Cs::Circuit(_) => false,
        }
    }

    /// The number of rows emitted so far.
    pub fn curr_gate_count(&self) -> (r: usize)
        ensures
            r == self.gate_count(),
    {
        match self {
            Cs::Circuit(s) => s.gates.len(),
            Cs::Witness(w) => w.rows.len(),
        }
    }
}

impl WitnessGenerator {
    /// Reads the accumulated witness out as column-major vectors.
    pub fn columns(&self) -> (cols: Vec<Vec<Fe>>)
        requires
            self.wf(),
        ensures
            cols@.len() == COLUMNS,
            forall|j: int|
                0 <= j < cols@.len() ==> (#[trigger] cols@[j])@.len() == self.rows@.len(),
            forall|j: int, i: int|
                0 <= j < cols@.len() && 0 <= i < self.rows@.len() ==> (#[trigger] cols@[j]@[i])
                    == self.rows@[i]@[j],
    {
        let mut cols: Vec<Vec<Fe>> = Vec::new();
        let mut j: usize = 0;
        while j < COLUMNS
            invariant
                0 <= j <= COLUMNS,
                self.wf(),
                cols@.len() == j,
                forall|j2: int|
                    0 <= j2 < j ==> (#[trigger] cols@[j2])@.len() == self.rows@.len(),
                forall|j2: int, i: int|
                    0 <= j2 < j && 0 <= i < self.rows@.len() ==> (#[trigger] cols@[j2]@[i])
                        == self.rows@[i]@[j2],
            decreases COLUMNS - j,
        {
            let mut col: Vec<Fe> = Vec::new();
            let mut i: usize = 0;
            while i < self.rows.len()
                invariant
                    0 <= i <= self.rows@.len(),
                    j < COLUMNS,
                    self.wf(),
                    col@.len() == i,
                    forall|i2: int|
                        0 <= i2 < i ==> (#[trigger] col@[i2]) == self.rows@[i2]@[j as int],
                decreases self.rows@.len() - i,
            {
                col.push(self.rows[i][j]);
                i = i + 1;
            }
            cols.push(col);
            j = j + 1;
        }
        cols
    }
}

impl Cs {
    /// Starts a circuit run: an empty circuit backend together with one
    /// public-input cell per requested input, each pinned by a generic
    /// row whose coefficients toggle only the left wire.
    pub fn circuit_with_public(public: usize) -> (r: (Cs, Vec<Var>))
        requires
            15 * public <= usize::MAX,
        ensures
            r.0.wf(),
            !r.0.is_witness(),
            r.0.gate_count() == public,
            r.0.nvars() == 15 * public,
            r.1@.len() == public,
            forall|i: int|
                0 <= i < public ==> (#[trigger] r.1@[i]) == (Var {
                    index: (15 * i) as usize,
                    value: None::<Fe>,
                }),
            forall|i: int|
                0 <= i < public ==> #[trigger] generic_gate_row(
                    r.0.gates_seq(),
                    i,
                    seq![(Var { index: (15 * i) as usize, value: None::<Fe> })],
                    gcoeffs(1, 0, 0, 0, 0),
                    (15 * i + 1) as nat,
                ),
    {
        let mut cs = Cs::Circuit(System::new());
        let mut vars: Vec<Var> = Vec::new();
        let one = Fe::one();
        let z = Fe::zero();
        let mut i: usize = 0;
        while i < public
            invariant
                0 <= i <= public,
                15 * public <= usize::MAX,
                cs.wf(),
                !cs.is_witness(),
                cs.gate_count() == i,
                cs.nvars() == 15 * i,
                one@ == 1 && z@ == 0,
                vars@.len() == i,
                forall|m: int|
                    0 <= m < i ==> (#[trigger] vars@[m]) == (Var {
                        index: (15 * m) as usize,
                        value: None::<Fe>,
                    }),
                forall|m: int|
                    0 <= m < i ==> #[trigger] generic_gate_row(
                        cs.gates_seq(),
                        m,
                        seq![(Var { index: (15 * m) as usize, value: None::<Fe> })],
                        gcoeffs(1, 0, 0, 0, 0),
                        (15 * m + 1) as nat,
                    ),
            decreases public - i,
        {
            let ghost gprev = cs.gates_seq();
            let v = cs.var(None);
            let mut cells: Vec<Var> = Vec::new();
            cells.push(v);
            proof {
                assert(seq![v] =~= cells@);
            }
            cs.generic(cells, one, z, z, z, z);
            vars.push(v);
            proof {
                assert forall|x: int| 0 <= x < gprev.len() implies #[trigger] cs.gates_seq()[x]
                    == gprev[x] by {
                    assert(cs.gates_seq() == gprev.push(cs.gates_seq().last()));
                }
                assert forall|m: int| 0 <= m < i + 1 implies #[trigger] generic_gate_row(
                    cs.gates_seq(),
                    m,
                    seq![(Var { index: (15 * m) as usize, value: None::<Fe> })],
                    gcoeffs(1, 0, 0, 0, 0),
                    (15 * m + 1) as nat,
                ) by {
                    if m < i {
                        assert(generic_gate_row(
                            gprev,
                            m,
                            seq![(Var { index: (15 * m) as usize, value: None::<Fe> })],
                            gcoeffs(1, 0, 0, 0, 0),
                            (15 * m + 1) as nat,
                        ));
                        assert(cs.gates_seq()[m] == gprev[m]);
                    } else {
                        assert(v == (Var { index: (15 * m) as usize, value: None::<Fe> }));
                    }
                }
            }
            i = i + 1;
        }
        (cs, vars)
    }

    /// Starts a witness run: a witness backend seeded with one row per
    /// public input, carrying the input in the first column, together
    /// with the value-bearing cells of those inputs.
    pub fn witness_with_public(public: &Vec<Fe>) -> (r: (Cs, Vec<Var>))
        requires
            forall|i: int| 0 <= i < public@.len() ==> (#[trigger] public@[i]).wf(),
        ensures
            r.0.wf(),
            r.0.is_witness(),
            r.0.gate_count() == public@.len(),
            r.0.rows_n().len() == public@.len(),
            forall|i: int|
                0 <= i < public@.len() ==> (#[trigger] r.0.rows_n()[i]) == padded(
                    seq![public@[i]@],
                ),
            r.1@.len() == public@.len(),
            forall|i: int|
                0 <= i < public@.len() ==> (#[trigger] r.1@[i]) == (Var {
                    index: 0,
                    value: Some(public@[i]),
                }),
    {
        let mut w = WitnessGenerator::new();
        let mut vars: Vec<Var> = Vec::new();
        let z = Fe::zero();
        let mut i: usize = 0;
        while i < public.len()
            invariant
                0 <= i <= public@.len(),
                forall|m: int| 0 <= m < public@.len() ==> (#[trigger] public@[m]).wf(),
                z@ == 0,
                w.wf(),
                w.rows_n().len() == i,
                w.rows@.len() == i,
                forall|m: int|
                    0 <= m < i ==> (#[trigger] w.rows_n()[m]) == padded(seq![public@[m]@]),
                vars@.len() == i,
                forall|m: int|
                    0 <= m < i ==> (#[trigger] vars@[m]) == (Var {
                        index: 0,
                        value: Some(public@[m]),
                    }),
            decreases public@.len() - i,
        {
            let x = public[i];
            let mut row: Vec<Fe> = Vec::new();
            row.push(x);
            let mut j: usize = 1;
            while j < COLUMNS
                invariant
                    1 <= j <= COLUMNS,
                    i < public@.len(),
                    forall|m: int| 0 <= m < public@.len() ==> (#[trigger] public@[m]).wf(),
                    x == public@[i as int],
                    z@ == 0,
                    row@.len() == j,
                    row@[0] == x,
                    forall|m: int| 1 <= m < j ==> (#[trigger] row@[m])@ == 0 && row@[m].wf(),
                decreases COLUMNS - j,
            {
                row.push(z);
                j = j + 1;
            }
            proof {
                assert(row@.map_values(|f: Fe| f@) =~= padded(seq![public@[i as int]@]));
            }
            let ghost wprev = w.rows_n();
            w.rows.push(row);
            vars.push(Var { index: 0, value: Some(x) });
            proof {
                assert(w.rows_n() =~~= wprev.push(padded(seq![public@[i as int]@])));
                assert forall|m: int|
                    0 <= m < w.rows@.len() implies (#[trigger] w.rows@[m])@.len() == COLUMNS
                    && forall|kk: int|
                    0 <= kk < COLUMNS ==> (#[trigger] w.rows@[m]@[kk]).wf() by {}
            }
            i = i + 1;
        }
        (Cs::Witness(w), vars)
    }
}

/// The step relation of the builder: `post` is `pre` with `k` more cells
/// allocated and nothing else changed.
pub open spec fn advanced(pre: Cs, post: Cs, k: nat) -> bool {
    match (pre, post) {
        (Cs::Circuit(s1), Cs::Circuit(s2)) => {
            &&& s2.gates == s1.gates
            &&& s2.next_variable == s1.next_variable + k
        }
        (Cs::Witness(w1), Cs::Witness(w2)) => w2 == w1,
        _ => false,
    }
}

impl Cs {
    /// Allocates a fresh cell.
    ///
    /// The circuit backend ignores the value and hands out the next index;
    /// the witness backend stores the value under the conventional index
    /// zero.
    pub fn var(&mut self, value: Option<Fe>) -> (v: Var)
        requires
            old(self).is_witness() ==> value is Some && value.unwrap().wf(),
            !old(self).is_witness() ==> old(self).nvars() + 1 <= usize::MAX,
        ensures
            advanced(*old(self), *final(self), 1),
            old(self).is_witness() ==> v == (Var { index: 0, value }),
            !old(self).is_witness() ==> v == (Var {
                index: old(self).nvars() as usize,
                value: None::<Fe>,
            }),
            old(self).compat(v),
    {
        match self {
            Cs::Circuit(s) => {
                let i = s.next_variable;
                s.next_variable = i + 1;
                Var { index: i, value: None }
            }
            Cs::Witness(_) => Var { index: 0, value },
        }
    }

    /// Appends one row.
    ///
    /// The circuit backend keeps the record; the witness backend
    /// stores the concrete values of the row's cells and discards the kind
    /// and the coefficients.
    pub fn gate(&mut self, g: GateSpec)
        requires
            g.row@.len() == COLUMNS,
            old(self).is_witness() ==> row_has_vals(g.row@),
        ensures
            final(self).is_witness() == old(self).is_witness(),
            final(self).nvars() == old(self).nvars(),
            final(self).gate_count() == old(self).gate_count() + 1,
            (old(self).wf() ==> final(self).wf()),
            !old(self).is_witness() ==> final(self).gates_seq() == old(self).gates_seq().push(g),
            !old(self).is_witness() ==> final(self).rows_n() == old(self).rows_n(),
            old(self).is_witness() ==> final(self).rows_n() == old(self).rows_n().push(
                row_vals(g.row@),
            ),
            old(self).is_witness() ==> final(self).gates_seq() == old(self).gates_seq(),
    {
        match self {
            Cs::Circuit(s) => {
                s.gates.push(g);
                proof {
                    if old(self).wf() {
                        assert forall|i: int| 0 <= i < s.gates@.len() implies (#[trigger] s.gates@[i]).row@.len()
                            == COLUMNS by {
                            if i < s.gates@.len() - 1 {
                                assert(s.gates@[i] == old(self)->Circuit_0.gates@[i]);
                            }
                        }
                    }
                }
            }
            Cs::Witness(w) => {
                let mut vals: Vec<Fe> = Vec::new();
                let mut j: usize = 0;
                while j < g.row.len()
                    invariant
                        0 <= j <= g.row@.len(),
                        row_has_vals(g.row@),
                        vals@.len() == j,
                        forall|k: int|
                            0 <= k < j ==> (#[trigger] vals@[k]) == g.row@[k].value.unwrap(),
                    decreases g.row@.len() - j,
                {
                    proof {
                        assert(g.row@[j as int].val_wf());
                    }
                    vals.push(g.row[j].val());
                    j = j + 1;
                }
                proof {
                    assert(vals@.map_values(|f: Fe| f@) =~= row_vals(g.row@));
                }
                let ghost gvals = vals@;
                w.rows.push(vals);
                proof {
                    assert(w.rows_n() =~~= old(self)->Witness_0.rows_n().push(row_vals(g.row@)));
                    if old(self).wf() {
                        assert forall|i: int| 0 <= i < w.rows@.len() implies (#[trigger] w.rows@[i])@.len()
                            == COLUMNS by {
                            if i < w.rows@.len() - 1 {
                                assert(w.rows@[i] == old(self)->Witness_0.rows@[i]);
                            } else {
                                assert(w.rows@[i]@ == gvals);
                            }
                        }
                        assert forall|i: int, k: int|
                            0 <= i < w.rows@.len() && 0 <= k < COLUMNS implies (
                        #[trigger] w.rows@[i]@[k]).wf() by {
                            if i < w.rows@.len() - 1 {
                                assert(w.rows@[i] == old(self)->Witness_0.rows@[i]);
                            } else {
                                assert(w.rows@[i]@ == gvals);
                                assert(g.row@[k].val_wf());
                            }
                        }
                    }
                }
            }
        }
    }
}

/// The first sub-gate of a double generic row is satisfied by the row's
/// values: the linear-multiplicative relation evaluates to zero.
pub open spec fn generic_ok(c: Seq<nat>, v: Seq<nat>) -> bool
    recommends
        c.len() >= 5,
        v.len() >= 3,
{
    (c[0] * v[0] + c[1] * v[1] + c[2] * v[2] + c[3] * (v[0] * v[1]) + c[4]) % p() == 0
}

/// The tail of a row, from position `k` on, consists of fresh unvalued
/// cells with consecutive indices starting at `start`.
pub open spec fn fresh_tail(row: Seq<Var>, k: int, start: nat) -> bool {
    forall|j: int|
        k <= j < row.len() ==> (#[trigger] row[j]).value is None && row[j].index == start + (j - k)
}

impl Cs {
    /// Allocates a filler cell holding zero in witness mode.
    pub(crate) fn var_zero(&mut self) -> (v: Var)
        requires
            !old(self).is_witness() ==> old(self).nvars() + 1 <= usize::MAX,
        ensures
            advanced(*old(self), *final(self), 1),
            old(self).is_witness() ==> v.val_wf() && v.val_n() == 0,
            !old(self).is_witness() ==> v == (Var {
                index: old(self).nvars() as usize,
                value: None::<Fe>,
            }),
            old(self).compat(v),
    {
        let vv = if self.witness_mode() {
            Some(Fe::zero())
        } else {
            None
        };
        self.var(vv)
    }

    /// Extends a partial row with fresh zero fillers to full width.
    pub(crate) fn fill_row(&mut self, row: Vec<Var>) -> (r: Vec<Var>)
        requires
            row@.len() <= COLUMNS,
            !old(self).is_witness() ==> old(self).nvars() + (COLUMNS - row@.len()) <= usize::MAX,
        ensures
            advanced(*old(self), *final(self), (COLUMNS - row@.len()) as nat),
            r@.len() == COLUMNS,
            r@.subrange(0, row@.len() as int) == row@,
            old(self).is_witness() ==> forall|j: int|
                row@.len() <= j < COLUMNS ==> (#[trigger] r@[j]).val_wf() && r@[j].val_n() == 0,
            !old(self).is_witness() ==> fresh_tail(r@, row@.len() as int, old(self).nvars()),
    {
        let ghost k = row@.len();
        let ghost pre = *old(self);
        let mut r = row;
        while r.len() < COLUMNS
            invariant
                k <= r@.len() <= COLUMNS,
                advanced(pre, *self, (r@.len() - k) as nat),
                !pre.is_witness() ==> pre.nvars() + (COLUMNS - k) <= usize::MAX,
                pre.is_witness() == self.is_witness(),
                r@.subrange(0, k as int) == row@,
                pre.is_witness() ==> forall|j: int|
                    k <= j < r@.len() ==> (#[trigger] r@[j]).val_wf() && r@[j].val_n() == 0,
                !pre.is_witness() ==> fresh_tail(r@, k as int, pre.nvars()),
            decreases COLUMNS - r@.len(),
        {
            let v = self.var_zero();
            r.push(v);
            proof {
                assert(r@.subrange(0, k as int) == row@);
            }
        }
        r
    }

    /// Builds the coefficient vector of a double generic row whose second
    /// sub-gate is unused.
    fn generic_coeffs(ql: Fe, qr: Fe, qo: Fe, qm: Fe, qc: Fe) -> (r: Vec<Fe>)
        ensures
            r@.len() == GENERIC_ROW_COEFFS,
            coeff_vals(r@) == seq![ql@, qr@, qo@, qm@, qc@, 0nat, 0nat, 0nat, 0nat, 0nat],
    {
        let z = Fe::zero();
        let mut r: Vec<Fe> = Vec::new();
        r.push(ql);
        r.push(qr);
        r.push(qo);
        r.push(qm);
        r.push(qc);
        r.push(z);
        r.push(z);
        r.push(z);
        r.push(z);
        r.push(z);
        proof {
            assert(coeff_vals(r@) =~= seq![ql@, qr@, qo@, qm@, qc@, 0nat, 0nat, 0nat, 0nat, 0nat]);
        }
        r
    }

}

/// Pads a partial row of values with zeros to full width.
pub open spec fn padded(s: Seq<nat>) -> Seq<nat>
    recommends
        s.len() <= COLUMNS,
{
    s + Seq::new((COLUMNS - s.len()) as nat, |i: int| 0nat)
}

/// The first-sub-gate coefficient vector of a double generic row whose
/// second sub-gate is unused.
pub open spec fn gcoeffs(ql: nat, qr: nat, qo: nat, qm: nat, qc: nat) -> Seq<nat> {
    seq![ql, qr, qo, qm, qc, 0nat, 0nat, 0nat, 0nat, 0nat]
}

/// Position `r` holds a generic row carrying the given leading
/// cells, the given coefficient values, and fresh unvalued fillers whose
/// indices run from `fill_start`.
pub open spec fn generic_gate_row(
    gs: Seq<GateSpec>,
    r: int,
    cells: Seq<Var>,
    cv: Seq<nat>,
    fill_start: nat,
) -> bool {
    &&& 0 <= r < gs.len()
    &&& gs[r].typ == GateType::Generic
    &&& gs[r].row@.len() == COLUMNS
    &&& coeff_vals(gs[r].coeffs@) == cv
    &&& forall|i: int| 0 <= i < cells.len() ==> gs[r].row@[i] == cells[i]
    &&& fresh_tail(gs[r].row@, cells.len() as int, fill_start)
}

impl Cs {
    /// Emits one generic row: the given leading cells followed by fresh
    /// zero fillers, under the given first-sub-gate coefficients.
    fn generic(&mut self, cells: Vec<Var>, ql: Fe, qr: Fe, qo: Fe, qm: Fe, qc: Fe)
        requires
            old(self).wf(),
            cells@.len() <= COLUMNS,
            old(self).is_witness() ==> row_has_vals(cells@),
            !old(self).is_witness() ==> old(self).nvars() + COLUMNS - cells@.len() <= usize::MAX,
        ensures
            final(self).wf(),
            final(self).is_witness() == old(self).is_witness(),
            final(self).gate_count() == old(self).gate_count() + 1,
            final(self).nvars() == old(self).nvars() + (if old(self).is_witness() {
                0nat
            } else {
                (COLUMNS - cells@.len()) as nat
            }),
            old(self).is_witness() ==> final(self).rows_n() == old(self).rows_n().push(
                padded(row_vals(cells@)),
            ),
            old(self).is_witness() ==> final(self).gates_seq() == old(self).gates_seq(),
            !old(self).is_witness() ==> final(self).rows_n() == old(self).rows_n(),
            !old(self).is_witness() ==> final(self).gates_seq() == old(self).gates_seq().push(
                final(self).gates_seq().last(),
            ),
            !old(self).is_witness() ==> generic_gate_row(
                final(self).gates_seq(),
                old(self).gate_count() as int,
                cells@,
                gcoeffs(ql@, qr@, qo@, qm@, qc@),
                old(self).nvars(),
            ),
    {
        let ghost k = cells@.len();
        let row = self.fill_row(cells);
        let coeffs = Self::generic_coeffs(ql, qr, qo, qm, qc);
        proof {
            assert forall|i: int| 0 <= i < k implies row@[i] == cells@[i] by {
                assert(row@.subrange(0, k as int)[i] == row@[i]);
            }
            if old(self).is_witness() {
                assert(row_has_vals(row@)) by {
                    assert forall|j: int| 0 <= j < row@.len() implies (
                    #[trigger] row@[j]).val_wf() by {
                        if j < k {
                            assert(cells@[j].val_wf());
                        }
                    }
                }
                assert(row_vals(row@) =~= padded(row_vals(cells@)));
            }
        }
        self.gate(GateSpec { typ: GateType::Generic, row, coeffs });
    }

    /// Emits one generic row the way the row-overwriting gadgets do: a
    /// full row of fresh zero fillers is allocated first, and the leading
    /// cells then replace the fillers in front.
    fn generic_overwrite(&mut self, cells: Vec<Var>, ql: Fe, qr: Fe, qo: Fe, qm: Fe, qc: Fe)
        requires
            old(self).wf(),
            cells@.len() <= COLUMNS,
            old(self).is_witness() ==> row_has_vals(cells@),
            !old(self).is_witness() ==> old(self).nvars() + COLUMNS <= usize::MAX,
        ensures
            final(self).wf(),
            final(self).is_witness() == old(self).is_witness(),
            final(self).gate_count() == old(self).gate_count() + 1,
            final(self).nvars() == old(self).nvars() + (if old(self).is_witness() {
                0nat
            } else {
                COLUMNS as nat
            }),
            old(self).is_witness() ==> final(self).rows_n() == old(self).rows_n().push(
                padded(row_vals(cells@)),
            ),
            old(self).is_witness() ==> final(self).gates_seq() == old(self).gates_seq(),
            !old(self).is_witness() ==> final(self).rows_n() == old(self).rows_n(),
            !old(self).is_witness() ==> final(self).gates_seq() == old(self).gates_seq().push(
                final(self).gates_seq().last(),
            ),
            !old(self).is_witness() ==> generic_gate_row(
                final(self).gates_seq(),
                old(self).gate_count() as int,
                cells@,
                gcoeffs(ql@, qr@, qo@, qm@, qc@),
                (old(self).nvars() + cells@.len()) as nat,
            ),
    {
        let ghost k = cells@.len();
        let fillers: Vec<Var> = Vec::new();
        let mut row = self.fill_row(fillers);
        let mut i: usize = 0;
        while i < cells.len()
            invariant
                0 <= i <= cells@.len() <= COLUMNS,
                row@.len() == COLUMNS,
                forall|j: int| 0 <= j < i ==> row@[j] == cells@[j],
                old(self).is_witness() ==> row_has_vals(cells@),
                old(self).is_witness() == self.is_witness(),
                self.is_witness() ==> forall|j: int|
                    i <= j < COLUMNS ==> (#[trigger] row@[j]).val_wf() && row@[j].val_n() == 0,
                !self.is_witness() ==> fresh_tail(row@, i as int, (old(self).nvars() + i) as nat),
            decreases cells@.len() - i,
        {
            row.set(i, cells[i]);
            i = i + 1;
        }
        let coeffs = Self::generic_coeffs(ql, qr, qo, qm, qc);
        proof {
            if old(self).is_witness() {
                assert(row_has_vals(row@)) by {
                    assert forall|j: int| 0 <= j < row@.len() implies (
                    #[trigger] row@[j]).val_wf() by {
                        if j < k {
                            assert(cells@[j].val_wf());
                        }
                    }
                }
                assert(row_vals(row@) =~= padded(row_vals(cells@)));
            }
        }
        self.gate(GateSpec { typ: GateType::Generic, row, coeffs });
    }
}

/// The bookkeeping common to every gadget call: the backend kind and its
/// invariant are kept, `k_rows` rows are emitted and, in circuit mode,
/// `k_vars` fresh cells are allocated.
pub open spec fn stepped(pre: Cs, post: Cs, k_rows: nat, k_vars: nat) -> bool {
    &&& post.is_witness() == pre.is_witness()
    &&& (pre.wf() ==> post.wf())
    &&& post.gate_count() == pre.gate_count() + k_rows
    &&& post.nvars() == pre.nvars() + (if pre.is_witness() {
        0nat
    } else {
        k_vars
    })
    &&& (pre.is_witness() ==> post.gates_seq() == pre.gates_seq())
    &&& (!pre.is_witness() ==> post.rows_n() == pre.rows_n())
}

impl Cs {
    /// Constrains `x1 + x2 - res = 0` on one generic row and returns `res`.
    pub fn add(&mut self, x1: Var, x2: Var) -> (res: Var)
        requires
            old(self).wf(),
            old(self).compat(x1),
            old(self).compat(x2),
            !old(self).is_witness() ==> old(self).nvars() + 13 <= usize::MAX,
        ensures
            stepped(*old(self), *final(self), 1, 13),
            final(self).compat(res),
            old(self).is_witness() ==> res.val_n() == fadd(x1.val_n(), x2.val_n()),
            old(self).is_witness() ==> final(self).rows_n() == old(self).rows_n().push(
                padded(seq![x1.val_n(), x2.val_n(), fadd(x1.val_n(), x2.val_n())]),
            ),
            !old(self).is_witness() ==> res == (Var {
                index: old(self).nvars() as usize,
                value: None::<Fe>,
            }),
            !old(self).is_witness() ==> generic_gate_row(
                final(self).gates_seq(),
                old(self).gate_count() as int,
                seq![x1, x2, res],
                gcoeffs(1, 1, fneg(1), 0, 0),
                old(self).nvars() + 1,
            ) && final(self).gates_seq() == old(self).gates_seq().push(
                final(self).gates_seq().last(),
            ),
    {
        let vv = if self.witness_mode() {
            Some(fe_add(&x1.val(), &x2.val()))
        } else {
            None
        };
        let res = self.var(vv);
        let mut cells: Vec<Var> = Vec::new();
        cells.push(x1);
        cells.push(x2);
        cells.push(res);
        let one = Fe::one();
        proof {
            assert(seq![x1, x2, res] =~= cells@);
            if old(self).is_witness() {
                assert(row_vals(cells@) =~= seq![
                    x1.val_n(),
                    x2.val_n(),
                    fadd(x1.val_n(), x2.val_n()),
                ]);
            }
        }
        self.generic(cells, one, one, fe_neg(&one), Fe::zero(), Fe::zero());
        res
    }

    /// Constrains `x1 - x2 - res = 0` on one generic row and returns `res`.
    pub fn sub(&mut self, x1: Var, x2: Var) -> (res: Var)
        requires
            old(self).wf(),
            old(self).compat(x1),
            old(self).compat(x2),
            !old(self).is_witness() ==> old(self).nvars() + 13 <= usize::MAX,
        ensures
            stepped(*old(self), *final(self), 1, 13),
            final(self).compat(res),
            old(self).is_witness() ==> res.val_n() == fsub(x1.val_n(), x2.val_n()),
            old(self).is_witness() ==> final(self).rows_n() == old(self).rows_n().push(
                padded(seq![x1.val_n(), x2.val_n(), fsub(x1.val_n(), x2.val_n())]),
            ),
            !old(self).is_witness() ==> res == (Var {
                index: old(self).nvars() as usize,
                value: None::<Fe>,
            }),
            !old(self).is_witness() ==> generic_gate_row(
                final(self).gates_seq(),
                old(self).gate_count() as int,
                seq![x1, x2, res],
                gcoeffs(1, fneg(1), fneg(1), 0, 0),
                old(self).nvars() + 1,
            ) && final(self).gates_seq() == old(self).gates_seq().push(
                final(self).gates_seq().last(),
            ),
    {
        let vv = if self.witness_mode() {
            Some(fe_sub(&x1.val(), &x2.val()))
        } else {
            None
        };
        let res = self.var(vv);
        let mut cells: Vec<Var> = Vec::new();
        cells.push(x1);
        cells.push(x2);
        cells.push(res);
        let one = Fe::one();
        proof {
            assert(seq![x1, x2, res] =~= cells@);
            if old(self).is_witness() {
                assert(row_vals(cells@) =~= seq![
                    x1.val_n(),
                    x2.val_n(),
                    fsub(x1.val_n(), x2.val_n()),
                ]);
            }
        }
        self.generic(cells, one, fe_neg(&one), fe_neg(&one), Fe::zero(), Fe::zero());
        res
    }

    /// Emits the boolean-conjunction row: the returned cell's witness
    /// value is the product `x1 · x2`, while the row's coefficients
    /// constrain `x1 + x2 - 2·res = 0` — a half-sum, not a conjunction,
    /// so the two agree only when both inputs hold the same bit.
    pub fn and(&mut self, x1: Var, x2: Var) -> (res: Var)
        requires
            old(self).wf(),
            old(self).compat(x1),
            old(self).compat(x2),
            !old(self).is_witness() ==> old(self).nvars() + 13 <= usize::MAX,
        ensures
            stepped(*old(self), *final(self), 1, 13),
            final(self).compat(res),
            old(self).is_witness() ==> res.val_n() == fmul(x1.val_n(), x2.val_n()),
            old(self).is_witness() ==> final(self).rows_n() == old(self).rows_n().push(
                padded(seq![x1.val_n(), x2.val_n(), fmul(x1.val_n(), x2.val_n())]),
            ),
            !old(self).is_witness() ==> res == (Var {
                index: old(self).nvars() as usize,
                value: None::<Fe>,
            }),
            !old(self).is_witness() ==> generic_gate_row(
                final(self).gates_seq(),
                old(self).gate_count() as int,
                seq![x1, x2, res],
                gcoeffs(1, 1, fneg(2), 0, 0),
                old(self).nvars() + 1,
            ) && final(self).gates_seq() == old(self).gates_seq().push(
                final(self).gates_seq().last(),
            ),
    {
        let vv = if self.witness_mode() {
            Some(fe_mul(&x1.val(), &x2.val()))
        } else {
            None
        };
        let res = self.var(vv);
        let mut cells: Vec<Var> = Vec::new();
        cells.push(x1);
        cells.push(x2);
        cells.push(res);
        let one = Fe::one();
        let two = Fe::from_u64(2);
        proof {
            assert(seq![x1, x2, res] =~= cells@);
            if old(self).is_witness() {
                assert(row_vals(cells@) =~= seq![
                    x1.val_n(),
                    x2.val_n(),
                    fmul(x1.val_n(), x2.val_n()),
                ]);
            }
        }
        self.generic(cells, one, one, fe_neg(&two), Fe::zero(), Fe::zero());
        res
    }

    /// Constrains `x1 + x2 - res - x1·x2 = 0` on one generic row and
    /// returns `res`, the boolean disjunction of boolean inputs.
    pub fn or(&mut self, x1: Var, x2: Var) -> (res: Var)
        requires
            old(self).wf(),
            old(self).compat(x1),
            old(self).compat(x2),
            !old(self).is_witness() ==> old(self).nvars() + 13 <= usize::MAX,
        ensures
            stepped(*old(self), *final(self), 1, 13),
            final(self).compat(res),
            old(self).is_witness() ==> res.val_n() == fsub(
                fadd(x1.val_n(), x2.val_n()),
                fmul(x1.val_n(), x2.val_n()),
            ),
            old(self).is_witness() ==> final(self).rows_n() == old(self).rows_n().push(
                padded(
                    seq![
                        x1.val_n(),
                        x2.val_n(),
                        fsub(fadd(x1.val_n(), x2.val_n()), fmul(x1.val_n(), x2.val_n())),
                    ],
                ),
            ),
            !old(self).is_witness() ==> res == (Var {
                index: old(self).nvars() as usize,
                value: None::<Fe>,
            }),
            !old(self).is_witness() ==> generic_gate_row(
                final(self).gates_seq(),
                old(self).gate_count() as int,
                seq![x1, x2, res],
                gcoeffs(1, 1, fneg(1), fneg(1), 0),
                old(self).nvars() + 1,
            ) && final(self).gates_seq() == old(self).gates_seq().push(
                final(self).gates_seq().last(),
            ),
    {
        let vv = if self.witness_mode() {
            Some(fe_sub(&fe_add(&x1.val(), &x2.val()), &fe_mul(&x1.val(), &x2.val())))
        } else {
            None
        };
        let res = self.var(vv);
        let mut cells: Vec<Var> = Vec::new();
        cells.push(x1);
        cells.push(x2);
        cells.push(res);
        let one = Fe::one();
        proof {
            assert(seq![x1, x2, res] =~= cells@);
            if old(self).is_witness() {
                assert(row_vals(cells@) =~= seq![
                    x1.val_n(),
                    x2.val_n(),
                    fsub(fadd(x1.val_n(), x2.val_n()), fmul(x1.val_n(), x2.val_n())),
                ]);
            }
        }
        self.generic(cells, one, one, fe_neg(&one), fe_neg(&one), Fe::zero());
        res
    }

    /// Constrains `x1 - x2 = 0` on one generic row.
    pub fn assert_eq(&mut self, x1: Var, x2: Var)
        requires
            old(self).wf(),
            old(self).compat(x1),
            old(self).compat(x2),
            !old(self).is_witness() ==> old(self).nvars() + 13 <= usize::MAX,
        ensures
            stepped(*old(self), *final(self), 1, 13),
            old(self).is_witness() ==> final(self).rows_n() == old(self).rows_n().push(
                padded(seq![x1.val_n(), x2.val_n()]),
            ),
            !old(self).is_witness() ==> generic_gate_row(
                final(self).gates_seq(),
                old(self).gate_count() as int,
                seq![x1, x2],
                gcoeffs(1, fneg(1), 0, 0, 0),
                old(self).nvars(),
            ) && final(self).gates_seq() == old(self).gates_seq().push(
                final(self).gates_seq().last(),
            ),
    {
        let mut cells: Vec<Var> = Vec::new();
        cells.push(x1);
        cells.push(x2);
        let one = Fe::one();
        proof {
            assert(seq![x1, x2] =~= cells@);
            if old(self).is_witness() {
                assert(row_vals(cells@) =~= seq![x1.val_n(), x2.val_n()]);
            }
        }
        self.generic(cells, one, fe_neg(&one), Fe::zero(), Fe::zero(), Fe::zero());
    }

    /// Introduces the constant `x` as a cell: one generic row constrains
    /// the fresh cell to equal `x` through the constant coefficient.
    pub fn constant(&mut self, x: Fe) -> (res: Var)
        requires
            old(self).wf(),
            x.wf(),
            !old(self).is_witness() ==> old(self).nvars() + 15 <= usize::MAX,
        ensures
            stepped(*old(self), *final(self), 1, 15),
            final(self).compat(res),
            old(self).is_witness() ==> res.val_n() == x@,
            old(self).is_witness() ==> final(self).rows_n() == old(self).rows_n().push(
                padded(seq![x@]),
            ),
            !old(self).is_witness() ==> res == (Var {
                index: old(self).nvars() as usize,
                value: None::<Fe>,
            }),
            !old(self).is_witness() ==> generic_gate_row(
                final(self).gates_seq(),
                old(self).gate_count() as int,
                seq![res],
                gcoeffs(1, 0, 0, 0, fneg(x@)),
                old(self).nvars() + 1,
            ) && final(self).gates_seq() == old(self).gates_seq().push(
                final(self).gates_seq().last(),
            ),
    {
        let vv = if self.witness_mode() {
            Some(x)
        } else {
            None
        };
        let res = self.var(vv);
        let mut cells: Vec<Var> = Vec::new();
        cells.push(res);
        proof {
            assert(seq![res] =~= cells@);
            if old(self).is_witness() {
                assert(row_vals(cells@) =~= seq![x@]);
            }
        }
        self.generic(cells, Fe::one(), Fe::zero(), Fe::zero(), Fe::zero(), fe_neg(&x));
        res
    }

    /// Constrains `x·v - res = 0` on one generic row, with the scalar `x`
    /// placed in the left coefficient, and returns `res`.
    pub fn scale(&mut self, x: Fe, v: Var) -> (res: Var)
        requires
            old(self).wf(),
            x.wf(),
            old(self).compat(v),
            !old(self).is_witness() ==> old(self).nvars() + 16 <= usize::MAX,
        ensures
            stepped(*old(self), *final(self), 1, 16),
            final(self).compat(res),
            old(self).is_witness() ==> res.val_n() == fmul(v.val_n(), x@),
            old(self).is_witness() ==> final(self).rows_n() == old(self).rows_n().push(
                padded(seq![v.val_n(), fmul(v.val_n(), x@)]),
            ),
            !old(self).is_witness() ==> res == (Var {
                index: old(self).nvars() as usize,
                value: None::<Fe>,
            }),
            !old(self).is_witness() ==> generic_gate_row(
                final(self).gates_seq(),
                old(self).gate_count() as int,
                seq![v, res],
                gcoeffs(x@, fneg(1), 0, 0, 0),
                (old(self).nvars() + 3) as nat,
            ) && final(self).gates_seq() == old(self).gates_seq().push(
                final(self).gates_seq().last(),
            ),
    {
        let vv = if self.witness_mode() {
            Some(fe_mul(&v.val(), &x))
        } else {
            None
        };
        let res = self.var(vv);
        let mut cells: Vec<Var> = Vec::new();
        cells.push(v);
        cells.push(res);
        let one = Fe::one();
        proof {
            assert(seq![v, res] =~= cells@);
            if old(self).is_witness() {
                assert(row_vals(cells@) =~= seq![v.val_n(), fmul(v.val_n(), x@)]);
            }
        }
        self.generic_overwrite(cells, x, fe_neg(&one), Fe::zero(), Fe::zero(), Fe::zero());
        res
    }

    /// Selects between `t` and `f` by the boolean bit `b` over three
    /// generic rows: `delta = t - f`, `res1 = b·delta`, `res = f + res1`.
    /// The caller is responsible for constraining `b` to be boolean.
    pub fn cond_select(&mut self, b: Var, t: Var, f: Var) -> (res: Var)
        requires
            old(self).wf(),
            old(self).compat(b),
            old(self).compat(t),
            old(self).compat(f),
            !old(self).is_witness() ==> old(self).nvars() + 48 <= usize::MAX,
        ensures
            stepped(*old(self), *final(self), 3, 48),
            final(self).compat(res),
            old(self).is_witness() ==> res.val_n() == fadd(
                f.val_n(),
                fmul(b.val_n(), fsub(t.val_n(), f.val_n())),
            ),
            old(self).is_witness() ==> ({
                let dv = fsub(t.val_n(), f.val_n());
                let r1v = fmul(b.val_n(), dv);
                let rv = fadd(f.val_n(), r1v);
                final(self).rows_n() == old(self).rows_n().push(
                    padded(seq![t.val_n(), f.val_n(), dv]),
                ).push(padded(seq![b.val_n(), dv, r1v])).push(padded(seq![r1v, f.val_n(), rv]))
            }),
            !old(self).is_witness() ==> res == (Var {
                index: (old(self).nvars() + 2) as usize,
                value: None::<Fe>,
            }),
            !old(self).is_witness() ==> ({
                let gs = final(self).gates_seq();
                let r0 = old(self).gate_count() as int;
                let nv = old(self).nvars();
                &&& gs.len() == r0 + 3
                &&& gs.subrange(0, r0) == old(self).gates_seq()
                &&& generic_gate_row(
                    gs,
                    r0,
                    seq![t, f, (Var { index: nv as usize, value: None::<Fe> })],
                    gcoeffs(1, fneg(1), fneg(1), 0, 0),
                    (nv + 6) as nat,
                )
                &&& generic_gate_row(
                    gs,
                    r0 + 1,
                    seq![
                        b,
                        (Var { index: nv as usize, value: None::<Fe> }),
                        (Var { index: (nv + 1) as usize, value: None::<Fe> }),
                    ],
                    gcoeffs(0, 0, fneg(1), 1, 0),
                    (nv + 21) as nat,
                )
                &&& generic_gate_row(
                    gs,
                    r0 + 2,
                    seq![
                        (Var { index: (nv + 1) as usize, value: None::<Fe> }),
                        f,
                        (Var { index: (nv + 2) as usize, value: None::<Fe> }),
                    ],
                    gcoeffs(1, 1, fneg(1), 0, 0),
                    (nv + 36) as nat,
                )
            }),
    {
        let w = self.witness_mode();
        let dv = if w {
            Some(fe_sub(&t.val(), &f.val()))
        } else {
            None
        };
        let delta = self.var(dv);
        let r1v = if w {
            Some(fe_mul(&b.val(), &delta.val()))
        } else {
            None
        };
        let res1 = self.var(r1v);
        let rv = if w {
            Some(fe_add(&f.val(), &res1.val()))
        } else {
            None
        };
        let res = self.var(rv);
        let one = Fe::one();
        let z = Fe::zero();

        let mut c1: Vec<Var> = Vec::new();
        c1.push(t);
        c1.push(f);
        c1.push(delta);
        proof {
            assert(seq![t, f, delta] =~= c1@);
            if old(self).is_witness() {
                assert(row_vals(c1@) =~= seq![
                    t.val_n(),
                    f.val_n(),
                    fsub(t.val_n(), f.val_n()),
                ]);
            }
        }
        self.generic_overwrite(c1, one, fe_neg(&one), fe_neg(&one), z, z);

        let mut c2: Vec<Var> = Vec::new();
        c2.push(b);
        c2.push(delta);
        c2.push(res1);
        proof {
            assert(seq![b, delta, res1] =~= c2@);
            if old(self).is_witness() {
                assert(row_vals(c2@) =~= seq![
                    b.val_n(),
                    fsub(t.val_n(), f.val_n()),
                    fmul(b.val_n(), fsub(t.val_n(), f.val_n())),
                ]);
            }
        }
        self.generic_overwrite(c2, z, z, fe_neg(&one), one, z);

        let mut c3: Vec<Var> = Vec::new();
        c3.push(res1);
        c3.push(f);
        c3.push(res);
        proof {
            assert(seq![res1, f, res] =~= c3@);
            if old(self).is_witness() {
                let dvn = fsub(t.val_n(), f.val_n());
                assert(row_vals(c3@) =~= seq![
                    fmul(b.val_n(), dvn),
                    f.val_n(),
                    fadd(f.val_n(), fmul(b.val_n(), dvn)),
                ]);
            }
        }
        self.generic_overwrite(c3, one, one, fe_neg(&one), z, z);
        proof {
            if !old(self).is_witness() {
                assert(final(self).gates_seq().subrange(0, old(self).gate_count() as int)
                    =~= old(self).gates_seq());
            }
        }
        res
    }

    /// Returns the equality indicator of `x1` and `x2`: a cell holding one
    /// when the values agree and zero otherwise, enforced by the two
    /// constraints `z_inv·z = 1 - res` and `res·z = 0` on `z = x2 - x1`.
    #[verifier::rlimit(50)]
    pub fn equals(&mut self, x1: Var, x2: Var) -> (res: Var)
        requires
            old(self).wf(),
            old(self).compat(x1),
            old(self).compat(x2),
            !old(self).is_witness() ==> old(self).nvars() + 68 <= usize::MAX,
        ensures
            stepped(*old(self), *final(self), 5, 68),
            final(self).compat(res),
            old(self).is_witness() ==> res.val_n() == (if x1.val_n() == x2.val_n() {
                1nat
            } else {
                0nat
            }),
            old(self).is_witness() ==> ({
                let dv = fsub(x2.val_n(), x1.val_n());
                let rv: nat = if x1.val_n() == x2.val_n() {
                    1
                } else {
                    0
                };
                let omv = fsub(1, rv);
                final(self).rows_n() == old(self).rows_n().push(
                    padded(seq![x2.val_n(), x1.val_n(), dv]),
                ).push(padded(seq![1nat])).push(padded(seq![1nat, rv, omv])).push(
                    padded(seq![finv(dv), dv, omv]),
                ).push(padded(seq![rv, dv]))
            }),
            !old(self).is_witness() ==> res == (Var {
                index: (old(self).nvars() + 14) as usize,
                value: None::<Fe>,
            }),
            !old(self).is_witness() ==> ({
                let gs = final(self).gates_seq();
                let r0 = old(self).gate_count() as int;
                let nv = old(self).nvars();
                let diff = (Var { index: nv as usize, value: None::<Fe> });
                let inv = (Var { index: (nv + 13) as usize, value: None::<Fe> });
                let om = (Var { index: (nv + 15) as usize, value: None::<Fe> });
                let c1 = (Var { index: (nv + 16) as usize, value: None::<Fe> });
                &&& gs.len() == r0 + 5
                &&& gs.subrange(0, r0) == old(self).gates_seq()
                &&& generic_gate_row(
                    gs,
                    r0,
                    seq![x2, x1, diff],
                    gcoeffs(1, fneg(1), fneg(1), 0, 0),
                    (nv + 1) as nat,
                )
                &&& generic_gate_row(gs, r0 + 1, seq![c1], gcoeffs(1, 0, 0, 0, fneg(1)), (nv
                    + 17) as nat)
                &&& generic_gate_row(
                    gs,
                    r0 + 2,
                    seq![c1, res, om],
                    gcoeffs(1, fneg(1), fneg(1), 0, 0),
                    (nv + 31) as nat,
                )
                &&& generic_gate_row(
                    gs,
                    r0 + 3,
                    seq![inv, diff, om],
                    gcoeffs(0, 0, fneg(1), 1, 0),
                    (nv + 43) as nat,
                )
                &&& generic_gate_row(
                    gs,
                    r0 + 4,
                    seq![res, diff],
                    gcoeffs(0, 0, 0, 1, 0),
                    (nv + 55) as nat,
                )
            }),
    {
        let w = self.witness_mode();
        let diff = self.sub(x2, x1);
        let iv = if w {
            let d = diff.val();
            match crate::field::fe_inv(&d) {
                Some(i) => {
                    proof {
                        crate::field::lemma_finv_is(d@, i@);
                    }
                    Some(i)
                }
                None => Some(Fe::zero()),
            }
        } else {
            None
        };
        let inv = self.var(iv);
        let rv = if w {
            if x1.val().equals(&x2.val()) {
                Some(Fe::one())
            } else {
                Some(Fe::zero())
            }
        } else {
            None
        };
        let res = self.var(rv);
        let ov = if w {
            Some(fe_sub(&Fe::one(), &res.val()))
        } else {
            None
        };
        let one_minus_res = self.var(ov);
        let one = Fe::one();
        let z = Fe::zero();

        let c1 = self.constant(one);

        let mut r3: Vec<Var> = Vec::new();
        r3.push(c1);
        r3.push(res);
        r3.push(one_minus_res);
        proof {
            assert(seq![c1, res, one_minus_res] =~= r3@);
            if old(self).is_witness() {
                assert(row_vals(r3@) =~= seq![1nat, res.val_n(), one_minus_res.val_n()]);
            }
        }
        self.generic(r3, one, fe_neg(&one), fe_neg(&one), z, z);

        let mut r4: Vec<Var> = Vec::new();
        r4.push(inv);
        r4.push(diff);
        r4.push(one_minus_res);
        proof {
            assert(seq![inv, diff, one_minus_res] =~= r4@);
            if old(self).is_witness() {
                assert(row_vals(r4@) =~= seq![inv.val_n(), diff.val_n(), one_minus_res.val_n()]);
            }
        }
        self.generic(r4, z, z, fe_neg(&one), one, z);

        let mut r5: Vec<Var> = Vec::new();
        r5.push(res);
        r5.push(diff);
        proof {
            assert(seq![res, diff] =~= r5@);
            if old(self).is_witness() {
                assert(row_vals(r5@) =~= seq![res.val_n(), diff.val_n()]);
            }
        }
        self.generic(r5, z, z, z, one, z);
        proof {
            if !old(self).is_witness() {
                assert(final(self).gates_seq().subrange(0, old(self).gate_count() as int)
                    =~= old(self).gates_seq());
            }
        }
        res
    }

    /// The superseded equality indicator: it pins the inverse pair
    /// `inv·inv2 = 1` and the product `res = diff·inv`, and its middle row
    /// carries a three-entry coefficient vector in place of the full
    /// double-generic layout.
    pub fn equals_old(&mut self, x1: Var, x2: Var) -> (res: Var)
        requires
            old(self).wf(),
            old(self).compat(x1),
            old(self).compat(x2),
            !old(self).is_witness() ==> old(self).nvars() + 53 <= usize::MAX,
        ensures
            stepped(*old(self), *final(self), 4, 53),
            final(self).compat(res),
            old(self).is_witness() ==> res.val_n() == (if x1.val_n() == x2.val_n() {
                1nat
            } else {
                0nat
            }),
            old(self).is_witness() ==> ({
                let dv = fsub(x2.val_n(), x1.val_n());
                let invv: nat = if dv == 0 {
                    1
                } else {
                    finv(dv)
                };
                let rv: nat = if x1.val_n() == x2.val_n() {
                    1
                } else {
                    0
                };
                final(self).rows_n() == old(self).rows_n().push(
                    padded(seq![x2.val_n(), x1.val_n(), dv]),
                ).push(padded(seq![invv, finv(invv)])).push(padded(seq![x1.val_n(), x2.val_n(), dv])).push(
                    padded(seq![dv, invv, rv]),
                )
            }),
            !old(self).is_witness() ==> res == (Var {
                index: (old(self).nvars() + 15) as usize,
                value: None::<Fe>,
            }),
            !old(self).is_witness() ==> ({
                let gs = final(self).gates_seq();
                let r0 = old(self).gate_count() as int;
                let nv = old(self).nvars();
                let diff = (Var { index: nv as usize, value: None::<Fe> });
                let inv = (Var { index: (nv + 13) as usize, value: None::<Fe> });
                let inv2 = (Var { index: (nv + 14) as usize, value: None::<Fe> });
                &&& gs.len() == r0 + 4
                &&& gs.subrange(0, r0) == old(self).gates_seq()
                &&& generic_gate_row(
                    gs,
                    r0,
                    seq![x2, x1, diff],
                    gcoeffs(1, fneg(1), fneg(1), 0, 0),
                    (nv + 1) as nat,
                )
                &&& generic_gate_row(
                    gs,
                    r0 + 1,
                    seq![inv, inv2],
                    gcoeffs(0, fneg(1), 1, 0, 0),
                    (nv + 16) as nat,
                )
                &&& gs[r0 + 2].typ == GateType::Generic
                &&& gs[r0 + 2].row@.len() == COLUMNS
                &&& coeff_vals(gs[r0 + 2].coeffs@) == seq![1nat, fneg(1), 1nat]
                &&& gs[r0 + 2].row@[0] == x1
                &&& gs[r0 + 2].row@[1] == x2
                &&& gs[r0 + 2].row@[2] == diff
                &&& fresh_tail(gs[r0 + 2].row@, 3, (nv + 29) as nat)
                &&& generic_gate_row(
                    gs,
                    r0 + 3,
                    seq![diff, inv, res],
                    gcoeffs(0, 0, 1, fneg(1), 0),
                    (nv + 41) as nat,
                )
            }),
    {
        let w = self.witness_mode();
        let diff = self.sub(x2, x1);
        let iv = if w {
            let d = diff.val();
            match crate::field::fe_inv(&d) {
                Some(i) => {
                    proof {
                        crate::field::lemma_finv_is(d@, i@);
                    }
                    Some(i)
                }
                None => Some(Fe::one()),
            }
        } else {
            None
        };
        let inv = self.var(iv);
        let i2v = if w {
            let ghost dvg = diff.val_n();
            proof {
                if dvg != 0 {
                    assert(fmul(dvg, inv.val_n()) == 1);
                    if inv.val_n() == 0 {
                        assert(dvg * 0 == 0) by (nonlinear_arith);
                        assert(fmul(dvg, 0) == 0nat % p());
                        vstd::arithmetic::div_mod::lemma_small_mod(0, p());
                    }
                }
            }
            let i2 = crate::field::fe_inv(&inv.val()).unwrap();
            proof {
                crate::field::lemma_finv_is(inv.val_n(), i2@);
            }
            Some(i2)
        } else {
            None
        };
        let inv2 = self.var(i2v);
        let rv = if w {
            if x1.val().equals(&x2.val()) {
                Some(Fe::one())
            } else {
                Some(Fe::zero())
            }
        } else {
            None
        };
        let res = self.var(rv);
        let one = Fe::one();
        let z = Fe::zero();

        let mut r2: Vec<Var> = Vec::new();
        r2.push(inv);
        r2.push(inv2);
        proof {
            assert(seq![inv, inv2] =~= r2@);
            if old(self).is_witness() {
                assert(row_vals(r2@) =~= seq![inv.val_n(), inv2.val_n()]);
            }
        }
        self.generic(r2, z, fe_neg(&one), one, z, z);

        let mut r3: Vec<Var> = Vec::new();
        r3.push(x1);
        r3.push(x2);
        r3.push(diff);
        let ghost k3 = r3@.len();
        let row3 = self.fill_row(r3);
        let mut coeffs3: Vec<Fe> = Vec::new();
        coeffs3.push(one);
        coeffs3.push(fe_neg(&one));
        coeffs3.push(one);
        proof {
            assert forall|i: int| 0 <= i < k3 implies row3@[i] == seq![x1, x2, diff][i] by {
                assert(row3@.subrange(0, k3 as int)[i] == row3@[i]);
            }
            assert(coeff_vals(coeffs3@) =~= seq![1nat, fneg(1), 1nat]);
            if old(self).is_witness() {
                assert(row_has_vals(row3@)) by {
                    assert forall|j: int| 0 <= j < row3@.len() implies (
                    #[trigger] row3@[j]).val_wf() by {
                        if j < k3 {
                            assert(seq![x1, x2, diff][j].val_wf());
                        }
                    }
                }
                assert(row_vals(row3@) =~= padded(
                    seq![x1.val_n(), x2.val_n(), fsub(x2.val_n(), x1.val_n())],
                ));
            }
        }
        self.gate(GateSpec { typ: GateType::Generic, row: row3, coeffs: coeffs3 });

        let mut r4: Vec<Var> = Vec::new();
        r4.push(diff);
        r4.push(inv);
        r4.push(res);
        proof {
            assert(seq![diff, inv, res] =~= r4@);
            if old(self).is_witness() {
                assert(row_vals(r4@) =~= seq![diff.val_n(), inv.val_n(), res.val_n()]);
            }
        }
        self.generic(r4, z, z, one, fe_neg(&one), z);
        proof {
            if !old(self).is_witness() {
                assert(final(self).gates_seq().subrange(0, old(self).gate_count() as int)
                    =~= old(self).gates_seq());
            }
        }
        res
    }
}

/// The same-abscissa indicator of the complete-addition row.
#[verifier::opaque]
pub open spec fn ec_same_x(a: nat, c: nat) -> nat {
    if a == c {
        1nat
    } else {
        0nat
    }
}

/// The inverse of the abscissa difference, or zero when the abscissas
/// coincide.
#[verifier::opaque]
pub open spec fn ec_x21_inv(a: nat, c: nat) -> nat {
    if a == c {
        0nat
    } else {
        finv(fsub(c, a))
    }
}

/// The slope of the chord through two points, or of the tangent when the
/// abscissas coincide.
#[verifier::opaque]
pub open spec fn ec_slope(a: nat, b: nat, c: nat, d: nat) -> nat {
    if a == c {
        fdiv(fadd(fadd(fmul(a, a), fmul(a, a)), fmul(a, a)), fadd(b, b))
    } else {
        fmul(fsub(d, b), ec_x21_inv(a, c))
    }
}

/// The inverse of the ordinate difference where the row witnesses a
/// doubling of distinct ordinates, and zero elsewhere.
#[verifier::opaque]
pub open spec fn ec_inf_z(a: nat, b: nat, c: nat, d: nat) -> nat {
    if b == d {
        0nat
    } else if a == c {
        finv(fsub(d, b))
    } else {
        0nat
    }
}

/// The abscissa of the sum: `s² - x1 - x2`.
#[verifier::opaque]
pub open spec fn ec_x3(a: nat, b: nat, c: nat, d: nat) -> nat {
    fsub(fmul(ec_slope(a, b, c, d), ec_slope(a, b, c, d)), fadd(a, c))
}

/// The ordinate of the sum: `s·(x1 - x3) - y1`.
#[verifier::opaque]
pub open spec fn ec_y3(a: nat, b: nat, c: nat, d: nat) -> nat {
    fsub(fmul(ec_slope(a, b, c, d), fsub(a, ec_x3(a, b, c, d))), b)
}

impl Cs {
    /// Computes the complete-addition auxiliary cells for the two points.
    fn ec_aux(&mut self, x1: Var, y1: Var, x2: Var, y2: Var) -> (aux: (Var, Var, Var, Var))
        requires
            old(self).wf(),
            old(self).compat(x1),
            old(self).compat(y1),
            old(self).compat(x2),
            old(self).compat(y2),
            old(self).is_witness() && x1.val_n() == x2.val_n() ==> y1.val_n() != 0,
            !old(self).is_witness() ==> old(self).nvars() + 4 <= usize::MAX,
        ensures
            stepped(*old(self), *final(self), 0, 4),
            final(self).rows_n() == old(self).rows_n(),
            final(self).gates_seq() == old(self).gates_seq(),
            final(self).compat(aux.0) && final(self).compat(aux.1) && final(self).compat(aux.2)
                && final(self).compat(aux.3),
            old(self).is_witness() ==> ({
                let a = x1.val_n();
                let b = y1.val_n();
                let c = x2.val_n();
                let d = y2.val_n();
                &&& aux.0.val_n() == ec_same_x(a, c)
                &&& aux.1.val_n() == ec_x21_inv(a, c)
                &&& aux.2.val_n() == ec_slope(a, b, c, d)
                &&& aux.3.val_n() == ec_inf_z(a, b, c, d)
            }),
            !old(self).is_witness() ==> ({
                let nv = old(self).nvars();
                &&& aux.0 == (Var { index: nv as usize, value: None::<Fe> })
                &&& aux.1 == (Var { index: (nv + 1) as usize, value: None::<Fe> })
                &&& aux.2 == (Var { index: (nv + 2) as usize, value: None::<Fe> })
                &&& aux.3 == (Var { index: (nv + 3) as usize, value: None::<Fe> })
            }),
    {
        proof {
            reveal(ec_same_x);
            reveal(ec_x21_inv);
            reveal(ec_slope);
            reveal(ec_inf_z);
        }
        let w = self.witness_mode();
        let sxv = if w {
            if x1.val().equals(&x2.val()) {
                Some(Fe::one())
            } else {
                Some(Fe::zero())
            }
        } else {
            None
        };
        let same_x = self.var(sxv);
        let xiv = if w {
            if x1.val().equals(&x2.val()) {
                Some(Fe::zero())
            } else {
                let dx = fe_sub(&x2.val(), &x1.val());
                proof {
                    lemma_fsub_zero_iff(x2.val_n(), x1.val_n());
                }
                let i = fe_inv(&dx).unwrap();
                proof {
                    lemma_finv_is(dx@, i@);
                }
                Some(i)
            }
        } else {
            None
        };
        let x21_inv = self.var(xiv);
        let sv = if w {
            if x1.val().equals(&x2.val()) {
                let sq = fe_square(&x1.val());
                let num = fe_add(&fe_add(&sq, &sq), &sq);
                let den = fe_double(&y1.val());
                proof {
                    lemma_fdouble_nonzero(y1.val_n());
                }
                Some(fe_div(&num, &den))
            } else {
                Some(fe_mul(&fe_sub(&y2.val(), &y1.val()), &x21_inv.val()))
            }
        } else {
            None
        };
        let s = self.var(sv);
        let izv = if w {
            if y1.val().equals(&y2.val()) {
                Some(Fe::zero())
            } else if x1.val().equals(&x2.val()) {
                let dy = fe_sub(&y2.val(), &y1.val());
                proof {
                    lemma_fsub_zero_iff(y2.val_n(), y1.val_n());
                }
                let i = fe_inv(&dy).unwrap();
                proof {
                    lemma_finv_is(dy@, i@);
                }
                Some(i)
            } else {
                Some(Fe::zero())
            }
        } else {
            None
        };
        let inf_z = self.var(izv);
        (same_x, x21_inv, s, inf_z)
    }

    /// Adds two curve points on one complete-addition row and returns the
    /// cells of the sum.  The `zero` cell is the caller's identity
    /// sentinel, wired into the infinity column and the trailing fillers.
    #[verifier::rlimit(100)]
    pub fn add_group(&mut self, zero: Var, p1: (Var, Var), p2: (Var, Var)) -> (r: (Var, Var))
        requires
            old(self).wf(),
            old(self).compat(zero),
            old(self).compat(p1.0),
            old(self).compat(p1.1),
            old(self).compat(p2.0),
            old(self).compat(p2.1),
            old(self).is_witness() && p1.0.val_n() == p2.0.val_n() ==> p1.1.val_n() != 0,
            !old(self).is_witness() ==> old(self).nvars() + 6 <= usize::MAX,
        ensures
            stepped(*old(self), *final(self), 1, 6),
            final(self).compat(r.0),
            final(self).compat(r.1),
            old(self).is_witness() ==> ({
                let a = p1.0.val_n();
                let b = p1.1.val_n();
                let c = p2.0.val_n();
                let d = p2.1.val_n();
                &&& r.0.val_n() == ec_x3(a, b, c, d)
                &&& r.1.val_n() == ec_y3(a, b, c, d)
                &&& final(self).rows_n() == old(self).rows_n().push(
                    seq![
                        a,
                        b,
                        c,
                        d,
                        ec_x3(a, b, c, d),
                        ec_y3(a, b, c, d),
                        zero.val_n(),
                        ec_same_x(a, c),
                        ec_slope(a, b, c, d),
                        ec_inf_z(a, b, c, d),
                        ec_x21_inv(a, c),
                        zero.val_n(),
                        zero.val_n(),
                        zero.val_n(),
                        zero.val_n(),
                    ],
                )
            }),
            !old(self).is_witness() ==> ({
                let nv = old(self).nvars();
                let gs = final(self).gates_seq();
                let g = gs.last();
                &&& r.0 == (Var { index: (nv + 4) as usize, value: None::<Fe> })
                &&& r.1 == (Var { index: (nv + 5) as usize, value: None::<Fe> })
                &&& gs == old(self).gates_seq().push(g)
                &&& g.typ == GateType::CompleteAdd
                &&& g.coeffs@.len() == 0
                &&& g.row@ == seq![
                    p1.0,
                    p1.1,
                    p2.0,
                    p2.1,
                    (Var { index: (nv + 4) as usize, value: None::<Fe> }),
                    (Var { index: (nv + 5) as usize, value: None::<Fe> }),
                    zero,
                    (Var { index: nv as usize, value: None::<Fe> }),
                    (Var { index: (nv + 2) as usize, value: None::<Fe> }),
                    (Var { index: (nv + 3) as usize, value: None::<Fe> }),
                    (Var { index: (nv + 1) as usize, value: None::<Fe> }),
                    zero,
                    zero,
                    zero,
                    zero,
                ]
            }),
    {
        let (x1, y1) = p1;
        let (x2, y2) = p2;
        proof {
            reveal(ec_x3);
            reveal(ec_y3);
        }
        let w = self.witness_mode();
        let (same_x, x21_inv, s, inf_z) = self.ec_aux(x1, y1, x2, y2);
        let x3v = if w {
            Some(fe_sub(&fe_square(&s.val()), &fe_add(&x1.val(), &x2.val())))
        } else {
            None
        };
        let x3 = self.var(x3v);
        let y3v = if w {
            Some(fe_sub(&fe_mul(&s.val(), &fe_sub(&x1.val(), &x3.val())), &y1.val()))
        } else {
            None
        };
        let y3 = self.var(y3v);
        let mut row: Vec<Var> = Vec::new();
        row.push(x1);
        row.push(y1);
        row.push(x2);
        row.push(y2);
        row.push(x3);
        row.push(y3);
        row.push(zero);
        row.push(same_x);
        row.push(s);
        row.push(inf_z);
        row.push(x21_inv);
        row.push(zero);
        row.push(zero);
        row.push(zero);
        row.push(zero);
        proof {
            if old(self).is_witness() {
                assert(row_has_vals(row@)) by {
                    assert forall|j: int| 0 <= j < row@.len() implies (
                    #[trigger] row@[j]).val_wf() by {}
                }
                let a = x1.val_n();
                let b = y1.val_n();
                let c = x2.val_n();
                let d = y2.val_n();
                assert(row_vals(row@) =~= seq![
                    a,
                    b,
                    c,
                    d,
                    ec_x3(a, b, c, d),
                    ec_y3(a, b, c, d),
                    zero.val_n(),
                    ec_same_x(a, c),
                    ec_slope(a, b, c, d),
                    ec_inf_z(a, b, c, d),
                    ec_x21_inv(a, c),
                    zero.val_n(),
                    zero.val_n(),
                    zero.val_n(),
                    zero.val_n(),
                ]);
            } else {
                assert(row@ =~= seq![
                    x1,
                    y1,
                    x2,
                    y2,
                    x3,
                    y3,
                    zero,
                    same_x,
                    s,
                    inf_z,
                    x21_inv,
                    zero,
                    zero,
                    zero,
                    zero,
                ]);
            }
        }
        self.gate(GateSpec { typ: GateType::CompleteAdd, row, coeffs: Vec::new() });
        (x3, y3)
    }

    /// Doubles a curve point: a complete addition of the point to itself.
    pub fn double(&mut self, zero: Var, p1: (Var, Var)) -> (r: (Var, Var))
        requires
            old(self).wf(),
            old(self).compat(zero),
            old(self).compat(p1.0),
            old(self).compat(p1.1),
            old(self).is_witness() ==> p1.1.val_n() != 0,
            !old(self).is_witness() ==> old(self).nvars() + 6 <= usize::MAX,
        ensures
            stepped(*old(self), *final(self), 1, 6),
            final(self).compat(r.0),
            final(self).compat(r.1),
            old(self).is_witness() ==> ({
                let a = p1.0.val_n();
                let b = p1.1.val_n();
                &&& r.0.val_n() == ec_x3(a, b, a, b)
                &&& r.1.val_n() == ec_y3(a, b, a, b)
                &&& final(self).rows_n() == old(self).rows_n().push(
                    seq![
                        a,
                        b,
                        a,
                        b,
                        ec_x3(a, b, a, b),
                        ec_y3(a, b, a, b),
                        zero.val_n(),
                        ec_same_x(a, a),
                        ec_slope(a, b, a, b),
                        ec_inf_z(a, b, a, b),
                        ec_x21_inv(a, a),
                        zero.val_n(),
                        zero.val_n(),
                        zero.val_n(),
                        zero.val_n(),
                    ],
                )
            }),
            !old(self).is_witness() ==> r.0 == (Var {
                index: (old(self).nvars() + 4) as usize,
                value: None::<Fe>,
            }) && r.1 == (Var { index: (old(self).nvars() + 5) as usize, value: None::<Fe> }),
            !old(self).is_witness() ==> final(self).gates_seq() == old(self).gates_seq().push(
                final(self).gates_seq().last(),
            ),
    {
        self.add_group(zero, p1, p1)
    }

    /// Emits the complete-addition row for two points and a claimed sum,
    /// without allocating cells for the sum: the caller supplies them.
    pub fn assert_add_group(&mut self, zero: Var, p1: (Var, Var), p2: (Var, Var), p3: (Var, Var))
        requires
            old(self).wf(),
            old(self).compat(zero),
            old(self).compat(p1.0),
            old(self).compat(p1.1),
            old(self).compat(p2.0),
            old(self).compat(p2.1),
            old(self).compat(p3.0),
            old(self).compat(p3.1),
            old(self).is_witness() && p1.0.val_n() == p2.0.val_n() ==> p1.1.val_n() != 0,
            !old(self).is_witness() ==> old(self).nvars() + 4 <= usize::MAX,
        ensures
            stepped(*old(self), *final(self), 1, 4),
            old(self).is_witness() ==> ({
                let a = p1.0.val_n();
                let b = p1.1.val_n();
                let c = p2.0.val_n();
                let d = p2.1.val_n();
                final(self).rows_n() == old(self).rows_n().push(
                    seq![
                        a,
                        b,
                        c,
                        d,
                        p3.0.val_n(),
                        p3.1.val_n(),
                        zero.val_n(),
                        ec_same_x(a, c),
                        ec_slope(a, b, c, d),
                        ec_inf_z(a, b, c, d),
                        ec_x21_inv(a, c),
                        zero.val_n(),
                        zero.val_n(),
                        zero.val_n(),
                        zero.val_n(),
                    ],
                )
            }),
            !old(self).is_witness() ==> ({
                let nv = old(self).nvars();
                let gs = final(self).gates_seq();
                let g = gs.last();
                &&& gs == old(self).gates_seq().push(g)
                &&& g.typ == GateType::CompleteAdd
                &&& g.coeffs@.len() == 0
                &&& g.row@ == seq![
                    p1.0,
                    p1.1,
                    p2.0,
                    p2.1,
                    p3.0,
                    p3.1,
                    zero,
                    (Var { index: nv as usize, value: None::<Fe> }),
                    (Var { index: (nv + 2) as usize, value: None::<Fe> }),
                    (Var { index: (nv + 3) as usize, value: None::<Fe> }),
                    (Var { index: (nv + 1) as usize, value: None::<Fe> }),
                    zero,
                    zero,
                    zero,
                    zero,
                ]
            }),
    {
        let (x1, y1) = p1;
        let (x2, y2) = p2;
        let (x3, y3) = p3;
        let (same_x, x21_inv, s, inf_z) = self.ec_aux(x1, y1, x2, y2);
        let mut row: Vec<Var> = Vec::new();
        row.push(x1);
        row.push(y1);
        row.push(x2);
        row.push(y2);
        row.push(x3);
        row.push(y3);
        row.push(zero);
        row.push(same_x);
        row.push(s);
        row.push(inf_z);
        row.push(x21_inv);
        row.push(zero);
        row.push(zero);
        row.push(zero);
        row.push(zero);
        proof {
            if old(self).is_witness() {
                assert(row_has_vals(row@)) by {
                    assert forall|j: int| 0 <= j < row@.len() implies (
                    #[trigger] row@[j]).val_wf() by {}
                }
                let a = x1.val_n();
                let b = y1.val_n();
                let c = x2.val_n();
                let d = y2.val_n();
                assert(row_vals(row@) =~= seq![
                    a,
                    b,
                    c,
                    d,
                    x3.val_n(),
                    y3.val_n(),
                    zero.val_n(),
                    ec_same_x(a, c),
                    ec_slope(a, b, c, d),
                    ec_inf_z(a, b, c, d),
                    ec_x21_inv(a, c),
                    zero.val_n(),
                    zero.val_n(),
                    zero.val_n(),
                    zero.val_n(),
                ]);
            } else {
                assert(row@ =~= seq![
                    x1,
                    y1,
                    x2,
                    y2,
                    x3,
                    y3,
                    zero,
                    same_x,
                    s,
                    inf_z,
                    x21_inv,
                    zero,
                    zero,
                    zero,
                    zero,
                ]);
            }
        }
        self.gate(GateSpec { typ: GateType::CompleteAdd, row, coeffs: Vec::new() });
    }
}

/// The values of the first row of a scalar-multiplication pair: the
/// target's coordinates, the seed accumulator on the first pair, the
/// scalar cell on the last pair, and the ladder's witness columns
/// elsewhere.
pub open spec fn vbm_row1_vals(
    w: Seq<Seq<nat>>,
    i: int,
    xt: nat,
    yt: nat,
    a0x: nat,
    a0y: nat,
    zv: nat,
    sv: nat,
) -> Seq<nat> {
    Seq::new(
        15,
        |j: int|
            if j == 0 {
                xt
            } else if j == 1 {
                yt
            } else if i == 0 && j == 2 {
                a0x
            } else if i == 0 && j == 3 {
                a0y
            } else if i == 0 && j == 4 {
                zv
            } else if i == 50 && j == 5 {
                sv
            } else {
                w[j][2 * i]
            },
    )
}

/// The values of the second row of a scalar-multiplication pair: the
/// ladder's witness columns unchanged.
pub open spec fn vbm_row2_vals(w: Seq<Seq<nat>>, i: int) -> Seq<nat> {
    Seq::new(15, |j: int| w[j][2 * i + 1])
}

/// The cells of the first row of a scalar-multiplication pair: the
/// target's cells, the seed accumulator and sentinel on the first pair,
/// the scalar cell on the last pair, and fresh cells elsewhere, indexed
/// from `nv`.
pub open spec fn vbm_row1_cells(
    nv: nat,
    i: int,
    t0: Var,
    t1: Var,
    a0x: Var,
    a0y: Var,
    zero: Var,
    scalar: Var,
) -> Seq<Var> {
    Seq::new(
        15,
        |j: int|
            if j == 0 {
                t0
            } else if j == 1 {
                t1
            } else if i == 0 && j == 2 {
                a0x
            } else if i == 0 && j == 3 {
                a0y
            } else if i == 0 && j == 4 {
                zero
            } else if i == 50 && j == 5 {
                scalar
            } else {
                (Var { index: (nv + j) as usize, value: None::<Fe> })
            },
    )
}

/// The cells of the second row of a scalar-multiplication pair: fifteen
/// fresh cells indexed from `nv + 15`.
pub open spec fn vbm_row2_cells(nv: nat) -> Seq<Var> {
    Seq::new(15, |j: int| (Var { index: (nv + 15 + j) as usize, value: None::<Fe> }))
}

/// The natural values of externally computed witness columns.
pub open spec fn cols_n(w: Seq<Vec<Fe>>) -> Seq<Seq<nat>> {
    w.map_values(|c: Vec<Fe>| coeff_vals(c@))
}

/// Externally computed witness columns have the ladder's shape: one
/// column per row cell, each of the given length, canonical throughout.
pub open spec fn cols_wf(w: Seq<Vec<Fe>>, len: nat) -> bool {
    &&& w.len() == COLUMNS
    &&& forall|j: int| 0 <= j < w.len() ==> (#[trigger] w[j])@.len() == len
    &&& forall|j: int, k: int| 0 <= j < w.len() && 0 <= k < len ==> (#[trigger] w[j]@[k]).wf()
}

impl Cs {
    /// Appends the zero-knowledge padding: rows of fresh cells drawn from
    /// the caller's generator, under `Zero` gates.
    pub fn zk(&mut self, rng: &mut rand::rngs::StdRng)
        requires
            old(self).wf(),
            !old(self).is_witness() ==> old(self).nvars() + 45 <= usize::MAX,
        ensures
            stepped(*old(self), *final(self), 3, 45),
            !old(self).is_witness() ==> ({
                let gs = final(self).gates_seq();
                let r0 = old(self).gate_count() as int;
                &&& gs.len() == r0 + 3
                &&& gs.subrange(0, r0) == old(self).gates_seq()
                &&& forall|k: int|
                    0 <= k < 3 ==> (#[trigger] gs[r0 + k]).typ == GateType::Zero && gs[r0
                        + k].coeffs@.len() == 0 && gs[r0 + k].row@.len() == COLUMNS && fresh_tail(
                        gs[r0 + k].row@,
                        0,
                        (old(self).nvars() + 15 * k) as nat,
                    )
            }),
    {
        let ghost pre = *old(self);
        let w = self.witness_mode();
        let mut k: usize = 0;
        while k < 3
            invariant
                0 <= k <= 3,
                pre.wf(),
                self.wf(),
                self.is_witness() == pre.is_witness(),
                w == pre.is_witness(),
                self.gate_count() == pre.gate_count() + k,
                self.nvars() == pre.nvars() + (if pre.is_witness() {
                    0nat
                } else {
                    15 * k as nat
                }),
                !pre.is_witness() ==> pre.nvars() + 45 <= usize::MAX,
                pre.is_witness() ==> self.gates_seq() == pre.gates_seq(),
                !pre.is_witness() ==> self.rows_n() == pre.rows_n(),
                !pre.is_witness() ==> ({
                    let gs = self.gates_seq();
                    let r0 = pre.gate_count() as int;
                    &&& gs.len() == r0 + k
                    &&& gs.subrange(0, r0) == pre.gates_seq()
                    &&& forall|i: int|
                        0 <= i < k ==> (#[trigger] gs[r0 + i]).typ == GateType::Zero && gs[r0
                            + i].coeffs@.len() == 0 && gs[r0 + i].row@.len() == COLUMNS
                            && fresh_tail(gs[r0 + i].row@, 0, (pre.nvars() + 15 * i) as nat)
                }),
            decreases 3 - k,
        {
            let ghost mid = *self;
            let mut row: Vec<Var> = Vec::new();
            let mut j: usize = 0;
            while j < COLUMNS
                invariant
                    0 <= j <= COLUMNS,
                    k < 3,
                    mid.wf(),
                    self.wf(),
                    self.is_witness() == mid.is_witness(),
                    mid.is_witness() == pre.is_witness(),
                    w == pre.is_witness(),
                    self.gate_count() == mid.gate_count(),
                    mid.nvars() == pre.nvars() + (if pre.is_witness() {
                        0nat
                    } else {
                        15 * k as nat
                    }),
                    self.nvars() == mid.nvars() + (if pre.is_witness() {
                        0nat
                    } else {
                        j as nat
                    }),
                    !pre.is_witness() ==> pre.nvars() + 45 <= usize::MAX,
                    self.gates_seq() == mid.gates_seq(),
                    self.rows_n() == mid.rows_n(),
                    row@.len() == j,
                    pre.is_witness() ==> row_has_vals(row@),
                    !pre.is_witness() ==> fresh_tail(row@, 0, mid.nvars()),
                decreases COLUMNS - j,
            {
                let vv = if w {
                    Some(fe_rand(rng))
                } else {
                    None
                };
                row.push(self.var(vv));
                j = j + 1;
            }
            self.gate(GateSpec { typ: GateType::Zero, row, coeffs: Vec::new() });
            proof {
                if !pre.is_witness() {
                    assert(self.gates_seq().subrange(0, pre.gate_count() as int)
                        =~= pre.gates_seq());
                }
            }
            k = k + 1;
        }
    }

    /// Allocates the cell of a scalar destined for the endomorphism
    /// ladder.  The caller supplies the scalar's value reinterpreted in
    /// the circuit field; its bit length must be a multiple of four.
    pub fn endo_scalar(&mut self, length: usize, value: Option<Fe>) -> (v: Var)
        requires
            old(self).wf(),
            length % 4 == 0,
            old(self).is_witness() ==> value is Some && value.unwrap().wf(),
            !old(self).is_witness() ==> old(self).nvars() + 1 <= usize::MAX,
        ensures
            stepped(*old(self), *final(self), 0, 1),
            final(self).rows_n() == old(self).rows_n(),
            final(self).gates_seq() == old(self).gates_seq(),
            final(self).compat(v),
            old(self).is_witness() ==> v == (Var { index: 0, value }),
            !old(self).is_witness() ==> v == (Var {
                index: old(self).nvars() as usize,
                value: None::<Fe>,
            }),
    {
        self.var(value)
    }

    /// Allocates the cell of a scalar destined for the multiplication
    /// ladder, wrapped in its shifted encoding.  The caller supplies the
    /// already unshifted value `y` with `x = 2·y + shift` reinterpreted in
    /// the circuit field; the bit length must be a multiple of five.
    pub fn scalar(&mut self, length: usize, value: Option<Fe>) -> (v: ShiftedScalar)
        requires
            old(self).wf(),
            length % 5 == 0,
            old(self).is_witness() ==> value is Some && value.unwrap().wf(),
            !old(self).is_witness() ==> old(self).nvars() + 1 <= usize::MAX,
        ensures
            stepped(*old(self), *final(self), 0, 1),
            final(self).rows_n() == old(self).rows_n(),
            final(self).gates_seq() == old(self).gates_seq(),
            final(self).compat(v.0),
            old(self).is_witness() ==> v.0 == (Var { index: 0, value }),
            !old(self).is_witness() ==> v.0 == (Var {
                index: old(self).nvars() as usize,
                value: None::<Fe>,
            }),
    {
        ShiftedScalar(self.var(value))
    }

    /// Allocates a full row of fresh cells whose witness values are read
    /// from the given column of the ladder's witness table.
    fn fresh_row_from(&mut self, witness: &Vec<Vec<Fe>>, col: usize, len: usize) -> (r: Vec<Var>)
        requires
            old(self).wf(),
            old(self).is_witness() ==> cols_wf(witness@, len as nat) && col < len,
            !old(self).is_witness() ==> old(self).nvars() + COLUMNS <= usize::MAX,
        ensures
            stepped(*old(self), *final(self), 0, COLUMNS as nat),
            final(self).rows_n() == old(self).rows_n(),
            final(self).gates_seq() == old(self).gates_seq(),
            r@.len() == COLUMNS,
            old(self).is_witness() ==> row_has_vals(r@) && row_vals(r@) == Seq::new(
                15,
                |j: int| cols_n(witness@)[j][col as int],
            ),
            !old(self).is_witness() ==> fresh_tail(r@, 0, old(self).nvars()),
    {
        let ghost pre = *old(self);
        let w = self.witness_mode();
        let mut r: Vec<Var> = Vec::new();
        let mut j: usize = 0;
        while j < COLUMNS
            invariant
                0 <= j <= COLUMNS,
                pre.wf(),
                self.wf(),
                self.is_witness() == pre.is_witness(),
                w == pre.is_witness(),
                pre.is_witness() ==> cols_wf(witness@, len as nat) && col < len,
                self.gate_count() == pre.gate_count(),
                self.nvars() == pre.nvars() + (if pre.is_witness() {
                    0nat
                } else {
                    j as nat
                }),
                !pre.is_witness() ==> pre.nvars() + COLUMNS <= usize::MAX,
                self.gates_seq() == pre.gates_seq(),
                self.rows_n() == pre.rows_n(),
                r@.len() == j,
                pre.is_witness() ==> forall|m: int|
                    0 <= m < j ==> (#[trigger] r@[m]).val_wf() && r@[m].val_n() == cols_n(
                        witness@,
                    )[m][col as int],
                !pre.is_witness() ==> fresh_tail(r@, 0, pre.nvars()),
            decreases COLUMNS - j,
        {
            let vv = if w {
                proof {
                    assert(witness@[j as int]@[col as int].wf());
                }
                Some(witness[j][col])
            } else {
                None
            };
            r.push(self.var(vv));
            j = j + 1;
        }
        proof {
            if pre.is_witness() {
                assert(row_vals(r@) =~= Seq::new(15, |j: int| cols_n(witness@)[j][col as int]));
            }
        }
        r
    }

    /// Emits one pair of ladder rows: a `VarBaseMul` row over the witness
    /// columns with the designated cells wired in, and its `Zero`
    /// continuation row.  Returns the continuation row's first two cells.
    #[verifier::rlimit(100)]
    fn vbm_pair(
        &mut self,
        witness: &Vec<Vec<Fe>>,
        i: usize,
        t: (Var, Var),
        acc0: (Var, Var),
        zero: Var,
        scalar: Var,
    ) -> (pr: (Var, Var))
        requires
            old(self).wf(),
            i < 51,
            old(self).compat(t.0),
            old(self).compat(t.1),
            old(self).compat(acc0.0),
            old(self).compat(acc0.1),
            old(self).compat(zero),
            old(self).compat(scalar),
            old(self).is_witness() ==> cols_wf(witness@, 102),
            !old(self).is_witness() ==> old(self).nvars() + 30 <= usize::MAX,
        ensures
            stepped(*old(self), *final(self), 2, 30),
            final(self).compat(pr.0),
            final(self).compat(pr.1),
            old(self).is_witness() ==> final(self).rows_n() == old(self).rows_n().push(
                vbm_row1_vals(
                    cols_n(witness@),
                    i as int,
                    t.0.val_n(),
                    t.1.val_n(),
                    acc0.0.val_n(),
                    acc0.1.val_n(),
                    zero.val_n(),
                    scalar.val_n(),
                ),
            ).push(vbm_row2_vals(cols_n(witness@), i as int)),
            old(self).is_witness() ==> pr.0.val_n() == cols_n(witness@)[0][2 * i + 1]
                && pr.1.val_n() == cols_n(witness@)[1][2 * i + 1],
            !old(self).is_witness() ==> ({
                let gs = final(self).gates_seq();
                let r0 = old(self).gate_count() as int;
                let nv = old(self).nvars();
                &&& gs.len() == r0 + 2
                &&& gs.subrange(0, r0) == old(self).gates_seq()
                &&& gs[r0].typ == GateType::VarBaseMul
                &&& gs[r0].coeffs@.len() == 0
                &&& gs[r0].row@ == vbm_row1_cells(nv, i as int, t.0, t.1, acc0.0, acc0.1, zero, scalar)
                &&& gs[r0 + 1].typ == GateType::Zero
                &&& gs[r0 + 1].coeffs@.len() == 0
                &&& gs[r0 + 1].row@ == vbm_row2_cells(nv)
                &&& pr.0 == (Var { index: (nv + 15) as usize, value: None::<Fe> })
                &&& pr.1 == (Var { index: (nv + 16) as usize, value: None::<Fe> })
            }),
    {
        let ghost pre = *old(self);
        let ghost wn = cols_n(witness@);
        let mut row1 = self.fresh_row_from(witness, 2 * i, 102);
        let ghost orig1 = row1@;
        let row2 = self.fresh_row_from(witness, 2 * i + 1, 102);
        row1.set(0, t.0);
        row1.set(1, t.1);
        if i == 0 {
            row1.set(2, acc0.0);
            row1.set(3, acc0.1);
            row1.set(4, zero);
        }
        if i == 50 {
            row1.set(5, scalar);
        }
        let pr = (row2[0], row2[1]);
        proof {
            if pre.is_witness() {
                let spec_row = vbm_row1_vals(
                    wn,
                    i as int,
                    t.0.val_n(),
                    t.1.val_n(),
                    acc0.0.val_n(),
                    acc0.1.val_n(),
                    zero.val_n(),
                    scalar.val_n(),
                );
                assert forall|m: int| 0 <= m < row1@.len() implies (
                #[trigger] row1@[m]).val_wf() && row1@[m].val_n() == spec_row[m] by {
                    assert(row_vals(orig1)[m] == orig1[m].val_n());
                }
                assert(row_has_vals(row1@));
                assert(row_vals(row1@) =~= spec_row);
                assert forall|m: int| 0 <= m < row2@.len() implies #[trigger] row2@[m].val_n()
                    == vbm_row2_vals(wn, i as int)[m] by {
                    assert(row_vals(row2@)[m] == row2@[m].val_n());
                }
                assert(row_vals(row2@) =~= vbm_row2_vals(wn, i as int));
                assert(row_vals(row2@)[0] == row2@[0].val_n());
                assert(row_vals(row2@)[1] == row2@[1].val_n());
            }
        }
        proof {
            if !pre.is_witness() {
                assert forall|j: int| 0 <= j < 15 implies #[trigger] row1@[j] == vbm_row1_cells(
                    pre.nvars(),
                    i as int,
                    t.0,
                    t.1,
                    acc0.0,
                    acc0.1,
                    zero,
                    scalar,
                )[j] by {
                    assert(orig1[j] == (Var {
                        index: (pre.nvars() + j) as usize,
                        value: None::<Fe>,
                    }));
                }
                assert(row1@ =~= vbm_row1_cells(
                    pre.nvars(),
                    i as int,
                    t.0,
                    t.1,
                    acc0.0,
                    acc0.1,
                    zero,
                    scalar,
                ));
                assert(row2@ =~= vbm_row2_cells(pre.nvars()));
            }
        }
        self.gate(GateSpec { typ: GateType::VarBaseMul, row: row1, coeffs: Vec::new() });
        self.gate(GateSpec { typ: GateType::Zero, row: row2, coeffs: Vec::new() });
        proof {
            if !pre.is_witness() {
                assert(final(self).gates_seq().subrange(0, pre.gate_count() as int)
                    =~= pre.gates_seq());
            }
        }
        pr
    }

    /// Multiplies the target point by a 255-bit shifted scalar: a seed
    /// doubling row, then fifty-one pairs of `VarBaseMul` and `Zero` rows
    /// carrying the ladder's externally computed witness columns, with the
    /// target, the seed accumulator and the scalar cell wired into their
    /// designated positions.  Returns the result cells of the last pair.
    #[verifier::rlimit(100)]
    pub fn scalar_mul(
        &mut self,
        zero: Var,
        t: (Var, Var),
        scalar: ShiftedScalar,
        witness: &Vec<Vec<Fe>>,
    ) -> (r: (Var, Var))
        requires
            old(self).wf(),
            old(self).compat(zero),
            old(self).compat(t.0),
            old(self).compat(t.1),
            old(self).compat(scalar.0),
            old(self).is_witness() ==> t.1.val_n() != 0,
            old(self).is_witness() ==> cols_wf(witness@, 102),
            !old(self).is_witness() ==> old(self).nvars() + 1537 <= usize::MAX,
        ensures
            stepped(*old(self), *final(self), 103, 1537),
            final(self).compat(r.0),
            final(self).compat(r.1),
            old(self).is_witness() ==> r.0.val_n() == cols_n(witness@)[0][101] && r.1.val_n()
                == cols_n(witness@)[1][101],
            old(self).is_witness() ==> ({
                let wn = cols_n(witness@);
                let xt = t.0.val_n();
                let yt = t.1.val_n();
                let a0x = ec_x3(xt, yt, xt, yt);
                let a0y = ec_y3(xt, yt, xt, yt);
                final(self).rows_n() == old(self).rows_n().push(
                    seq![
                        xt,
                        yt,
                        xt,
                        yt,
                        a0x,
                        a0y,
                        zero.val_n(),
                        ec_same_x(xt, xt),
                        ec_slope(xt, yt, xt, yt),
                        ec_inf_z(xt, yt, xt, yt),
                        ec_x21_inv(xt, xt),
                        zero.val_n(),
                        zero.val_n(),
                        zero.val_n(),
                        zero.val_n(),
                    ],
                ) + Seq::new(
                    102,
                    |k: int|
                        if k % 2 == 0 {
                            vbm_row1_vals(
                                wn,
                                k / 2,
                                xt,
                                yt,
                                a0x,
                                a0y,
                                zero.val_n(),
                                scalar.0.val_n(),
                            )
                        } else {
                            vbm_row2_vals(wn, k / 2)
                        },
                )
            }),
            !old(self).is_witness() ==> ({
                let gs = final(self).gates_seq();
                let r0 = old(self).gate_count() as int;
                let nv = old(self).nvars();
                &&& gs.len() == r0 + 103
                &&& gs.subrange(0, r0) == old(self).gates_seq()
                &&& gs[r0].typ == GateType::CompleteAdd
                &&& forall|i: int|
                    0 <= i < 51 ==> (#[trigger] gs[r0 + 1 + 2 * i]).typ == GateType::VarBaseMul
                        && gs[r0 + 1 + 2 * i].coeffs@.len() == 0 && gs[r0 + 1 + 2 * i].row@
                        == vbm_row1_cells(
                        (nv + 7 + 30 * i) as nat,
                        i,
                        t.0,
                        t.1,
                        (Var { index: (nv + 4) as usize, value: None::<Fe> }),
                        (Var { index: (nv + 5) as usize, value: None::<Fe> }),
                        zero,
                        scalar.0,
                    )
                &&& forall|i: int|
                    0 <= i < 51 ==> (#[trigger] gs[r0 + 2 + 2 * i]).typ == GateType::Zero && gs[r0
                        + 2 + 2 * i].coeffs@.len() == 0 && gs[r0 + 2 + 2 * i].row@
                        == vbm_row2_cells((nv + 7 + 30 * i) as nat)
                &&& r.0 == gs[r0 + 102].row@[0]
                &&& r.1 == gs[r0 + 102].row@[1]
                &&& r.0 == (Var { index: (nv + 1522) as usize, value: None::<Fe> })
                &&& r.1 == (Var { index: (nv + 1523) as usize, value: None::<Fe> })
            }),
    {
        let ghost pre = *old(self);
        let w = self.witness_mode();
        let acc0 = self.add_group(zero, t, t);
        let thr = self.var_zero();
        let mut res = (thr, thr);
        let ghost base_rows = self.rows_n();
        let ghost wn = cols_n(witness@);
        let ghost xtg = t.0.val_n();
        let ghost ytg = t.1.val_n();
        let ghost a0xg = ec_x3(xtg, ytg, xtg, ytg);
        let ghost a0yg = ec_y3(xtg, ytg, xtg, ytg);
        let mut i: usize = 0;
        while i < 51
            invariant
                0 <= i <= 51,
                pre.wf(),
                self.wf(),
                self.is_witness() == pre.is_witness(),
                w == pre.is_witness(),
                pre.is_witness() ==> cols_wf(witness@, 102),
                wn == cols_n(witness@),
                xtg == t.0.val_n(),
                ytg == t.1.val_n(),
                a0xg == ec_x3(xtg, ytg, xtg, ytg),
                a0yg == ec_y3(xtg, ytg, xtg, ytg),
                self.gate_count() == pre.gate_count() + 1 + 2 * i,
                self.nvars() == pre.nvars() + (if pre.is_witness() {
                    0nat
                } else {
                    (7 + 30 * i) as nat
                }),
                !pre.is_witness() ==> pre.nvars() + 1537 <= usize::MAX,
                pre.is_witness() ==> self.gates_seq() == pre.gates_seq(),
                !pre.is_witness() ==> self.rows_n() == pre.rows_n(),
                pre.is_witness() ==> t.0.val_wf() && t.1.val_wf() && zero.val_wf()
                    && scalar.0.val_wf(),
                pre.is_witness() ==> acc0.0.val_wf() && acc0.1.val_wf() && acc0.0.val_n() == a0xg
                    && acc0.1.val_n() == a0yg,
                !pre.is_witness() ==> acc0.0 == (Var {
                    index: (pre.nvars() + 4) as usize,
                    value: None::<Fe>,
                }) && acc0.1 == (Var { index: (pre.nvars() + 5) as usize, value: None::<Fe> }),
                pre.is_witness() ==> self.rows_n() == base_rows + Seq::new(
                    (2 * i) as nat,
                    |k: int|
                        if k % 2 == 0 {
                            vbm_row1_vals(wn, k / 2, xtg, ytg, a0xg, a0yg, zero.val_n(), scalar.0.val_n())
                        } else {
                            vbm_row2_vals(wn, k / 2)
                        },
                ),
                pre.is_witness() ==> base_rows == pre.rows_n().push(
                    seq![
                        xtg,
                        ytg,
                        xtg,
                        ytg,
                        a0xg,
                        a0yg,
                        zero.val_n(),
                        ec_same_x(xtg, xtg),
                        ec_slope(xtg, ytg, xtg, ytg),
                        ec_inf_z(xtg, ytg, xtg, ytg),
                        ec_x21_inv(xtg, xtg),
                        zero.val_n(),
                        zero.val_n(),
                        zero.val_n(),
                        zero.val_n(),
                    ],
                ),
                pre.is_witness() ==> res.0.val_wf() && res.1.val_wf(),
                pre.is_witness() && i == 51 ==> res.0.val_n() == wn[0][101] && res.1.val_n()
                    == wn[1][101],
                !pre.is_witness() ==> ({
                    let gs = self.gates_seq();
                    let r0 = pre.gate_count() as int;
                    let nv = pre.nvars();
                    &&& gs.len() == r0 + 1 + 2 * i
                    &&& gs.subrange(0, r0) == pre.gates_seq()
                    &&& gs[r0].typ == GateType::CompleteAdd
                    &&& forall|m: int|
                        0 <= m < i ==> (#[trigger] gs[r0 + 1 + 2 * m]).typ == GateType::VarBaseMul
                            && gs[r0 + 1 + 2 * m].coeffs@.len() == 0 && gs[r0 + 1 + 2 * m].row@
                            == vbm_row1_cells(
                            (nv + 7 + 30 * m) as nat,
                            m,
                            t.0,
                            t.1,
                            (Var { index: (nv + 4) as usize, value: None::<Fe> }),
                            (Var { index: (nv + 5) as usize, value: None::<Fe> }),
                            zero,
                            scalar.0,
                        )
                    &&& forall|m: int|
                        0 <= m < i ==> (#[trigger] gs[r0 + 2 + 2 * m]).typ == GateType::Zero && gs[
                        r0 + 2 + 2 * m].coeffs@.len() == 0 && gs[r0 + 2 + 2 * m].row@
                            == vbm_row2_cells((nv + 7 + 30 * m) as nat)
                    &&& (i == 51 ==> res.0 == (Var {
                        index: (nv + 1522) as usize,
                        value: None::<Fe>,
                    }) && res.1 == (Var { index: (nv + 1523) as usize, value: None::<Fe> }))
                }),
            decreases 51 - i,
        {
            let ghost gprev = self.gates_seq();
            let ghost rprev = self.rows_n();
            let ghost r1v = vbm_row1_vals(wn, i as int, xtg, ytg, a0xg, a0yg, zero.val_n(), scalar.0.val_n());
            let ghost r2v = vbm_row2_vals(wn, i as int);
            let pr = self.vbm_pair(witness, i, t, acc0, zero, scalar.0);
            if i == 50 {
                res = pr;
            }
            proof {
                if pre.is_witness() {
                    assert(wn == cols_n(witness@) && xtg == t.0.val_n() && ytg == t.1.val_n()
                        && a0xg == acc0.0.val_n() && a0yg == acc0.1.val_n());
                    assert(r1v == vbm_row1_vals(
                        cols_n(witness@),
                        i as int,
                        t.0.val_n(),
                        t.1.val_n(),
                        acc0.0.val_n(),
                        acc0.1.val_n(),
                        zero.val_n(),
                        scalar.0.val_n(),
                    ));
                    assert(r2v == vbm_row2_vals(cols_n(witness@), i as int));
                    assert(self.rows_n() == rprev.push(r1v).push(r2v));
                    assert(rprev == base_rows + Seq::new(
                        (2 * i) as nat,
                        |k: int|
                            if k % 2 == 0 {
                                vbm_row1_vals(wn, k / 2, xtg, ytg, a0xg, a0yg, zero.val_n(), scalar.0.val_n())
                            } else {
                                vbm_row2_vals(wn, k / 2)
                            },
                    ));
                    assert(self.rows_n() =~~= base_rows + Seq::new(
                        (2 * (i + 1)) as nat,
                        |k: int|
                            if k % 2 == 0 {
                                vbm_row1_vals(wn, k / 2, xtg, ytg, a0xg, a0yg, zero.val_n(), scalar.0.val_n())
                            } else {
                                vbm_row2_vals(wn, k / 2)
                            },
                    ));
                } else {
                    assert(self.gates_seq().subrange(0, pre.gate_count() as int)
                        =~= pre.gates_seq());
                    assert(self.gates_seq().subrange(0, gprev.len() as int) =~= gprev);
                    assert forall|x: int| 0 <= x < gprev.len() implies #[trigger] self.gates_seq()[x]
                        == gprev[x] by {
                        assert(self.gates_seq().subrange(0, gprev.len() as int)[x]
                            == self.gates_seq()[x]);
                    }
                }
            }
            i = i + 1;
        }
        proof {
            if pre.is_witness() {
                assert(final(self).rows_n() =~~= pre.rows_n().push(
                    seq![
                        xtg,
                        ytg,
                        xtg,
                        ytg,
                        a0xg,
                        a0yg,
                        zero.val_n(),
                        ec_same_x(xtg, xtg),
                        ec_slope(xtg, ytg, xtg, ytg),
                        ec_inf_z(xtg, ytg, xtg, ytg),
                        ec_x21_inv(xtg, xtg),
                        zero.val_n(),
                        zero.val_n(),
                        zero.val_n(),
                        zero.val_n(),
                    ],
                ) + Seq::new(
                    102,
                    |k: int|
                        if k % 2 == 0 {
                            vbm_row1_vals(wn, k / 2, xtg, ytg, a0xg, a0yg, zero.val_n(), scalar.0.val_n())
                        } else {
                            vbm_row2_vals(wn, k / 2)
                        },
                ));
            } else {
                let nv = pre.nvars();
                let r0 = pre.gate_count() as int;
                assert(self.gates_seq()[r0 + 2 + 2 * 50].row@ == vbm_row2_cells(
                    (nv + 7 + 30 * 50) as nat,
                ));
                assert(vbm_row2_cells((nv + 7 + 30 * 50) as nat)[0] == (Var {
                    index: (nv + 1522) as usize,
                    value: None::<Fe>,
                }));
                assert(vbm_row2_cells((nv + 7 + 30 * 50) as nat)[1] == (Var {
                    index: (nv + 1523) as usize,
                    value: None::<Fe>,
                }));
            }
        }
        res
    }
}

} // verus!

