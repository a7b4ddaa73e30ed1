//! The Poseidon permutation gadget.
//!
//! The permutation itself — fifty-five full rounds of S-box, MDS mix and
//! round-constant addition over a width-three state — is computed here from
//! the caller's parameter bundle, and one `Poseidon` gate is emitted for
//! every five rounds, followed by a `Zero` row pinning the final state.

use vstd::prelude::*;
use crate::COLUMNS;
use crate::field::Fe;
use crate::field::fadd;
use crate::field::fmul;
use crate::field::fpow;
use crate::field::fe_add;
use crate::field::fe_mul;
use crate::field::fe_pow7;
use crate::types::GateSpec;
use crate::types::GateType;
use crate::types::PoseidonParams;
use crate::types::Constants;
use crate::types::Var;
use crate::types::ROUNDS_FULL;
use crate::types::ROUNDS_PER_ROW;
use crate::types::POS_ROWS_PER_HASH;
use crate::types::SPONGE_WIDTH;
use crate::types::coeff_vals;
use crate::types::row_has_vals;
use crate::types::row_vals;
use crate::writer::Cs;
use crate::writer::padded;
use crate::writer::stepped;

verus! {

/// The Poseidon S-box: the seventh power.
#[verifier::opaque]
pub open spec fn sbox(x: nat) -> nat {
    fpow(x, 7)
}

/// One entry of the MDS mix of the S-boxed state.
#[verifier::opaque]
pub open spec fn mds_dot(m: Seq<Seq<nat>>, s: Seq<nat>, i: int) -> nat {
    fadd(fadd(fmul(m[i][0], sbox(s[0])), fmul(m[i][1], sbox(s[1]))), fmul(m[i][2], sbox(s[2])))
}

/// One full round: the state is S-boxed elementwise, mixed through the MDS
/// matrix, and shifted by the round constants of round `r`.
#[verifier::opaque]
pub open spec fn full_round_spec(rc: Seq<Seq<nat>>, m: Seq<Seq<nat>>, s: Seq<nat>, r: int) -> Seq<
    nat,
> {
    seq![
        fadd(mds_dot(m, s, 0), rc[r][0]),
        fadd(mds_dot(m, s, 1), rc[r][1]),
        fadd(mds_dot(m, s, 2), rc[r][2]),
    ]
}

/// The state after the first `rounds` full rounds.
pub open spec fn perm_spec(rc: Seq<Seq<nat>>, m: Seq<Seq<nat>>, s: Seq<nat>, rounds: nat) -> Seq<
    nat,
>
    decreases rounds,
{
    if rounds == 0 {
        s
    } else {
        full_round_spec(rc, m, perm_spec(rc, m, s, (rounds - 1) as nat), rounds - 1)
    }
}

/// The cell values of the Poseidon row covering rounds `5r` to `5r + 4`:
/// the state entering the row, then the states after four, one, two and
/// three of its rounds.
pub open spec fn pos_row_vals(rc: Seq<Seq<nat>>, m: Seq<Seq<nat>>, s0: Seq<nat>, r: int) -> Seq<
    nat,
> {
    perm_spec(rc, m, s0, (5 * r) as nat) + perm_spec(rc, m, s0, (5 * r + 4) as nat) + perm_spec(
        rc,
        m,
        s0,
        (5 * r + 1) as nat,
    ) + perm_spec(rc, m, s0, (5 * r + 2) as nat) + perm_spec(rc, m, s0, (5 * r + 3) as nat)
}

/// The cells of the Poseidon row `m` of one permutation call that
/// started with the cells `inp` and fresh indices from `nv0`: the state
/// entering the row, then the cells of the states after four, one, two
/// and three of its rounds.
pub open spec fn pos_row_cells(nv0: nat, inp: Seq<Var>, m: int) -> Seq<Var> {
    let base = nv0 + 15 * m;
    (if m == 0 {
        inp
    } else {
        seq![
            (Var { index: (base - 3) as usize, value: None::<Fe> }),
            (Var { index: (base - 2) as usize, value: None::<Fe> }),
            (Var { index: (base - 1) as usize, value: None::<Fe> }),
        ]
    }) + seq![
        (Var { index: (base + 9) as usize, value: None::<Fe> }),
        (Var { index: (base + 10) as usize, value: None::<Fe> }),
        (Var { index: (base + 11) as usize, value: None::<Fe> }),
        (Var { index: base as usize, value: None::<Fe> }),
        (Var { index: (base + 1) as usize, value: None::<Fe> }),
        (Var { index: (base + 2) as usize, value: None::<Fe> }),
        (Var { index: (base + 3) as usize, value: None::<Fe> }),
        (Var { index: (base + 4) as usize, value: None::<Fe> }),
        (Var { index: (base + 5) as usize, value: None::<Fe> }),
        (Var { index: (base + 6) as usize, value: None::<Fe> }),
        (Var { index: (base + 7) as usize, value: None::<Fe> }),
        (Var { index: (base + 8) as usize, value: None::<Fe> }),
    ]
}

/// The coefficient values of the Poseidon row covering rounds `5r` to
/// `5r + 4`: its five rounds' constants, flattened.
pub open spec fn pos_row_coeffs(rc: Seq<Seq<nat>>, r: int) -> Seq<nat> {
    Seq::new(15, |i: int| rc[5 * r + i / 3][i % 3])
}

/// Computes one full Poseidon round from the given state.
pub fn poseidon_full_round(params: &PoseidonParams, state: &Vec<Fe>, r: usize) -> (ns: Vec<Fe>)
    requires
        params.wf(),
        state@.len() == SPONGE_WIDTH,
        forall|i: int| 0 <= i < state@.len() ==> (#[trigger] state@[i]).wf(),
        r < ROUNDS_FULL,
    ensures
        ns@.len() == SPONGE_WIDTH,
        forall|i: int| 0 <= i < ns@.len() ==> (#[trigger] ns@[i]).wf(),
        coeff_vals(ns@) == full_round_spec(params.rc(), params.mds_n(), coeff_vals(state@), r as int),
{
    proof {
        reveal(sbox);
        reveal(mds_dot);
        reveal(full_round_spec);
    }
    let s0 = fe_pow7(&state[0]);
    let s1 = fe_pow7(&state[1]);
    let s2 = fe_pow7(&state[2]);
    let mut ns: Vec<Fe> = Vec::new();
    let mut i: usize = 0;
    while i < 3
        invariant
            0 <= i <= 3,
            params.wf(),
            state@.len() == SPONGE_WIDTH,
            forall|k: int| 0 <= k < state@.len() ==> (#[trigger] state@[k]).wf(),
            r < ROUNDS_FULL,
            s0.wf() && s0@ == sbox(state@[0]@),
            s1.wf() && s1@ == sbox(state@[1]@),
            s2.wf() && s2@ == sbox(state@[2]@),
            ns@.len() == i,
            forall|k: int|
                0 <= k < i ==> (#[trigger] ns@[k]).wf() && ns@[k]@ == fadd(
                    mds_dot(params.mds_n(), coeff_vals(state@), k),
                    params.rc()[r as int][k],
                ),
        decreases 3 - i,
    {
        let m = &params.mds[i];
        let dot = fe_add(&fe_add(&fe_mul(&m[0], &s0), &fe_mul(&m[1], &s1)), &fe_mul(&m[2], &s2));
        let e = fe_add(&dot, &params.round_constants[r][i]);
        proof {
            reveal(sbox);
            reveal(mds_dot);
            assert(params.mds@[i as int]@[0] == m@[0]);
            assert(coeff_vals(state@)[0] == state@[0]@);
            assert(coeff_vals(state@)[1] == state@[1]@);
            assert(coeff_vals(state@)[2] == state@[2]@);
            assert(params.mds_n()[i as int][0] == params.mds@[i as int]@[0]@);
            assert(params.mds_n()[i as int][1] == params.mds@[i as int]@[1]@);
            assert(params.mds_n()[i as int][2] == params.mds@[i as int]@[2]@);
            assert(params.rc()[r as int][i as int] == params.round_constants@[r as int]@[i as int]@);
        }
        ns.push(e);
        i = i + 1;
    }
    proof {
        assert(coeff_vals(ns@) =~= full_round_spec(
            params.rc(),
            params.mds_n(),
            coeff_vals(state@),
            r as int,
        ));
    }
    ns
}

/// Builds the fifteen coefficients of one Poseidon row: the constants of
/// its five rounds, flattened.
fn pos_coeffs(params: &PoseidonParams, r: usize) -> (coeffs: Vec<Fe>)
    requires
        params.wf(),
        r < POS_ROWS_PER_HASH,
    ensures
        coeffs@.len() == 15,
        coeff_vals(coeffs@) == pos_row_coeffs(params.rc(), r as int),
{
    let idx = r * ROUNDS_PER_ROW;
    let mut coeffs: Vec<Fe> = Vec::new();
    let mut j: usize = 0;
    while j < 15
        invariant
            0 <= j <= 15,
            params.wf(),
            idx == r * ROUNDS_PER_ROW,
            r < POS_ROWS_PER_HASH,
            coeffs@.len() == j,
            forall|k: int|
                0 <= k < j ==> (#[trigger] coeffs@[k])@ == pos_row_coeffs(params.rc(), r as int)[k],
        decreases 15 - j,
    {
        coeffs.push(params.round_constants[idx + j / 3][j % 3]);
        proof {
            let x = (idx + j / 3) as int;
            assert(params.rc()[x] == coeff_vals(params.round_constants@[x]@));
            assert(pos_row_coeffs(params.rc(), r as int)[j as int] == params.rc()[5 * (r as int)
                + (j as int) / 3][(j as int) % 3]);
            assert(5 * (r as int) + (j as int) / 3 == x);
        }
        j = j + 1;
    }
    proof {
        assert(coeff_vals(coeffs@) =~= pos_row_coeffs(params.rc(), r as int));
    }
    coeffs
}

impl Cs {
    /// Allocates the three cells of the state after one more full round.
    fn pos_round(&mut self, params: &PoseidonParams, prev: &Vec<Var>, r: usize) -> (ns: Vec<Var>)
        requires
            old(self).wf(),
            params.wf(),
            r < ROUNDS_FULL,
            prev@.len() == SPONGE_WIDTH,
            forall|i: int| 0 <= i < prev@.len() ==> old(self).compat(#[trigger] prev@[i]),
            !old(self).is_witness() ==> old(self).nvars() + 3 <= usize::MAX,
        ensures
            stepped(*old(self), *final(self), 0, 3),
            final(self).rows_n() == old(self).rows_n(),
            final(self).gates_seq() == old(self).gates_seq(),
            ns@.len() == SPONGE_WIDTH,
            forall|i: int| 0 <= i < ns@.len() ==> final(self).compat(#[trigger] ns@[i]),
            old(self).is_witness() ==> row_vals(ns@) == full_round_spec(
                params.rc(),
                params.mds_n(),
                row_vals(prev@),
                r as int,
            ),
            !old(self).is_witness() ==> ns@ == seq![
                (Var { index: old(self).nvars() as usize, value: None::<Fe> }),
                (Var { index: (old(self).nvars() + 1) as usize, value: None::<Fe> }),
                (Var { index: (old(self).nvars() + 2) as usize, value: None::<Fe> }),
            ],
    {
        let w = self.witness_mode();
        let nsv = if w {
            let mut pv: Vec<Fe> = Vec::new();
            pv.push(prev[0].val());
            pv.push(prev[1].val());
            pv.push(prev[2].val());
            proof {
                assert(prev@[0].val_wf());
                assert(prev@[1].val_wf());
                assert(prev@[2].val_wf());
                assert(coeff_vals(pv@) =~= row_vals(prev@));
            }
            Some(poseidon_full_round(params, &pv, r))
        } else {
            None
        };
        let mut ns: Vec<Var> = Vec::new();
        let v0 = self.var(
            match &nsv {
                Some(x) => Some(x[0]),
                None => None,
            },
        );
        let v1 = self.var(
            match &nsv {
                Some(x) => Some(x[1]),
                None => None,
            },
        );
        let v2 = self.var(
            match &nsv {
                Some(x) => Some(x[2]),
                None => None,
            },
        );
        ns.push(v0);
        ns.push(v1);
        ns.push(v2);
        proof {
            if old(self).is_witness() {
                let x = nsv.unwrap();
                assert(row_vals(ns@) =~= coeff_vals(x@));
            } else {
                assert(ns@ =~= seq![v0, v1, v2]);
            }
        }
        ns
    }

    /// Emits one `Poseidon` row: five rounds computed from the incoming
    /// state, with the row carrying the entering state and four of the
    /// five intermediate states; the fifth is returned as the next state.
    #[verifier::rlimit(100)]
    fn pos_block(&mut self, params: &PoseidonParams, prev: Vec<Var>, r: usize) -> (ns: Vec<Var>)
        requires
            old(self).wf(),
            params.wf(),
            r < POS_ROWS_PER_HASH,
            prev@.len() == SPONGE_WIDTH,
            forall|i: int| 0 <= i < prev@.len() ==> old(self).compat(#[trigger] prev@[i]),
            !old(self).is_witness() ==> old(self).nvars() + 15 <= usize::MAX,
        ensures
            stepped(*old(self), *final(self), 1, 15),
            ns@.len() == SPONGE_WIDTH,
            forall|i: int| 0 <= i < ns@.len() ==> final(self).compat(#[trigger] ns@[i]),
            old(self).is_witness() ==> ({
                let rc = params.rc();
                let m = params.mds_n();
                let s = row_vals(prev@);
                let s1 = full_round_spec(rc, m, s, 5 * r);
                let s2 = full_round_spec(rc, m, s1, 5 * r + 1);
                let s3 = full_round_spec(rc, m, s2, 5 * r + 2);
                let s4 = full_round_spec(rc, m, s3, 5 * r + 3);
                let s5 = full_round_spec(rc, m, s4, 5 * r + 4);
                &&& row_vals(ns@) == s5
                &&& final(self).rows_n() == old(self).rows_n().push(s + s4 + s1 + s2 + s3)
                &&& final(self).gates_seq() == old(self).gates_seq()
            }),
            !old(self).is_witness() ==> ({
                let gs = final(self).gates_seq();
                let nv = old(self).nvars();
                &&& final(self).rows_n() == old(self).rows_n()
                &&& gs == old(self).gates_seq().push(gs.last())
                &&& gs.last().typ == GateType::Poseidon
                &&& gs.last().row@.len() == COLUMNS
                &&& coeff_vals(gs.last().coeffs@) == pos_row_coeffs(params.rc(), r as int)
                &&& gs.last().row@[0] == prev@[0]
                &&& gs.last().row@[1] == prev@[1]
                &&& gs.last().row@[2] == prev@[2]
                &&& forall|c: int|
                    3 <= c < 6 ==> (#[trigger] gs.last().row@[c]) == (Var {
                        index: (nv + 6 + c) as usize,
                        value: None::<Fe>,
                    })
                &&& forall|c: int|
                    6 <= c < 15 ==> (#[trigger] gs.last().row@[c]) == (Var {
                        index: (nv + c - 6) as usize,
                        value: None::<Fe>,
                    })
                &&& ns@ == seq![
                    (Var { index: (nv + 12) as usize, value: None::<Fe> }),
                    (Var { index: (nv + 13) as usize, value: None::<Fe> }),
                    (Var { index: (nv + 14) as usize, value: None::<Fe> }),
                ]
            }),
    {
        let ghost pre = *old(self);
        let idx = r * ROUNDS_PER_ROW;
        let s1 = self.pos_round(params, &prev, idx);
        let s2 = self.pos_round(params, &s1, idx + 1);
        let s3 = self.pos_round(params, &s2, idx + 2);
        let s4 = self.pos_round(params, &s3, idx + 3);
        let s5 = self.pos_round(params, &s4, idx + 4);
        let coeffs = pos_coeffs(params, r);
        let mut row: Vec<Var> = Vec::new();
        row.push(prev[0]);
        row.push(prev[1]);
        row.push(prev[2]);
        row.push(s4[0]);
        row.push(s4[1]);
        row.push(s4[2]);
        row.push(s1[0]);
        row.push(s1[1]);
        row.push(s1[2]);
        row.push(s2[0]);
        row.push(s2[1]);
        row.push(s2[2]);
        row.push(s3[0]);
        row.push(s3[1]);
        row.push(s3[2]);
        proof {
            if pre.is_witness() {
                assert(row_has_vals(row@)) by {
                    assert forall|k: int| 0 <= k < row@.len() implies (
                    #[trigger] row@[k]).val_wf() by {
                        if k < 3 {
                            assert(prev@[k].val_wf());
                        }
                    }
                }
                assert(row_vals(row@) =~= row_vals(prev@) + row_vals(s4@) + row_vals(s1@)
                    + row_vals(s2@) + row_vals(s3@));
            } else {
                let nv = pre.nvars();
                assert forall|c: int| 3 <= c < 6 implies (#[trigger] row@[c]) == (Var {
                    index: (nv + 6 + c) as usize,
                    value: None::<Fe>,
                }) by {
                    assert(row@[c] == s4@[c - 3]);
                }
                assert forall|c: int| 6 <= c < 15 implies (#[trigger] row@[c]) == (Var {
                    index: (nv + c - 6) as usize,
                    value: None::<Fe>,
                }) by {
                    if c < 9 {
                        assert(row@[c] == s1@[c - 6]);
                    } else if c < 12 {
                        assert(row@[c] == s2@[c - 9]);
                    } else {
                        assert(row@[c] == s3@[c - 12]);
                    }
                }
            }
        }
        self.gate(GateSpec { typ: GateType::Poseidon, row, coeffs });
        s5
    }

    /// Applies the Poseidon permutation to the width-three input state,
    /// emitting one `Poseidon` gate per five rounds and a trailing `Zero`
    /// row that pins the final state, which is returned.
    #[verifier::rlimit(100)]
    pub fn poseidon(&mut self, constants: &Constants, input: Vec<Var>) -> (out: Vec<Var>)
        requires
            old(self).wf(),
            constants.poseidon.wf(),
            input@.len() == SPONGE_WIDTH,
            forall|i: int| 0 <= i < input@.len() ==> old(self).compat(#[trigger] input@[i]),
            !old(self).is_witness() ==> old(self).nvars() + 180 <= usize::MAX,
        ensures
            stepped(*old(self), *final(self), 12, 180),
            out@.len() == SPONGE_WIDTH,
            forall|i: int| 0 <= i < out@.len() ==> final(self).compat(#[trigger] out@[i]),
            old(self).is_witness() ==> row_vals(out@) == perm_spec(
                constants.poseidon.rc(),
                constants.poseidon.mds_n(),
                row_vals(input@),
                ROUNDS_FULL as nat,
            ),
            old(self).is_witness() ==> final(self).rows_n() == old(self).rows_n() + Seq::new(
                POS_ROWS_PER_HASH as nat,
                |r: int|
                    pos_row_vals(
                        constants.poseidon.rc(),
                        constants.poseidon.mds_n(),
                        row_vals(input@),
                        r,
                    ),
            ).push(
                padded(
                    perm_spec(
                        constants.poseidon.rc(),
                        constants.poseidon.mds_n(),
                        row_vals(input@),
                        ROUNDS_FULL as nat,
                    ),
                ),
            ),
            !old(self).is_witness() ==> ({
                let gs = final(self).gates_seq();
                let r0 = old(self).gate_count() as int;
                &&& gs.len() == r0 + 12
                &&& gs.subrange(0, r0) == old(self).gates_seq()
                &&& forall|r: int|
                    0 <= r < POS_ROWS_PER_HASH ==> (#[trigger] gs[r0 + r]).typ
                        == GateType::Poseidon && gs[r0 + r].row@.len() == COLUMNS && coeff_vals(
                        gs[r0 + r].coeffs@,
                    ) == pos_row_coeffs(constants.poseidon.rc(), r) && gs[r0 + r].row@
                        == pos_row_cells(old(self).nvars(), input@, r)
                &&& gs[r0 + 11].typ == GateType::Zero
                &&& gs[r0 + 11].coeffs@.len() == 0
                &&& gs[r0 + 11].row@.len() == COLUMNS
                &&& gs[r0 + 11].row@[0] == out@[0]
                &&& gs[r0 + 11].row@[1] == out@[1]
                &&& gs[r0 + 11].row@[2] == out@[2]
                &&& crate::writer::fresh_tail(
                    gs[r0 + 11].row@,
                    3,
                    (old(self).nvars() + 168) as nat,
                )
                &&& out@ == seq![
                    (Var { index: (old(self).nvars() + 162) as usize, value: None::<Fe> }),
                    (Var { index: (old(self).nvars() + 163) as usize, value: None::<Fe> }),
                    (Var { index: (old(self).nvars() + 164) as usize, value: None::<Fe> }),
                ]
            }),
    {
        let params = &constants.poseidon;
        let ghost rcg = constants.poseidon.rc();
        let ghost mg = constants.poseidon.mds_n();
        let ghost s0g = row_vals(input@);
        let ghost pre = *old(self);
        let mut cur = input;
        let ghost inp = cur@;
        let mut r: usize = 0;
        while r < POS_ROWS_PER_HASH
            invariant
                0 <= r <= POS_ROWS_PER_HASH,
                params == &constants.poseidon,
                params.wf(),
                rcg == constants.poseidon.rc(),
                mg == constants.poseidon.mds_n(),
                pre.wf(),
                self.wf(),
                self.is_witness() == pre.is_witness(),
                self.gate_count() == pre.gate_count() + r,
                self.nvars() == pre.nvars() + (if pre.is_witness() {
                    0nat
                } else {
                    15 * r as nat
                }),
                cur@.len() == SPONGE_WIDTH,
                forall|i: int| 0 <= i < cur@.len() ==> self.compat(#[trigger] cur@[i]),
                pre.is_witness() ==> row_vals(cur@) == perm_spec(rcg, mg, s0g, (5 * r) as nat),
                pre.is_witness() ==> self.rows_n() == pre.rows_n() + Seq::new(
                    r as nat,
                    |i: int| pos_row_vals(rcg, mg, s0g, i),
                ),
                !pre.is_witness() ==> self.rows_n() == pre.rows_n(),
                pre.is_witness() ==> self.gates_seq() == pre.gates_seq(),
                !pre.is_witness() ==> ({
                    let gs = self.gates_seq();
                    let r0 = pre.gate_count() as int;
                    &&& gs.len() == r0 + r
                    &&& gs.subrange(0, r0) == pre.gates_seq()
                    &&& forall|i: int|
                        0 <= i < r ==> (#[trigger] gs[r0 + i]).typ == GateType::Poseidon && gs[r0
                            + i].row@.len() == COLUMNS && coeff_vals(gs[r0 + i].coeffs@)
                            == pos_row_coeffs(rcg, i) && gs[r0 + i].row@ == pos_row_cells(
                            pre.nvars(),
                            inp,
                            i,
                        )
                }),
                r == 0 ==> cur@ == inp,
                !pre.is_witness() ==> pre.nvars() + 180 <= usize::MAX,
                !pre.is_witness() && r > 0 ==> cur@ == seq![
                    (Var { index: (pre.nvars() + 15 * r - 3) as usize, value: None::<Fe> }),
                    (Var { index: (pre.nvars() + 15 * r - 2) as usize, value: None::<Fe> }),
                    (Var { index: (pre.nvars() + 15 * r - 1) as usize, value: None::<Fe> }),
                ],
            decreases POS_ROWS_PER_HASH - r,
        {
            let ghost gprev = self.gates_seq();
            let s5 = self.pos_block(params, cur, r);
            proof {
                if pre.is_witness() {
                    assert(perm_spec(rcg, mg, s0g, (5 * r + 1) as nat) == full_round_spec(
                        rcg,
                        mg,
                        perm_spec(rcg, mg, s0g, (5 * r) as nat),
                        5 * r,
                    ));
                    assert(perm_spec(rcg, mg, s0g, (5 * r + 2) as nat) == full_round_spec(
                        rcg,
                        mg,
                        perm_spec(rcg, mg, s0g, (5 * r + 1) as nat),
                        5 * r + 1,
                    ));
                    assert(perm_spec(rcg, mg, s0g, (5 * r + 3) as nat) == full_round_spec(
                        rcg,
                        mg,
                        perm_spec(rcg, mg, s0g, (5 * r + 2) as nat),
                        5 * r + 2,
                    ));
                    assert(perm_spec(rcg, mg, s0g, (5 * r + 4) as nat) == full_round_spec(
                        rcg,
                        mg,
                        perm_spec(rcg, mg, s0g, (5 * r + 3) as nat),
                        5 * r + 3,
                    ));
                    assert(perm_spec(rcg, mg, s0g, (5 * (r + 1)) as nat) == full_round_spec(
                        rcg,
                        mg,
                        perm_spec(rcg, mg, s0g, (5 * r + 4) as nat),
                        5 * r + 4,
                    ));
                    assert(self.rows_n() =~~= pre.rows_n() + Seq::new(
                        (r + 1) as nat,
                        |i: int| pos_row_vals(rcg, mg, s0g, i),
                    ));
                } else {
                    assert(self.gates_seq().subrange(0, pre.gate_count() as int)
                        =~= pre.gates_seq());
                    assert forall|x: int| 0 <= x < gprev.len() implies #[trigger] self.gates_seq()[x]
                        == gprev[x] by {
                        assert(self.gates_seq() == gprev.push(self.gates_seq().last()));
                    }
                    let newrow = self.gates_seq().last().row@;
                    assert forall|c: int| 0 <= c < 15 implies #[trigger] newrow[c]
                        == pos_row_cells(pre.nvars(), inp, r as int)[c] by {}
                    assert(newrow =~= pos_row_cells(pre.nvars(), inp, r as int));
                }
            }
            cur = s5;
            r = r + 1;
        }
        let fillers: Vec<Var> = Vec::new();
        let mut frow = self.fill_row(fillers);
        frow.set(0, cur[0]);
        frow.set(1, cur[1]);
        frow.set(2, cur[2]);
        proof {
            if pre.is_witness() {
                assert(row_has_vals(frow@)) by {
                    assert forall|k: int| 0 <= k < frow@.len() implies (
                    #[trigger] frow@[k]).val_wf() by {
                        if k < 3 {
                            assert(cur@[k].val_wf());
                        }
                    }
                }
                assert(row_vals(frow@) =~= padded(perm_spec(rcg, mg, s0g, ROUNDS_FULL as nat)));
            }
        }
        self.gate(GateSpec { typ: GateType::Zero, row: frow, coeffs: Vec::new() });
        proof {
            if pre.is_witness() {
                assert(final(self).rows_n() =~= pre.rows_n() + Seq::new(
                    POS_ROWS_PER_HASH as nat,
                    |i: int| pos_row_vals(rcg, mg, s0g, i),
                ).push(padded(perm_spec(rcg, mg, s0g, ROUNDS_FULL as nat))));
            } else {
                assert(final(self).gates_seq().subrange(0, pre.gate_count() as int)
                    =~= pre.gates_seq());
            }
        }
        cur
    }
}

} // verus!
