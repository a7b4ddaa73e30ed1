//! The bit-packing gadget.
//!
//! A little-endian bit sequence is walked most significant first, two
//! bits at a time; every sixteen bits yield one emitted row carrying the
//! running packed value, two side accumulators, and the eight crumbs.

use vstd::prelude::*;
use crate::COLUMNS;
use crate::field::Fe;
use crate::field::fadd;
use crate::field::fsub;
use crate::field::fe_add;
use crate::field::fe_sub;
use crate::field::fe_double;
use crate::types::GateSpec;
use crate::types::GateType;
use crate::types::Var;
use crate::types::row_has_vals;
use crate::types::row_vals;
use crate::writer::Cs;
use crate::writer::stepped;

verus! {

/// The value of a two-bit crumb: `b0 + 2·b1`.
#[verifier::opaque]
pub open spec fn pack_crumb(b0: nat, b1: nat) -> nat {
    fadd(b0, fadd(b1, b1))
}

/// One crumb's update of the first packing accumulator:
/// `a' = 2a + (b1 = 0 ? 0 : (b0 = 1 ? 1 : -1))`.
#[verifier::opaque]
pub open spec fn pack_a_step(a: nat, b0: nat, b1: nat) -> nat {
    let d = fadd(a, a);
    if b1 == 0 {
        d
    } else if b0 == 1 {
        fadd(d, 1)
    } else {
        fsub(d, 1)
    }
}

/// One crumb's update of the second packing accumulator:
/// `b' = 2b + (b1 = 0 ? (b0 = 1 ? 1 : -1) : 0)`.
#[verifier::opaque]
pub open spec fn pack_b_step(b: nat, b0: nat, b1: nat) -> nat {
    let d = fadd(b, b);
    if b1 == 0 {
        if b0 == 1 {
            fadd(d, 1)
        } else {
            fsub(d, 1)
        }
    } else {
        d
    }
}

/// One crumb's update of the running packed value: `n' = 4n + crumb`.
#[verifier::opaque]
pub open spec fn pack_n_step(n: nat, c: nat) -> nat {
    fadd(fadd(fadd(n, n), fadd(n, n)), c)
}

/// The crumb at position `t` when the little-endian bit sequence is
/// walked most significant first, two bits at a time.
pub open spec fn pack_crumb_at(bits: Seq<nat>, t: int) -> nat {
    pack_crumb(bits[bits.len() - 2 * t - 2], bits[bits.len() - 2 * t - 1])
}

/// The three packing accumulators after `k` crumbs from position `t0`,
/// starting from the given values.
pub open spec fn pack_chunk(a: nat, b: nat, n: nat, bits: Seq<nat>, t0: int, k: nat) -> (
    nat,
    nat,
    nat,
)
    decreases k,
{
    if k == 0 {
        (a, b, n)
    } else {
        let prev = pack_chunk(a, b, n, bits, t0, (k - 1) as nat);
        let b1 = bits[bits.len() - 2 * (t0 + k - 1) - 1];
        let b0 = bits[bits.len() - 2 * (t0 + k - 1) - 2];
        (
            pack_a_step(prev.0, b0, b1),
            pack_b_step(prev.1, b0, b1),
            pack_n_step(prev.2, pack_crumb(b0, b1)),
        )
    }
}

/// The three packing accumulators after the first `t` crumbs, from their
/// seeds: two for each side accumulator and the caller's zero cell for
/// the running packed value.
pub open spec fn pack_state(n0: nat, bits: Seq<nat>, t: nat) -> (nat, nat, nat) {
    pack_chunk(2, 2, n0, bits, 0, t)
}

/// The cell values of packing row `i`: the entering packed value, the
/// packed value leaving the row — or the asserted cell's value on the
/// last row — the accumulators before and after, the row's eight
/// crumbs, and a zero filler.
pub open spec fn pack_row_vals(n0: nat, bits: Seq<nat>, xv: nat, i: int) -> Seq<nat> {
    let pre = pack_state(n0, bits, (8 * i) as nat);
    let post = pack_state(n0, bits, (8 * i + 8) as nat);
    seq![
        pre.2,
        if 16 * i + 16 == bits.len() {
            xv
        } else {
            post.2
        },
        pre.0,
        pre.1,
        post.0,
        post.1,
        pack_crumb_at(bits, 8 * i),
        pack_crumb_at(bits, 8 * i + 1),
        pack_crumb_at(bits, 8 * i + 2),
        pack_crumb_at(bits, 8 * i + 3),
        pack_crumb_at(bits, 8 * i + 4),
        pack_crumb_at(bits, 8 * i + 5),
        pack_crumb_at(bits, 8 * i + 6),
        pack_crumb_at(bits, 8 * i + 7),
        0nat,
    ]
}

/// Running a chunk from an intermediate state continues the state
/// recursion: the accumulators after `t0 + k` crumbs are the chunk of
/// `k` crumbs applied to the accumulators after `t0`.
pub proof fn lemma_pack_chunk_chain(n0: nat, bits: Seq<nat>, t0: nat, k: nat)
    ensures
        ({
            let s = pack_state(n0, bits, t0);
            pack_chunk(s.0, s.1, s.2, bits, t0 as int, k) == pack_state(n0, bits, t0 + k)
        }),
    decreases k,
{
    if k > 0 {
        lemma_pack_chunk_chain(n0, bits, t0, (k - 1) as nat);
    }
}

/// The integer packed from the `2t` leading bits of the sequence,
/// walked most significant first.
pub open spec fn packed_msb(bits: Seq<nat>, t: int) -> nat
    decreases t,
{
    if t <= 0 {
        0
    } else {
        4 * packed_msb(bits, t - 1) + 2 * bits[bits.len() - 2 * (t - 1) - 1] + bits[bits.len() - 2
            * (t - 1) - 2]
    }
}

/// Two to the 254th power stays below the modulus.
proof fn lemma_pow2_254_lt_p()
    ensures
        vstd::arithmetic::power2::pow2(254) < crate::field::p(),
{
    vstd::arithmetic::power2::lemma2_to64();
    vstd::arithmetic::power2::lemma2_to64_rest();
    vstd::arithmetic::power2::lemma_pow2_adds(64, 64);
    vstd::arithmetic::power2::lemma_pow2_adds(128, 64);
    vstd::arithmetic::power2::lemma_pow2_adds(192, 62);
}

/// On boolean bit values the packing recurrences compute the packed
/// integer exactly: starting from a zero cell, the running packed value
/// after `t` crumbs is the integer of the `2t` leading bits, which stays
/// below the modulus for every packable length.
pub proof fn lemma_pack_state_packs(bits: Seq<nat>, t: nat)
    requires
        2 * t <= bits.len(),
        t <= 127,
        forall|i: int| 0 <= i < bits.len() ==> #[trigger] bits[i] <= 1,
    ensures
        pack_state(0, bits, t).2 == packed_msb(bits, t as int),
        packed_msb(bits, t as int) < vstd::arithmetic::power2::pow2(2 * t),
    decreases t,
{
    vstd::arithmetic::power2::lemma_pow2_pos(2 * t);
    if t > 0 {
        lemma_pack_state_packs(bits, (t - 1) as nat);
        reveal(pack_crumb);
        reveal(pack_n_step);
        let b1 = bits[bits.len() - 2 * (t - 1) - 1];
        let b0 = bits[bits.len() - 2 * (t - 1) - 2];
        let n = pack_state(0, bits, (t - 1) as nat).2;
        assert(pack_state(0, bits, t).2 == pack_n_step(n, pack_crumb(b0, b1)));
        lemma_pow2_254_lt_p();
        vstd::arithmetic::power2::lemma2_to64();
        vstd::arithmetic::power2::lemma_pow2_adds((2 * (t - 1)) as nat, 2);
        if 2 * t < 254 {
            vstd::arithmetic::power2::lemma_pow2_strictly_increases(2 * t, 254);
        }
        let pw = vstd::arithmetic::power2::pow2((2 * (t - 1)) as nat);
        assert(vstd::arithmetic::power2::pow2(2 * t) == pw * 4);
        assert(4 * n < 4 * pw) by (nonlinear_arith)
            requires
                n < pw,
        ;
        // every intermediate stays below the modulus, so the field
        // additions are plain integer additions
        vstd::arithmetic::div_mod::lemma_small_mod((b1 + b1) as nat, crate::field::p());
        vstd::arithmetic::div_mod::lemma_small_mod((b0 + 2 * b1) as nat, crate::field::p());
        vstd::arithmetic::div_mod::lemma_small_mod((n + n) as nat, crate::field::p());
        vstd::arithmetic::div_mod::lemma_small_mod((4 * n) as nat, crate::field::p());
        vstd::arithmetic::div_mod::lemma_small_mod(
            (4 * n + b0 + 2 * b1) as nat,
            crate::field::p(),
        );
        assert(pack_n_step(n, pack_crumb(b0, b1)) == 4 * n + 2 * b1 + b0);
    }
}

impl Cs {
    /// Allocates the cells of one crumb step: the crumb itself and the
    /// three updated accumulators.
    fn pack_crumb_cells(&mut self, b0: Var, b1: Var, ca: Var, cb: Var, cn: Var, one: Fe) -> (r: (
        Var,
        Var,
        Var,
        Var,
    ))
        requires
            old(self).wf(),
            old(self).compat(b0),
            old(self).compat(b1),
            old(self).compat(ca),
            old(self).compat(cb),
            old(self).compat(cn),
            one@ == 1 && one.wf(),
            !old(self).is_witness() ==> old(self).nvars() + 4 <= usize::MAX,
        ensures
            stepped(*old(self), *final(self), 0, 4),
            final(self).rows_n() == old(self).rows_n(),
            final(self).gates_seq() == old(self).gates_seq(),
            final(self).compat(r.0),
            final(self).compat(r.1),
            final(self).compat(r.2),
            final(self).compat(r.3),
            old(self).is_witness() ==> ({
                &&& r.0.val_n() == pack_crumb(b0.val_n(), b1.val_n())
                &&& r.1.val_n() == pack_a_step(ca.val_n(), b0.val_n(), b1.val_n())
                &&& r.2.val_n() == pack_b_step(cb.val_n(), b0.val_n(), b1.val_n())
                &&& r.3.val_n() == pack_n_step(cn.val_n(), pack_crumb(b0.val_n(), b1.val_n()))
            }),
            !old(self).is_witness() ==> ({
                let nv = old(self).nvars();
                &&& r.0 == (Var { index: nv as usize, value: None::<Fe> })
                &&& r.1 == (Var { index: (nv + 1) as usize, value: None::<Fe> })
                &&& r.2 == (Var { index: (nv + 2) as usize, value: None::<Fe> })
                &&& r.3 == (Var { index: (nv + 3) as usize, value: None::<Fe> })
            }),
    {
        proof {
            reveal(pack_crumb);
            reveal(pack_a_step);
            reveal(pack_b_step);
            reveal(pack_n_step);
        }
        let w = self.witness_mode();
        let cv = if w {
            Some(fe_add(&b0.val(), &fe_double(&b1.val())))
        } else {
            None
        };
        let crumb = self.var(cv);
        let av2 = if w {
            let d = fe_double(&ca.val());
            if b1.val().is_zero() {
                Some(d)
            } else if b0.val().equals(&one) {
                Some(fe_add(&d, &one))
            } else {
                Some(fe_sub(&d, &one))
            }
        } else {
            None
        };
        let na = self.var(av2);
        let bv2 = if w {
            let d = fe_double(&cb.val());
            if b1.val().is_zero() {
                if b0.val().equals(&one) {
                    Some(fe_add(&d, &one))
                } else {
                    Some(fe_sub(&d, &one))
                }
            } else {
                Some(d)
            }
        } else {
            None
        };
        let nb = self.var(bv2);
        let nv2 = if w {
            Some(fe_add(&fe_double(&fe_double(&cn.val())), &crumb.val()))
        } else {
            None
        };
        let nn = self.var(nv2);
        (crumb, na, nb, nn)
    }

    /// Emits one packing row: eight crumbs of the bit sequence, walked
    /// most significant first, with the accumulators before and after
    /// the row, the asserted cell on the last row, and a fresh zero
    /// filler.  The row is carried under the neutral `Zero` kind; the
    /// constraint layer reinterprets it by position.
    #[verifier::rlimit(100)]
    fn pack_row(
        &mut self,
        x: Var,
        bits_lsb: &Vec<Var>,
        i: usize,
        lastrow: bool,
        a: Var,
        b: Var,
        n: Var,
        one: Fe,
    ) -> (r: (Var, Var, Var))
        requires
            old(self).wf(),
            bits_lsb@.len() % 16 == 0,
            16 * i + 16 <= bits_lsb@.len(),
            lastrow == (16 * i + 16 == bits_lsb@.len()),
            old(self).compat(x),
            old(self).compat(a),
            old(self).compat(b),
            old(self).compat(n),
            forall|m: int| 0 <= m < bits_lsb@.len() ==> old(self).compat(#[trigger] bits_lsb@[m]),
            one@ == 1 && one.wf(),
            !old(self).is_witness() ==> old(self).nvars() + 48 <= usize::MAX,
        ensures
            stepped(*old(self), *final(self), 1, 48),
            final(self).compat(r.0),
            final(self).compat(r.1),
            final(self).compat(r.2),
            old(self).is_witness() ==> ({
                let bv = row_vals(bits_lsb@);
                let post = pack_chunk(a.val_n(), b.val_n(), n.val_n(), bv, 8 * i as int, 8);
                &&& r.0.val_n() == post.0
                &&& r.1.val_n() == post.1
                &&& r.2.val_n() == post.2
                &&& final(self).gates_seq() == old(self).gates_seq()
                &&& final(self).rows_n() == old(self).rows_n().push(
                    seq![
                        n.val_n(),
                        if 16 * i + 16 == bits_lsb@.len() {
                            x.val_n()
                        } else {
                            post.2
                        },
                        a.val_n(),
                        b.val_n(),
                        post.0,
                        post.1,
                        pack_crumb_at(bv, 8 * i),
                        pack_crumb_at(bv, 8 * i + 1),
                        pack_crumb_at(bv, 8 * i + 2),
                        pack_crumb_at(bv, 8 * i + 3),
                        pack_crumb_at(bv, 8 * i + 4),
                        pack_crumb_at(bv, 8 * i + 5),
                        pack_crumb_at(bv, 8 * i + 6),
                        pack_crumb_at(bv, 8 * i + 7),
                        0nat,
                    ],
                )
            }),
            !old(self).is_witness() ==> ({
                let gs = final(self).gates_seq();
                let nv = old(self).nvars();
                &&& final(self).rows_n() == old(self).rows_n()
                &&& gs == old(self).gates_seq().push(gs.last())
                &&& gs.last().typ == GateType::Zero
                &&& gs.last().coeffs@.len() == 0
                &&& gs.last().row@ == seq![
                    n,
                    if 16 * i + 16 == bits_lsb@.len() {
                        x
                    } else {
                        (Var { index: (nv + 46) as usize, value: None::<Fe> })
                    },
                    a,
                    b,
                    (Var { index: (nv + 44) as usize, value: None::<Fe> }),
                    (Var { index: (nv + 45) as usize, value: None::<Fe> }),
                    (Var { index: (nv + 15) as usize, value: None::<Fe> }),
                    (Var { index: (nv + 19) as usize, value: None::<Fe> }),
                    (Var { index: (nv + 23) as usize, value: None::<Fe> }),
                    (Var { index: (nv + 27) as usize, value: None::<Fe> }),
                    (Var { index: (nv + 31) as usize, value: None::<Fe> }),
                    (Var { index: (nv + 35) as usize, value: None::<Fe> }),
                    (Var { index: (nv + 39) as usize, value: None::<Fe> }),
                    (Var { index: (nv + 43) as usize, value: None::<Fe> }),
                    (Var { index: (nv + 47) as usize, value: None::<Fe> }),
                ]
                &&& r.0 == (Var { index: (nv + 44) as usize, value: None::<Fe> })
                &&& r.1 == (Var { index: (nv + 45) as usize, value: None::<Fe> })
                &&& r.2 == (Var { index: (nv + 46) as usize, value: None::<Fe> })
            }),
    {
        let ghost pre = *old(self);
        let ghost bv = row_vals(bits_lsb@);
        let w = self.witness_mode();
        // the uniform row of fresh fillers; every position is then taken
        // by a named cell, so the handles are dropped
        let fillers: Vec<Var> = Vec::new();
        let _ = self.fill_row(fillers);
        let mut ca = a;
        let mut cb = b;
        let mut cn = n;
        let mut crumbs: Vec<Var> = Vec::new();
        let mut j: usize = 0;
        while j < 8
            invariant
                0 <= j <= 8,
                bits_lsb@.len() % 16 == 0,
                16 * i + 16 <= bits_lsb@.len(),
                pre.wf(),
                self.wf(),
                self.is_witness() == pre.is_witness(),
                w == pre.is_witness(),
                bv == row_vals(bits_lsb@),
                forall|m: int|
                    0 <= m < bits_lsb@.len() ==> pre.compat(#[trigger] bits_lsb@[m]),
                one@ == 1 && one.wf(),
                self.compat(ca),
                self.compat(cb),
                self.compat(cn),
                w ==> (ca.val_n(), cb.val_n(), cn.val_n()) == pack_chunk(
                    a.val_n(),
                    b.val_n(),
                    n.val_n(),
                    bv,
                    8 * i as int,
                    j as nat,
                ),
                self.gate_count() == pre.gate_count(),
                self.nvars() == pre.nvars() + (if w {
                    0nat
                } else {
                    (15 + 4 * j) as nat
                }),
                !w ==> pre.nvars() + 48 <= usize::MAX,
                self.gates_seq() == pre.gates_seq(),
                self.rows_n() == pre.rows_n(),
                crumbs@.len() == j,
                w ==> forall|jj: int|
                    0 <= jj < j ==> (#[trigger] crumbs@[jj]).val_wf() && crumbs@[jj].val_n()
                        == pack_crumb_at(bv, 8 * i + jj),
                !w ==> forall|jj: int|
                    0 <= jj < j ==> (#[trigger] crumbs@[jj]) == (Var {
                        index: (pre.nvars() + 15 + 4 * jj) as usize,
                        value: None::<Fe>,
                    }),
                !w ==> (j == 0 ==> ca == a && cb == b && cn == n),
                !w && j > 0 ==> ca == (Var {
                    index: (pre.nvars() + 16 + 4 * (j - 1)) as usize,
                    value: None::<Fe>,
                }) && cb == (Var {
                    index: (pre.nvars() + 17 + 4 * (j - 1)) as usize,
                    value: None::<Fe>,
                }) && cn == (Var {
                    index: (pre.nvars() + 18 + 4 * (j - 1)) as usize,
                    value: None::<Fe>,
                }),
            decreases 8 - j,
        {
            // most-significant crumbs first
            let hi = bits_lsb.len() - 16 * i - 2 * j;
            let b0 = bits_lsb[hi - 2];
            let b1 = bits_lsb[hi - 1];
            proof {
                assert(pre.compat(bits_lsb@[hi - 2]));
                assert(pre.compat(bits_lsb@[hi - 1]));
                if w {
                    assert(bv[hi - 2] == bits_lsb@[hi - 2].val_n());
                    assert(bv[hi - 1] == bits_lsb@[hi - 1].val_n());
                }
            }
            let rr = self.pack_crumb_cells(b0, b1, ca, cb, cn, one);
            crumbs.push(rr.0);
            ca = rr.1;
            cb = rr.2;
            cn = rr.3;
            j = j + 1;
            proof {
                if w {
                    assert(pack_chunk(a.val_n(), b.val_n(), n.val_n(), bv, 8 * i as int, j as nat)
                        == ({
                        let prev = pack_chunk(
                            a.val_n(),
                            b.val_n(),
                            n.val_n(),
                            bv,
                            8 * i as int,
                            (j - 1) as nat,
                        );
                        let bb1 = bv[bv.len() - 2 * (8 * i + j - 1) - 1];
                        let bb0 = bv[bv.len() - 2 * (8 * i + j - 1) - 2];
                        (
                            pack_a_step(prev.0, bb0, bb1),
                            pack_b_step(prev.1, bb0, bb1),
                            pack_n_step(prev.2, pack_crumb(bb0, bb1)),
                        )
                    }));
                }
            }
        }
        let filler = self.var_zero();
        let mut row: Vec<Var> = Vec::new();
        row.push(n);
        row.push(if lastrow {
            x
        } else {
            cn
        });
        row.push(a);
        row.push(b);
        row.push(ca);
        row.push(cb);
        row.push(crumbs[0]);
        row.push(crumbs[1]);
        row.push(crumbs[2]);
        row.push(crumbs[3]);
        row.push(crumbs[4]);
        row.push(crumbs[5]);
        row.push(crumbs[6]);
        row.push(crumbs[7]);
        row.push(filler);
        proof {
            if w {
                assert(row_has_vals(row@)) by {
                    assert forall|m: int| 0 <= m < row@.len() implies (
                    #[trigger] row@[m]).val_wf() by {
                        if 6 <= m < 14 {
                            assert(crumbs@[m - 6].val_wf());
                        }
                    }
                }
                let post = pack_chunk(a.val_n(), b.val_n(), n.val_n(), bv, 8 * i as int, 8);
                assert(row_vals(row@) =~= seq![
                    n.val_n(),
                    if 16 * i + 16 == bits_lsb@.len() {
                        x.val_n()
                    } else {
                        post.2
                    },
                    a.val_n(),
                    b.val_n(),
                    post.0,
                    post.1,
                    pack_crumb_at(bv, 8 * i),
                    pack_crumb_at(bv, 8 * i + 1),
                    pack_crumb_at(bv, 8 * i + 2),
                    pack_crumb_at(bv, 8 * i + 3),
                    pack_crumb_at(bv, 8 * i + 4),
                    pack_crumb_at(bv, 8 * i + 5),
                    pack_crumb_at(bv, 8 * i + 6),
                    pack_crumb_at(bv, 8 * i + 7),
                    0nat,
                ]);
            } else {
                let nv = pre.nvars();
                assert(row@ =~= seq![
                    n,
                    if 16 * i + 16 == bits_lsb@.len() {
                        x
                    } else {
                        (Var { index: (nv + 46) as usize, value: None::<Fe> })
                    },
                    a,
                    b,
                    (Var { index: (nv + 44) as usize, value: None::<Fe> }),
                    (Var { index: (nv + 45) as usize, value: None::<Fe> }),
                    (Var { index: (nv + 15) as usize, value: None::<Fe> }),
                    (Var { index: (nv + 19) as usize, value: None::<Fe> }),
                    (Var { index: (nv + 23) as usize, value: None::<Fe> }),
                    (Var { index: (nv + 27) as usize, value: None::<Fe> }),
                    (Var { index: (nv + 31) as usize, value: None::<Fe> }),
                    (Var { index: (nv + 35) as usize, value: None::<Fe> }),
                    (Var { index: (nv + 39) as usize, value: None::<Fe> }),
                    (Var { index: (nv + 43) as usize, value: None::<Fe> }),
                    (Var { index: (nv + 47) as usize, value: None::<Fe> }),
                ]);
            }
        }
        self.gate(GateSpec { typ: GateType::Zero, row, coeffs: Vec::new() });
        (ca, cb, cn)
    }

    /// Packs a little-endian bit sequence two bits at a time: one row per
    /// sixteen bits, each carrying the running packed value, the two side
    /// accumulators before and after, and the row's eight crumbs, with
    /// the asserted cell wired into the second column of the last row.
    #[verifier::rlimit(100)]
    pub fn assert_pack(&mut self, zero: Var, x: Var, bits_lsb: &Vec<Var>)
        requires
            old(self).wf(),
            old(self).compat(zero),
            old(self).compat(x),
            bits_lsb@.len() % 16 == 0,
            forall|i: int| 0 <= i < bits_lsb@.len() ==> old(self).compat(#[trigger] bits_lsb@[i]),
            !old(self).is_witness() ==> old(self).nvars() + 2 + 3 * bits_lsb@.len()
                <= usize::MAX,
        ensures
            stepped(
                *old(self), *final(self),
                (bits_lsb@.len() / 16) as nat,
                (2 + 3 * bits_lsb@.len()) as nat,
            ),
            old(self).is_witness() ==> final(self).gates_seq() == old(self).gates_seq(),
            old(self).is_witness() ==> final(self).rows_n() == old(self).rows_n() + Seq::new(
                (bits_lsb@.len() / 16) as nat,
                |i: int| pack_row_vals(zero.val_n(), row_vals(bits_lsb@), x.val_n(), i),
            ),
            !old(self).is_witness() ==> final(self).rows_n() == old(self).rows_n(),
            !old(self).is_witness() ==> ({
                let gs = final(self).gates_seq();
                let r0 = old(self).gate_count() as int;
                let nrows = bits_lsb@.len() / 16;
                &&& gs.len() == r0 + nrows
                &&& gs.subrange(0, r0) == old(self).gates_seq()
                &&& forall|m: int|
                    0 <= m < nrows ==> (#[trigger] gs[r0 + m]).typ == GateType::Zero && gs[r0
                        + m].coeffs@.len() == 0 && gs[r0 + m].row@.len() == COLUMNS
                &&& (nrows > 0 ==> gs[r0].row@[0] == zero)
                &&& (nrows > 0 ==> gs[r0 + nrows - 1].row@[1] == x)
            }),
    {
        let ghost pre = *old(self);
        let ghost bv = row_vals(bits_lsb@);
        let w = self.witness_mode();
        let nrows = bits_lsb.len() / 16;
        let one = Fe::one();
        let two = Fe::from_u64(2);
        let av = if w {
            Some(two)
        } else {
            None
        };
        let mut a = self.var(av);
        let bvv = if w {
            Some(two)
        } else {
            None
        };
        let mut b = self.var(bvv);
        let mut n = zero;
        let mut i: usize = 0;
        while i < nrows
            invariant
                0 <= i <= nrows,
                nrows == bits_lsb@.len() / 16,
                bits_lsb@.len() % 16 == 0,
                pre.wf(),
                self.wf(),
                self.is_witness() == pre.is_witness(),
                w == pre.is_witness(),
                bv == row_vals(bits_lsb@),
                forall|m: int|
                    0 <= m < bits_lsb@.len() ==> pre.compat(#[trigger] bits_lsb@[m]),
                w ==> zero.val_wf(),
                w ==> x.val_wf(),
                one@ == 1 && one.wf(),
                self.compat(a),
                self.compat(b),
                self.compat(n),
                w ==> (a.val_n(), b.val_n(), n.val_n()) == pack_state(
                    zero.val_n(),
                    bv,
                    (8 * i) as nat,
                ),
                i == 0 ==> n == zero,
                self.gate_count() == pre.gate_count() + i,
                self.nvars() == pre.nvars() + (if w {
                    0nat
                } else {
                    (2 + 48 * i) as nat
                }),
                !w ==> pre.nvars() + 2 + 3 * bits_lsb@.len() <= usize::MAX,
                w ==> self.gates_seq() == pre.gates_seq(),
                !w ==> self.rows_n() == pre.rows_n(),
                w ==> self.rows_n() == pre.rows_n() + Seq::new(
                    i as nat,
                    |m: int| pack_row_vals(zero.val_n(), bv, x.val_n(), m),
                ),
                !w ==> ({
                    let gs = self.gates_seq();
                    let r0 = pre.gate_count() as int;
                    &&& gs.len() == r0 + i
                    &&& gs.subrange(0, r0) == pre.gates_seq()
                    &&& forall|m: int|
                        0 <= m < i ==> (#[trigger] gs[r0 + m]).typ == GateType::Zero && gs[r0
                            + m].coeffs@.len() == 0 && gs[r0 + m].row@.len() == COLUMNS
                    &&& (i > 0 ==> gs[r0].row@[0] == zero)
                    &&& (i == nrows && nrows > 0 ==> gs[r0 + nrows - 1].row@[1] == x)
                }),
            decreases nrows - i,
        {
            proof {
                if w {
                    lemma_pack_chunk_chain(zero.val_n(), bv, (8 * i) as nat, 8);
                }
            }
            let ghost gprev = self.gates_seq();
            proof {
                vstd::arithmetic::div_mod::lemma_fundamental_div_mod(
                    bits_lsb@.len() as int,
                    16,
                );
            }
            let rr = self.pack_row(x, bits_lsb, i, i + 1 == nrows, a, b, n, one);
            a = rr.0;
            b = rr.1;
            n = rr.2;
            proof {
                if w {
                    assert(self.rows_n() =~~= pre.rows_n() + Seq::new(
                        (i + 1) as nat,
                        |m: int| pack_row_vals(zero.val_n(), bv, x.val_n(), m),
                    ));
                } else {
                    assert(self.gates_seq().subrange(0, pre.gate_count() as int)
                        =~= pre.gates_seq());
                    assert forall|y: int| 0 <= y < gprev.len() implies #[trigger] self.gates_seq()[y]
                        == gprev[y] by {
                        assert(self.gates_seq() == gprev.push(self.gates_seq().last()));
                    }
                }
            }
            i = i + 1;
        }
    }

}

} // verus!
