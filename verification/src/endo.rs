//! The endomorphism-based scalar-multiplication gadget.
//!
//! The scalar is consumed four bits per row, each row applying two
//! mixed additions that select between `±T` and `±φ·T`, while a running
//! cell reconstructs the scalar from its bits.

use vstd::prelude::*;
use crate::COLUMNS;
use crate::field::Fe;
use crate::field::fadd;
use crate::field::fsub;
use crate::field::fmul;
use crate::field::fdiv;
use crate::field::fe_add;
use crate::field::fe_sub;
use crate::field::fe_mul;
use crate::field::fe_div;
use crate::field::fe_square;
use crate::field::fe_double;
use crate::field::fe_bit;
use crate::field::fe_bit_spec;
use crate::types::Constants;
use crate::types::GateSpec;
use crate::types::GateType;
use crate::types::Var;
use crate::types::row_has_vals;
use crate::writer::Cs;
use crate::writer::ec_x3;
use crate::writer::ec_y3;
use crate::writer::stepped;

verus! {

/// The most-significant-first bit values of a scalar's limb
/// representation, as field elements.
pub open spec fn bits_of(sv: Fe, len: int) -> Seq<nat> {
    Seq::new(
        len as nat,
        |i: int|
            if fe_bit_spec(sv, len - 1 - i) {
                1nat
            } else {
                0nat
            },
    )
}

/// One mixed addition of the ladder: the next point from the current
/// point, the target, and one bit pair selecting the summand.
#[verifier::opaque]
pub open spec fn endo_seg(e: nat, xt: nat, yt: nat, xp: nat, yp: nat, bs: nat, bsg: nat) -> (
    nat,
    nat,
) {
    let xq = fmul(fadd(1, fmul(fsub(e, 1), bs)), xt);
    let yq = fmul(fsub(fadd(bsg, bsg), 1), yt);
    let s1 = fdiv(fsub(yq, yp), fsub(xq, xp));
    let s1sq = fmul(s1, s1);
    let s2 = fsub(fdiv(fadd(yp, yp), fsub(fadd(fadd(xp, xp), xq), s1sq)), s1);
    let xr = fsub(fadd(xq, fmul(s2, s2)), s1sq);
    let yr = fsub(fmul(fsub(xp, xr), s2), yp);
    (xr, yr)
}

/// The slope of the first half of a mixed addition.
#[verifier::opaque]
pub open spec fn endo_s1(e: nat, xt: nat, yt: nat, xp: nat, yp: nat, bs: nat, bsg: nat) -> nat {
    let xq = fmul(fadd(1, fmul(fsub(e, 1), bs)), xt);
    let yq = fmul(fsub(fadd(bsg, bsg), 1), yt);
    fdiv(fsub(yq, yp), fsub(xq, xp))
}

/// The divisors of one mixed addition are nonzero.
#[verifier::opaque]
pub open spec fn endo_seg_ok(e: nat, xt: nat, yt: nat, xp: nat, yp: nat, bs: nat, bsg: nat) -> bool {
    let xq = fmul(fadd(1, fmul(fsub(e, 1), bs)), xt);
    let yq = fmul(fsub(fadd(bsg, bsg), 1), yt);
    let s1 = fdiv(fsub(yq, yp), fsub(xq, xp));
    &&& fsub(xq, xp) != 0
    &&& fsub(fadd(fadd(xp, xp), xq), fmul(s1, s1)) != 0
}

/// The divisors of both mixed additions of one row are nonzero.
pub open spec fn endo_row_ok(
    e: nat,
    xt: nat,
    yt: nat,
    xp: nat,
    yp: nat,
    b1: nat,
    b2: nat,
    b3: nat,
    b4: nat,
) -> bool {
    &&& endo_seg_ok(e, xt, yt, xp, yp, b1, b2)
    &&& ({
        let r = endo_seg(e, xt, yt, xp, yp, b1, b2);
        endo_seg_ok(e, xt, yt, r.0, r.1, b3, b4)
    })
}

/// The accumulator point after the first `i` rows of the ladder.
pub open spec fn endo_point(
    e: nat,
    xt: nat,
    yt: nat,
    x0: nat,
    y0: nat,
    bits: Seq<nat>,
    i: nat,
) -> (nat, nat)
    decreases i,
{
    if i == 0 {
        (x0, y0)
    } else {
        let prev = endo_point(e, xt, yt, x0, y0, bits, (i - 1) as nat);
        let r = endo_seg(e, xt, yt, prev.0, prev.1, bits[4 * (i - 1)], bits[4 * (i - 1) + 1]);
        endo_seg(e, xt, yt, r.0, r.1, bits[4 * (i - 1) + 2], bits[4 * (i - 1) + 3])
    }
}

/// The reconstructed scalar after the first `i` rows: four doublings and
/// bit additions per row.
pub open spec fn endo_nacc(n0: nat, bits: Seq<nat>, i: nat) -> nat
    decreases i,
{
    if i == 0 {
        n0
    } else {
        let p = endo_nacc(n0, bits, (i - 1) as nat);
        let a1 = fadd(fadd(p, p), bits[4 * (i - 1)]);
        let a2 = fadd(fadd(a1, a1), bits[4 * (i - 1) + 1]);
        let a3 = fadd(fadd(a2, a2), bits[4 * (i - 1) + 2]);
        fadd(fadd(a3, a3), bits[4 * (i - 1) + 3])
    }
}

/// Every row of the ladder has nonzero divisors.
pub open spec fn endo_ok(
    e: nat,
    xt: nat,
    yt: nat,
    x0: nat,
    y0: nat,
    bits: Seq<nat>,
    rows: nat,
) -> bool {
    forall|i: nat|
        i < rows ==> ({
            let p = #[trigger] endo_point(e, xt, yt, x0, y0, bits, i);
            endo_row_ok(
                e,
                xt,
                yt,
                p.0,
                p.1,
                bits[4 * i as int],
                bits[4 * i as int + 1],
                bits[4 * i as int + 2],
                bits[4 * i as int + 3],
            )
        })
}

/// The cell values of ladder row `m`: the target, two sentinel cells,
/// the entering accumulator point and reconstruction, the mid-row point
/// and both slopes, and the row's four bit cells.
pub open spec fn endo_row_vals(
    e: nat,
    xt: nat,
    yt: nat,
    zv: nat,
    x0: nat,
    y0: nat,
    bits: Seq<nat>,
    m: int,
) -> Seq<nat> {
    let pt = endo_point(e, xt, yt, x0, y0, bits, m as nat);
    let h = endo_seg(e, xt, yt, pt.0, pt.1, bits[4 * m], bits[4 * m + 1]);
    seq![
        xt,
        yt,
        zv,
        zv,
        pt.0,
        pt.1,
        endo_nacc(zv, bits, m as nat),
        h.0,
        h.1,
        endo_s1(e, xt, yt, pt.0, pt.1, bits[4 * m], bits[4 * m + 1]),
        endo_s1(e, xt, yt, h.0, h.1, bits[4 * m + 2], bits[4 * m + 3]),
        bits[4 * m],
        bits[4 * m + 1],
        bits[4 * m + 2],
        bits[4 * m + 3],
    ]
}

/// The cells of ladder row `m` in circuit mode, for a call that found
/// `nv0` cells allocated and a scalar of `len` bits: the bit cells come
/// first, the seed gadgets take twenty-eight more, and each row then
/// allocates fifteen.
#[verifier::opaque]
pub open spec fn endo_row_cells(nv0: nat, len: nat, m: int, t0: Var, t1: Var, zero: Var) -> Seq<
    Var,
> {
    let base = nv0 + len + 28 + 15 * m;
    seq![
        t0,
        t1,
        zero,
        zero,
        if m == 0 {
            (Var { index: (nv0 + len + 26) as usize, value: None::<Fe> })
        } else {
            (Var { index: (base - 3) as usize, value: None::<Fe> })
        },
        if m == 0 {
            (Var { index: (nv0 + len + 27) as usize, value: None::<Fe> })
        } else {
            (Var { index: (base - 2) as usize, value: None::<Fe> })
        },
        if m == 0 {
            zero
        } else {
            (Var { index: (base - 1) as usize, value: None::<Fe> })
        },
        (Var { index: (base + 5) as usize, value: None::<Fe> }),
        (Var { index: (base + 6) as usize, value: None::<Fe> }),
        (Var { index: (base + 2) as usize, value: None::<Fe> }),
        (Var { index: (base + 9) as usize, value: None::<Fe> }),
        (Var { index: (nv0 + 4 * m) as usize, value: None::<Fe> }),
        (Var { index: (nv0 + 4 * m + 1) as usize, value: None::<Fe> }),
        (Var { index: (nv0 + 4 * m + 2) as usize, value: None::<Fe> }),
        (Var { index: (nv0 + 4 * m + 3) as usize, value: None::<Fe> }),
    ]
}

/// The ordinate of `φ·T + T`, the intermediate seed of the ladder.
#[verifier::opaque]
pub open spec fn endo_phip_y(e: nat, xt: nat, yt: nat) -> nat {
    ec_y3(fmul(xt, e), yt, xt, yt)
}

/// The abscissa of the ladder's seed accumulator `2·(φ·T + T)`.
#[verifier::opaque]
pub open spec fn endo_seed_x(e: nat, xt: nat, yt: nat) -> nat {
    ec_x3(
        ec_x3(fmul(xt, e), yt, xt, yt),
        ec_y3(fmul(xt, e), yt, xt, yt),
        ec_x3(fmul(xt, e), yt, xt, yt),
        ec_y3(fmul(xt, e), yt, xt, yt),
    )
}

/// The ordinate of the ladder's seed accumulator `2·(φ·T + T)`.
#[verifier::opaque]
pub open spec fn endo_seed_y(e: nat, xt: nat, yt: nat) -> nat {
    ec_y3(
        ec_x3(fmul(xt, e), yt, xt, yt),
        ec_y3(fmul(xt, e), yt, xt, yt),
        ec_x3(fmul(xt, e), yt, xt, yt),
        ec_y3(fmul(xt, e), yt, xt, yt),
    )
}

impl Cs {
    /// Allocates the cells of one mixed addition and returns the result
    /// cells together with the slope cell of its first half.
    fn endo_seg_cells(&mut self, e: &Fe, t: (Var, Var), p: (Var, Var), bs: Var, bsg: Var) -> (r: (
        Var,
        Var,
        Var,
    ))
        requires
            old(self).wf(),
            e.wf(),
            old(self).compat(t.0),
            old(self).compat(t.1),
            old(self).compat(p.0),
            old(self).compat(p.1),
            old(self).compat(bs),
            old(self).compat(bsg),
            old(self).is_witness() ==> endo_seg_ok(
                e@,
                t.0.val_n(),
                t.1.val_n(),
                p.0.val_n(),
                p.1.val_n(),
                bs.val_n(),
                bsg.val_n(),
            ),
            !old(self).is_witness() ==> old(self).nvars() + 7 <= usize::MAX,
        ensures
            stepped(*old(self), *final(self), 0, 7),
            final(self).rows_n() == old(self).rows_n(),
            final(self).gates_seq() == old(self).gates_seq(),
            final(self).compat(r.0),
            final(self).compat(r.1),
            final(self).compat(r.2),
            old(self).is_witness() ==> ({
                let sr = endo_seg(
                    e@,
                    t.0.val_n(),
                    t.1.val_n(),
                    p.0.val_n(),
                    p.1.val_n(),
                    bs.val_n(),
                    bsg.val_n(),
                );
                &&& r.0.val_n() == sr.0
                &&& r.1.val_n() == sr.1
                &&& r.2.val_n() == endo_s1(
                    e@,
                    t.0.val_n(),
                    t.1.val_n(),
                    p.0.val_n(),
                    p.1.val_n(),
                    bs.val_n(),
                    bsg.val_n(),
                )
            }),
            !old(self).is_witness() ==> ({
                let nv = old(self).nvars();
                &&& r.0 == (Var { index: (nv + 5) as usize, value: None::<Fe> })
                &&& r.1 == (Var { index: (nv + 6) as usize, value: None::<Fe> })
                &&& r.2 == (Var { index: (nv + 2) as usize, value: None::<Fe> })
            }),
    {
        proof {
            reveal(endo_seg);
            reveal(endo_seg_ok);
            reveal(endo_s1);
        }
        let w = self.witness_mode();
        let one = Fe::one();
        let xqv = if w {
            Some(fe_mul(&fe_add(&one, &fe_mul(&fe_sub(e, &one), &bs.val())), &t.0.val()))
        } else {
            None
        };
        let xq = self.var(xqv);
        let yqv = if w {
            Some(fe_mul(&fe_sub(&fe_double(&bsg.val()), &one), &t.1.val()))
        } else {
            None
        };
        let yq = self.var(yqv);
        let s1v = if w {
            Some(fe_div(&fe_sub(&yq.val(), &p.1.val()), &fe_sub(&xq.val(), &p.0.val())))
        } else {
            None
        };
        let s1 = self.var(s1v);
        let s1sqv = if w {
            Some(fe_square(&s1.val()))
        } else {
            None
        };
        let s1sq = self.var(s1sqv);
        let s2v = if w {
            Some(
                fe_sub(
                    &fe_div(
                        &fe_double(&p.1.val()),
                        &fe_sub(&fe_add(&fe_double(&p.0.val()), &xq.val()), &s1sq.val()),
                    ),
                    &s1.val(),
                ),
            )
        } else {
            None
        };
        let s2 = self.var(s2v);
        let xrv = if w {
            Some(fe_sub(&fe_add(&xq.val(), &fe_square(&s2.val())), &s1sq.val()))
        } else {
            None
        };
        let xr = self.var(xrv);
        let yrv = if w {
            Some(fe_sub(&fe_mul(&fe_sub(&p.0.val(), &xr.val()), &s2.val()), &p.1.val()))
        } else {
            None
        };
        let yr = self.var(yrv);
        (xr, yr, s1)
    }

    /// Emits one `EndoMul` row: two mixed additions consuming four bits,
    /// and the fourfold doubling of the reconstruction cell.
    #[verifier::rlimit(100)]
    fn endo_row(
        &mut self,
        e: &Fe,
        zero: Var,
        t: (Var, Var),
        acc: (Var, Var),
        n_acc: Var,
        b1: Var,
        b2: Var,
        b3: Var,
        b4: Var,
    ) -> (r: (Var, Var, Var))
        requires
            old(self).wf(),
            e.wf(),
            old(self).compat(zero),
            old(self).compat(t.0),
            old(self).compat(t.1),
            old(self).compat(acc.0),
            old(self).compat(acc.1),
            old(self).compat(n_acc),
            old(self).compat(b1),
            old(self).compat(b2),
            old(self).compat(b3),
            old(self).compat(b4),
            old(self).is_witness() ==> endo_row_ok(
                e@,
                t.0.val_n(),
                t.1.val_n(),
                acc.0.val_n(),
                acc.1.val_n(),
                b1.val_n(),
                b2.val_n(),
                b3.val_n(),
                b4.val_n(),
            ),
            !old(self).is_witness() ==> old(self).nvars() + 15 <= usize::MAX,
        ensures
            stepped(*old(self), *final(self), 1, 15),
            final(self).compat(r.0),
            final(self).compat(r.1),
            final(self).compat(r.2),
            old(self).is_witness() ==> ({
                let h = endo_seg(
                    e@,
                    t.0.val_n(),
                    t.1.val_n(),
                    acc.0.val_n(),
                    acc.1.val_n(),
                    b1.val_n(),
                    b2.val_n(),
                );
                let s = endo_seg(e@, t.0.val_n(), t.1.val_n(), h.0, h.1, b3.val_n(), b4.val_n());
                let a1 = fadd(fadd(n_acc.val_n(), n_acc.val_n()), b1.val_n());
                let a2 = fadd(fadd(a1, a1), b2.val_n());
                let a3 = fadd(fadd(a2, a2), b3.val_n());
                &&& r.0.val_n() == s.0
                &&& r.1.val_n() == s.1
                &&& r.2.val_n() == fadd(fadd(a3, a3), b4.val_n())
                &&& final(self).gates_seq() == old(self).gates_seq()
                &&& final(self).rows_n() == old(self).rows_n().push(
                    seq![
                        t.0.val_n(),
                        t.1.val_n(),
                        zero.val_n(),
                        zero.val_n(),
                        acc.0.val_n(),
                        acc.1.val_n(),
                        n_acc.val_n(),
                        h.0,
                        h.1,
                        endo_s1(
                            e@,
                            t.0.val_n(),
                            t.1.val_n(),
                            acc.0.val_n(),
                            acc.1.val_n(),
                            b1.val_n(),
                            b2.val_n(),
                        ),
                        endo_s1(e@, t.0.val_n(), t.1.val_n(), h.0, h.1, b3.val_n(), b4.val_n()),
                        b1.val_n(),
                        b2.val_n(),
                        b3.val_n(),
                        b4.val_n(),
                    ],
                )
            }),
            !old(self).is_witness() ==> ({
                let gs = final(self).gates_seq();
                let nv = old(self).nvars();
                &&& final(self).rows_n() == old(self).rows_n()
                &&& gs == old(self).gates_seq().push(gs.last())
                &&& gs.last().typ == GateType::EndoMul
                &&& gs.last().coeffs@.len() == 0
                &&& gs.last().row@ == seq![
                    t.0,
                    t.1,
                    zero,
                    zero,
                    acc.0,
                    acc.1,
                    n_acc,
                    (Var { index: (nv + 5) as usize, value: None::<Fe> }),
                    (Var { index: (nv + 6) as usize, value: None::<Fe> }),
                    (Var { index: (nv + 2) as usize, value: None::<Fe> }),
                    (Var { index: (nv + 9) as usize, value: None::<Fe> }),
                    b1,
                    b2,
                    b3,
                    b4,
                ]
                &&& r.0 == (Var { index: (nv + 12) as usize, value: None::<Fe> })
                &&& r.1 == (Var { index: (nv + 13) as usize, value: None::<Fe> })
                &&& r.2 == (Var { index: (nv + 14) as usize, value: None::<Fe> })
            }),
    {
        let w = self.witness_mode();
        let (xp, yp) = acc;
        let (xr, yr, s1) = self.endo_seg_cells(e, t, (xp, yp), b1, b2);
        proof {
            if w {
                assert(endo_seg_ok(
                    e@,
                    t.0.val_n(),
                    t.1.val_n(),
                    xr.val_n(),
                    yr.val_n(),
                    b3.val_n(),
                    b4.val_n(),
                ));
            }
        }
        let (xs, ys, s3) = self.endo_seg_cells(e, t, (xr, yr), b3, b4);
        let mut row: Vec<Var> = Vec::new();
        row.push(t.0);
        row.push(t.1);
        row.push(zero);
        row.push(zero);
        row.push(xp);
        row.push(yp);
        row.push(n_acc);
        row.push(xr);
        row.push(yr);
        row.push(s1);
        row.push(s3);
        row.push(b1);
        row.push(b2);
        row.push(b3);
        row.push(b4);
        proof {
            if w {
                assert(row_has_vals(row@)) by {
                    assert forall|m: int| 0 <= m < row@.len() implies (
                    #[trigger] row@[m]).val_wf() by {}
                }
                assert(crate::types::row_vals(row@) =~= seq![
                    t.0.val_n(),
                    t.1.val_n(),
                    zero.val_n(),
                    zero.val_n(),
                    xp.val_n(),
                    yp.val_n(),
                    n_acc.val_n(),
                    xr.val_n(),
                    yr.val_n(),
                    s1.val_n(),
                    s3.val_n(),
                    b1.val_n(),
                    b2.val_n(),
                    b3.val_n(),
                    b4.val_n(),
                ]);
            } else {
                assert(row@ =~= seq![
                    t.0,
                    t.1,
                    zero,
                    zero,
                    xp,
                    yp,
                    n_acc,
                    xr,
                    yr,
                    s1,
                    s3,
                    b1,
                    b2,
                    b3,
                    b4,
                ]);
            }
        }
        self.gate(GateSpec { typ: GateType::EndoMul, row, coeffs: Vec::new() });
        let nv = if w {
            let d1 = fe_add(&fe_double(&n_acc.val()), &b1.val());
            let d2 = fe_add(&fe_double(&d1), &b2.val());
            let d3 = fe_add(&fe_double(&d2), &b3.val());
            Some(fe_add(&fe_double(&d3), &b4.val()))
        } else {
            None
        };
        let nn = self.var(nv);
        (xs, ys, nn)
    }

    /// Emits the ladder's seed: the generic row scaling the target's
    /// abscissa by the endomorphism coefficient, the complete addition
    /// `φ·T + T`, and its doubling, whose cells are returned.
    #[verifier::rlimit(100)]
    fn endo_seed(&mut self, zero: Var, e: &Fe, t: (Var, Var)) -> (acc: (Var, Var))
        requires
            old(self).wf(),
            e.wf(),
            old(self).compat(zero),
            old(self).compat(t.0),
            old(self).compat(t.1),
            old(self).is_witness() ==> (fmul(t.0.val_n(), e@) == t.0.val_n() ==> t.1.val_n()
                != 0),
            old(self).is_witness() ==> endo_phip_y(e@, t.0.val_n(), t.1.val_n()) != 0,
            !old(self).is_witness() ==> old(self).nvars() + 28 <= usize::MAX,
        ensures
            stepped(*old(self), *final(self), 3, 28),
            final(self).compat(acc.0),
            final(self).compat(acc.1),
            old(self).is_witness() ==> ({
                &&& acc.0.val_n() == endo_seed_x(e@, t.0.val_n(), t.1.val_n())
                &&& acc.1.val_n() == endo_seed_y(e@, t.0.val_n(), t.1.val_n())
                &&& final(self).gates_seq() == old(self).gates_seq()
                &&& final(self).rows_n().len() == old(self).rows_n().len() + 3
                &&& final(self).rows_n().subrange(0, old(self).rows_n().len() as int) == old(
                    self,
                ).rows_n()
            }),
            !old(self).is_witness() ==> ({
                &&& final(self).rows_n() == old(self).rows_n()
                &&& final(self).gates_seq().len() == old(self).gates_seq().len() + 3
                &&& final(self).gates_seq().subrange(0, old(self).gates_seq().len() as int)
                    == old(self).gates_seq()
                &&& acc.0 == (Var { index: (old(self).nvars() + 26) as usize, value: None::<Fe> })
                &&& acc.1 == (Var { index: (old(self).nvars() + 27) as usize, value: None::<Fe> })
            }),
    {
        let ghost pre = *old(self);
        let w = self.witness_mode();
        let phipx = self.scale(*e, t.0);
        let ghost ra = self.rows_n();
        let phip_p = self.add_group(zero, (phipx, t.1), t);
        let ghost rb = self.rows_n();
        proof {
            if w {
                reveal(endo_phip_y);
            }
        }
        let acc = self.double(zero, phip_p);
        proof {
            reveal(endo_phip_y);
            reveal(endo_seed_x);
            reveal(endo_seed_y);
            if w {
                assert(acc.0.val_n() == endo_seed_x(e@, t.0.val_n(), t.1.val_n()));
                assert(acc.1.val_n() == endo_seed_y(e@, t.0.val_n(), t.1.val_n()));
                assert forall|x: int| 0 <= x < pre.rows_n().len() implies #[trigger] self.rows_n()[x]
                    == pre.rows_n()[x] by {
                    assert(self.rows_n() == rb.push(self.rows_n().last()));
                    assert(rb[x] == ra[x]);
                    assert(ra[x] == pre.rows_n()[x]);
                }
                assert(self.rows_n().subrange(0, pre.rows_n().len() as int) =~= pre.rows_n());
            } else {
                assert(self.gates_seq().subrange(0, pre.gates_seq().len() as int)
                    =~= pre.gates_seq());
            }
        }
        acc
    }

    /// Multiplies the target point by an endomorphism-encoded scalar of
    /// the given bit length.  The scalar's bits become cells, the ladder
    /// runs four bits per `EndoMul` row, and a final `Zero` row pins the
    /// reconstructed scalar against the scalar cell.  Returns the cells
    /// of the result point.
    #[verifier::rlimit(100)]
    pub fn endo(
        &mut self,
        zero: Var,
        constants: &Constants,
        t: (Var, Var),
        scalar: Var,
        length_in_bits: usize,
    ) -> (r: (Var, Var))
        requires
            old(self).wf(),
            old(self).compat(zero),
            old(self).compat(t.0),
            old(self).compat(t.1),
            old(self).compat(scalar),
            constants.endo.wf(),
            length_in_bits % 4 == 0,
            length_in_bits <= 256,
            old(self).is_witness() ==> (fmul(t.0.val_n(), constants.endo@) == t.0.val_n()
                ==> t.1.val_n() != 0),
            old(self).is_witness() ==> endo_phip_y(constants.endo@, t.0.val_n(), t.1.val_n())
                != 0,
            old(self).is_witness() ==> endo_ok(
                constants.endo@,
                t.0.val_n(),
                t.1.val_n(),
                endo_seed_x(constants.endo@, t.0.val_n(), t.1.val_n()),
                endo_seed_y(constants.endo@, t.0.val_n(), t.1.val_n()),
                bits_of(scalar.value.unwrap(), length_in_bits as int),
                (length_in_bits / 4) as nat,
            ),
            !old(self).is_witness() ==> old(self).nvars() + 15 * (length_in_bits as int) + 28
                + 15 * ((length_in_bits / 4) as int) <= usize::MAX,
        ensures
            stepped(
                *old(self), *final(self),
                ((length_in_bits / 4) + 4) as nat,
                (length_in_bits + 28 + 15 * ((length_in_bits / 4) as int)) as nat,
            ),
            final(self).compat(r.0),
            final(self).compat(r.1),
            old(self).is_witness() ==> ({
                let e = constants.endo@;
                let xtv = t.0.val_n();
                let ytv = t.1.val_n();
                let x0 = endo_seed_x(e, xtv, ytv);
                let y0 = endo_seed_y(e, xtv, ytv);
                let bits = bits_of(scalar.value.unwrap(), length_in_bits as int);
                let rows = (length_in_bits / 4) as nat;
                let fin = endo_point(e, xtv, ytv, x0, y0, bits, rows);
                let n0 = old(self).rows_n().len() as int;
                &&& r.0.val_n() == fin.0
                &&& r.1.val_n() == fin.1
                &&& final(self).rows_n().len() == n0 + (length_in_bits / 4) + 4
                &&& final(self).rows_n().subrange(0, n0) == old(self).rows_n()
                &&& forall|m: int|
                    0 <= m < length_in_bits / 4 ==> (#[trigger] final(self).rows_n()[n0 + 3 + m])
                        == endo_row_vals(e, xtv, ytv, zero.val_n(), x0, y0, bits, m)
                &&& final(self).rows_n().last() == seq![
                    zero.val_n(),
                    zero.val_n(),
                    zero.val_n(),
                    zero.val_n(),
                    fin.0,
                    fin.1,
                    scalar.val_n(),
                    zero.val_n(),
                    zero.val_n(),
                    zero.val_n(),
                    zero.val_n(),
                    zero.val_n(),
                    zero.val_n(),
                    zero.val_n(),
                    zero.val_n(),
                ]
            }),
            !old(self).is_witness() ==> ({
                let gs = final(self).gates_seq();
                let r0 = old(self).gate_count() as int;
                let rows = (length_in_bits / 4) as int;
                &&& gs.len() == r0 + rows + 4
                &&& gs.subrange(0, r0) == old(self).gates_seq()
                &&& forall|m: int|
                    0 <= m < rows ==> (#[trigger] gs[r0 + 3 + m]).typ == GateType::EndoMul && gs[r0
                        + 3 + m].coeffs@.len() == 0 && gs[r0 + 3 + m].row@ == endo_row_cells(
                        old(self).nvars(),
                        length_in_bits as nat,
                        m,
                        t.0,
                        t.1,
                        zero,
                    )
                &&& gs.last().typ == GateType::Zero
                &&& gs.last().coeffs@.len() == 0
                &&& gs.last().row@.len() == COLUMNS
                &&& gs.last().row@[4] == r.0
                &&& gs.last().row@[5] == r.1
                &&& gs.last().row@[6] == scalar
            }),
    {
        let ghost pre = *old(self);
        let w = self.witness_mode();
        let rows = length_in_bits / 4;
        let e = constants.endo;
        let ghost eg = e@;
        let ghost xtg = t.0.val_n();
        let ghost ytg = t.1.val_n();
        let ghost bitsg = bits_of(scalar.value.unwrap(), length_in_bits as int);

        // the scalar's bits, most significant first
        let mut bits: Vec<Var> = Vec::new();
        let mut i: usize = 0;
        while i < length_in_bits
            invariant
                0 <= i <= length_in_bits,
                length_in_bits <= 256,
                pre.wf(),
                self.wf(),
                self.is_witness() == pre.is_witness(),
                w == pre.is_witness(),
                w ==> scalar.val_wf(),
                bitsg == bits_of(scalar.value.unwrap(), length_in_bits as int),
                self.gate_count() == pre.gate_count(),
                self.nvars() == pre.nvars() + (if w {
                    0nat
                } else {
                    i as nat
                }),
                !w ==> pre.nvars() + 15 * (length_in_bits as int) + 28 + 15 * (
                (length_in_bits / 4) as int) <= usize::MAX,
                self.gates_seq() == pre.gates_seq(),
                self.rows_n() == pre.rows_n(),
                bits@.len() == i,
                forall|m: int| 0 <= m < i ==> self.compat(#[trigger] bits@[m]),
                w ==> forall|m: int| 0 <= m < i ==> (#[trigger] bits@[m]).val_n() == bitsg[m],
                !w ==> forall|m: int|
                    0 <= m < i ==> (#[trigger] bits@[m]) == (Var {
                        index: (pre.nvars() + m) as usize,
                        value: None::<Fe>,
                    }),
            decreases length_in_bits - i,
        {
            let bv = if w {
                let sv = scalar.val();
                if fe_bit(&sv, length_in_bits - 1 - i) {
                    Some(Fe::one())
                } else {
                    Some(Fe::zero())
                }
            } else {
                None
            };
            let b = self.var(bv);
            bits.push(b);
            i = i + 1;
        }

        // seed: acc = double(phi(T) + T)
        let mut acc = self.endo_seed(zero, &e, t);
        let mut n_acc = zero;
        let ghost x0g = endo_seed_x(eg, xtg, ytg);
        let ghost y0g = endo_seed_y(eg, xtg, ytg);
        let ghost base_count = self.gate_count();
        let ghost rows3 = self.rows_n();

        let mut j: usize = 0;
        while j < rows
            invariant
                0 <= j <= rows,
                rows == length_in_bits / 4,
                length_in_bits % 4 == 0,
                length_in_bits <= 256,
                pre.wf(),
                self.wf(),
                self.is_witness() == pre.is_witness(),
                w == pre.is_witness(),
                e.wf(),
                eg == e@,
                xtg == t.0.val_n(),
                ytg == t.1.val_n(),
                w ==> t.0.val_wf() && t.1.val_wf() && zero.val_wf() && scalar.val_wf(),
                w ==> endo_ok(eg, xtg, ytg, x0g, y0g, bitsg, rows as nat),
                bits@.len() == length_in_bits,
                forall|m: int| 0 <= m < length_in_bits ==> self.compat(#[trigger] bits@[m]),
                w ==> forall|m: int|
                    0 <= m < length_in_bits ==> (#[trigger] bits@[m]).val_n() == bitsg[m],
                !w ==> forall|m: int|
                    0 <= m < length_in_bits ==> (#[trigger] bits@[m]) == (Var {
                        index: (pre.nvars() + m) as usize,
                        value: None::<Fe>,
                    }),
                self.compat(acc.0),
                self.compat(acc.1),
                self.compat(n_acc),
                !w && j == 0 ==> acc.0 == (Var {
                    index: (pre.nvars() + length_in_bits + 26) as usize,
                    value: None::<Fe>,
                }) && acc.1 == (Var {
                    index: (pre.nvars() + length_in_bits + 27) as usize,
                    value: None::<Fe>,
                }) && n_acc == zero,
                !w && j > 0 ==> acc.0 == (Var {
                    index: (pre.nvars() + length_in_bits + 28 + 15 * (j - 1) + 12) as usize,
                    value: None::<Fe>,
                }) && acc.1 == (Var {
                    index: (pre.nvars() + length_in_bits + 28 + 15 * (j - 1) + 13) as usize,
                    value: None::<Fe>,
                }) && n_acc == (Var {
                    index: (pre.nvars() + length_in_bits + 28 + 15 * (j - 1) + 14) as usize,
                    value: None::<Fe>,
                }),
                w ==> acc.0.val_n() == endo_point(eg, xtg, ytg, x0g, y0g, bitsg, j as nat).0
                    && acc.1.val_n() == endo_point(eg, xtg, ytg, x0g, y0g, bitsg, j as nat).1,
                w ==> n_acc.val_n() == endo_nacc(zero.val_n(), bitsg, j as nat),
                self.gate_count() == base_count + j,
                base_count == pre.gate_count() + 3,
                self.nvars() == pre.nvars() + (if w {
                    0nat
                } else {
                    (length_in_bits + 28 + 15 * j) as nat
                }),
                !w ==> pre.nvars() + 15 * (length_in_bits as int) + 28 + 15 * (
                (length_in_bits / 4) as int) <= usize::MAX,
                w ==> self.gates_seq() == pre.gates_seq(),
                !w ==> self.rows_n() == pre.rows_n(),
                w ==> rows3.len() == pre.rows_n().len() + 3 && rows3.subrange(
                    0,
                    pre.rows_n().len() as int,
                ) == pre.rows_n(),
                w ==> self.rows_n().len() == rows3.len() + j && self.rows_n().subrange(
                    0,
                    rows3.len() as int,
                ) == rows3,
                w ==> forall|m: int|
                    0 <= m < j ==> (#[trigger] self.rows_n()[rows3.len() + m]) == endo_row_vals(
                        eg,
                        xtg,
                        ytg,
                        zero.val_n(),
                        x0g,
                        y0g,
                        bitsg,
                        m,
                    ),
                !w ==> ({
                    let gs = self.gates_seq();
                    let r0 = pre.gate_count() as int;
                    &&& gs.len() == r0 + 3 + j
                    &&& gs.subrange(0, r0) == pre.gates_seq()
                    &&& forall|m: int|
                        0 <= m < j ==> (#[trigger] gs[r0 + 3 + m]).typ == GateType::EndoMul && gs[r0
                            + 3 + m].coeffs@.len() == 0 && gs[r0 + 3 + m].row@ == endo_row_cells(
                            pre.nvars(),
                            length_in_bits as nat,
                            m,
                            t.0,
                            t.1,
                            zero,
                        )
                }),
            decreases rows - j,
        {
            let b1 = bits[4 * j];
            let b2 = bits[4 * j + 1];
            let b3 = bits[4 * j + 2];
            let b4 = bits[4 * j + 3];
            proof {
                if w {
                    assert(({
                        let p = endo_point(eg, xtg, ytg, x0g, y0g, bitsg, j as nat);
                        endo_row_ok(
                            eg,
                            xtg,
                            ytg,
                            p.0,
                            p.1,
                            bitsg[4 * j],
                            bitsg[4 * j + 1],
                            bitsg[4 * j + 2],
                            bitsg[4 * j + 3],
                        )
                    }));
                }
            }
            let ghost gprev = self.gates_seq();
            let ghost rprev = self.rows_n();
            let rr = self.endo_row(&e, zero, t, acc, n_acc, b1, b2, b3, b4);
            acc = (rr.0, rr.1);
            n_acc = rr.2;
            proof {
                if w {
                    assert(endo_point(eg, xtg, ytg, x0g, y0g, bitsg, (j + 1) as nat) == ({
                        let prev = endo_point(eg, xtg, ytg, x0g, y0g, bitsg, j as nat);
                        let rseg = endo_seg(eg, xtg, ytg, prev.0, prev.1, bitsg[4 * (j as int)], bitsg[4 * (j as int) + 1]);
                        endo_seg(eg, xtg, ytg, rseg.0, rseg.1, bitsg[4 * (j as int) + 2], bitsg[4 * (j as int) + 3])
                    }));
                    assert(endo_nacc(zero.val_n(), bitsg, (j + 1) as nat) == ({
                        let p = endo_nacc(zero.val_n(), bitsg, j as nat);
                        let a1 = fadd(fadd(p, p), bitsg[4 * (j as int)]);
                        let a2 = fadd(fadd(a1, a1), bitsg[4 * (j as int) + 1]);
                        let a3 = fadd(fadd(a2, a2), bitsg[4 * (j as int) + 2]);
                        fadd(fadd(a3, a3), bitsg[4 * (j as int) + 3])
                    }));
                    assert forall|x: int| 0 <= x < rprev.len() implies #[trigger] self.rows_n()[x]
                        == rprev[x] by {
                        assert(self.rows_n() == rprev.push(self.rows_n().last()));
                    }
                    assert(self.rows_n().subrange(0, rows3.len() as int) =~= rows3);
                    reveal(endo_row_vals);
                    assert(self.rows_n()[rows3.len() + j as int] =~= endo_row_vals(
                        eg,
                        xtg,
                        ytg,
                        zero.val_n(),
                        x0g,
                        y0g,
                        bitsg,
                        j as int,
                    ));
                } else {
                    assert(self.gates_seq().subrange(0, pre.gate_count() as int)
                        =~= pre.gates_seq());
                    assert forall|x: int| 0 <= x < gprev.len() implies #[trigger] self.gates_seq()[x]
                        == gprev[x] by {
                        assert(self.gates_seq() == gprev.push(self.gates_seq().last()));
                    }
                    reveal(endo_row_cells);
                    assert(self.gates_seq().last().row@ =~= endo_row_cells(
                        pre.nvars(),
                        length_in_bits as nat,
                        j as int,
                        t.0,
                        t.1,
                        zero,
                    ));
                }
            }
            j = j + 1;
        }
        let mut frow: Vec<Var> = Vec::new();
        frow.push(zero);
        frow.push(zero);
        frow.push(zero);
        frow.push(zero);
        frow.push(acc.0);
        frow.push(acc.1);
        frow.push(scalar);
        frow.push(zero);
        frow.push(zero);
        frow.push(zero);
        frow.push(zero);
        frow.push(zero);
        frow.push(zero);
        frow.push(zero);
        frow.push(zero);
        proof {
            if w {
                assert(row_has_vals(frow@)) by {
                    assert forall|m: int| 0 <= m < frow@.len() implies (
                    #[trigger] frow@[m]).val_wf() by {}
                }
                assert(crate::types::row_vals(frow@) =~= seq![
                    zero.val_n(),
                    zero.val_n(),
                    zero.val_n(),
                    zero.val_n(),
                    acc.0.val_n(),
                    acc.1.val_n(),
                    scalar.val_n(),
                    zero.val_n(),
                    zero.val_n(),
                    zero.val_n(),
                    zero.val_n(),
                    zero.val_n(),
                    zero.val_n(),
                    zero.val_n(),
                    zero.val_n(),
                ]);
            }
        }
        let ghost gprev2 = self.gates_seq();
        let ghost rprev2 = self.rows_n();
        self.gate(GateSpec { typ: GateType::Zero, row: frow, coeffs: Vec::new() });
        proof {
            if !w {
                assert(self.gates_seq().subrange(0, pre.gate_count() as int) =~= pre.gates_seq());
                assert forall|x: int| 0 <= x < gprev2.len() implies #[trigger] self.gates_seq()[x]
                    == gprev2[x] by {
                    assert(self.gates_seq() == gprev2.push(self.gates_seq().last()));
                }
            } else {
                assert forall|x: int| 0 <= x < rprev2.len() implies #[trigger] self.rows_n()[x]
                    == rprev2[x] by {
                    assert(self.rows_n() == rprev2.push(self.rows_n().last()));
                }
                assert(self.rows_n().subrange(0, pre.rows_n().len() as int) =~= pre.rows_n());
            }
        }
        acc
    }
}

} // verus!
