//! Laws of the gadget library: every generic row a gadget emits is
//! satisfied by the witness values the same gadget computes.
//!
//! The statements pair each gadget's coefficient vector with the value
//! row its witness run pushes, as the gadget contracts describe them, and
//! prove that the first generic sub-gate relation evaluates to zero.  The
//! conjunction-of-products row of the superseded boolean gadget is the
//! known exception: its coefficients demand the half-sum, not the
//! product, so no such law holds for it.

use vstd::prelude::*;
use vstd::arithmetic::div_mod::lemma_fundamental_div_mod;
use vstd::arithmetic::div_mod::lemma_mod_multiples_basic;
use vstd::arithmetic::div_mod::lemma_small_mod;
use vstd::arithmetic::div_mod::lemma_sub_mod_noop;
use crate::field::p;
use crate::field::fadd;
use crate::field::fsub;
use crate::field::fmul;
use crate::field::fneg;
use crate::writer::gcoeffs;
use crate::writer::generic_ok;
use crate::writer::padded;

verus! {

/// The row emitted by the addition gadget satisfies its constraint:
/// `x1 + x2 - res = 0` holds of `res = x1 + x2`.
pub proof fn lemma_add_row_satisfied(a: nat, b: nat)
    requires
        a < p(),
        b < p(),
    ensures
        generic_ok(gcoeffs(1, 1, fneg(1), 0, 0), padded(seq![a, b, fadd(a, b)])),
{
    let m = p() as int;
    let c = fadd(a, b);
    lemma_fundamental_div_mod((a + b) as int, m);
    let q = (a + b) as int / m;
    assert(a + b == m * q + c);
    lemma_fneg_one();
    assert(1 * a + 1 * b + fneg(1) * c + 0 * (a * b) + 0 == m * (q + c)) by (nonlinear_arith)
        requires
            a + b == m * q + c,
            fneg(1) == m - 1,
    ;
    lemma_mod_multiples_basic(q + c, m);
}

/// The row emitted by the subtraction gadget satisfies its constraint:
/// `x1 - x2 - res = 0` holds of `res = x1 - x2`.
pub proof fn lemma_sub_row_satisfied(a: nat, b: nat)
    requires
        a < p(),
        b < p(),
    ensures
        generic_ok(gcoeffs(1, fneg(1), fneg(1), 0, 0), padded(seq![a, b, fsub(a, b)])),
{
    let m = p() as int;
    let c = fsub(a, b);
    lemma_fundamental_div_mod(a - b, m);
    let q = (a - b) / m;
    assert(a - b == m * q + c);
    lemma_fneg_one();
    assert(1 * a + fneg(1) * b + fneg(1) * c + 0 * (a * b) + 0 == m * (q + b + c)) by (nonlinear_arith)
        requires
            a - b == m * q + c,
            fneg(1) == m - 1,
    ;
    lemma_mod_multiples_basic(q + b + c, m);
}

/// The row emitted by the disjunction gadget satisfies its constraint:
/// `x1 + x2 - res - x1·x2 = 0` holds of `res = x1 + x2 - x1·x2`.
pub proof fn lemma_or_row_satisfied(a: nat, b: nat)
    requires
        a < p(),
        b < p(),
    ensures
        generic_ok(
            gcoeffs(1, 1, fneg(1), fneg(1), 0),
            padded(seq![a, b, fsub(fadd(a, b), fmul(a, b))]),
        ),
{
    let m = p() as int;
    let c = fsub(fadd(a, b), fmul(a, b));
    assert(c == (a + b - a * b) % m) by {
        lemma_sub_mod_noop((a + b) as int, (a * b) as int, m);
    }
    lemma_fundamental_div_mod(a + b - a * b, m);
    let q = (a + b - a * b) / m;
    assert(a + b - a * b == m * q + c);
    lemma_fneg_one();
    assert(1 * a + 1 * b + fneg(1) * c + fneg(1) * (a * b) + 0 == m * (q + c + a * b)) by (nonlinear_arith)
        requires
            a + b - a * b == m * q + c,
            fneg(1) == m - 1,
    ;
    lemma_mod_multiples_basic(q + c + a * b, m);
}

/// The row emitted by the equality assertion is satisfied exactly when
/// the two cells hold the same value.
pub proof fn lemma_assert_eq_row(a: nat, b: nat)
    requires
        a < p(),
        b < p(),
    ensures
        generic_ok(gcoeffs(1, fneg(1), 0, 0, 0), padded(seq![a, b])) <==> a == b,
{
    let m = p() as int;
    lemma_fneg_one();
    if a == b {
        assert(1 * a + fneg(1) * b + 0 * 0 + 0 * (a * b) + 0 == m * b) by (nonlinear_arith)
            requires
                a == b,
                fneg(1) == m - 1,
        ;
        lemma_mod_multiples_basic(b as int, m);
    } else {
        let e = (1 * a + fneg(1) * b + 0 * 0 + 0 * (a * b) + 0) as int;
        assert(e == a - b + m * b) by (nonlinear_arith)
            requires
                e == 1 * a + fneg(1) * b + 0 * 0 + 0 * (a * b) + 0,
                fneg(1) == m - 1,
        ;
        if a > b {
            lemma_fundamental_div_mod_eq(a - b + m * b, m, b as int, a - b);
        } else {
            assert(a - b + m * b == (b - 1) * m + (a - b + m)) by (nonlinear_arith);
            vstd::arithmetic::div_mod::lemma_fundamental_div_mod_converse_mod(
                a - b + m * b,
                m,
                b - 1,
                a - b + m,
            );
        }
    }
}

/// The row emitted by the constant gadget satisfies its constraint:
/// `res - x = 0` holds of `res = x`.
pub proof fn lemma_constant_row_satisfied(x: nat)
    requires
        x < p(),
    ensures
        generic_ok(gcoeffs(1, 0, 0, 0, fneg(x)), padded(seq![x])),
{
    let m = p() as int;
    if x == 0 {
        lemma_small_mod(0, p());
        assert(1 * 0 + 0 * 0 + 0 * 0 + 0 * (0 * 0) + fneg(0) == 0);
    } else {
        assert(fneg(x) == (m - x) as nat) by {
            vstd::arithmetic::div_mod::lemma_fundamental_div_mod_converse_mod(
                0 - x,
                m,
                -1,
                m - x,
            );
        }
        assert(1 * x + 0 * 0 + 0 * 0 + 0 * (x * 0) + fneg(x) == m) by (nonlinear_arith)
            requires
                fneg(x) == m - x,
        ;
        lemma_mod_multiples_basic(1, m);
    }
}

/// The row emitted by the scaling gadget satisfies its constraint:
/// `x·v - res = 0` holds of `res = x·v`.
pub proof fn lemma_scale_row_satisfied(x: nat, v: nat)
    requires
        x < p(),
        v < p(),
    ensures
        generic_ok(gcoeffs(x, fneg(1), 0, 0, 0), padded(seq![v, fmul(v, x)])),
{
    let m = p() as int;
    let c = fmul(v, x);
    lemma_fundamental_div_mod((v * x) as int, m);
    let q = (v * x) as int / m;
    assert(v * x == m * q + c);
    lemma_fneg_one();
    assert(x * v + fneg(1) * c + 0 * 0 + 0 * (v * c) + 0 == m * (q + c)) by (nonlinear_arith)
        requires
            v * x == m * q + c,
            fneg(1) == m - 1,
    ;
    lemma_mod_multiples_basic(q + c, m);
}

/// The product row emitted by the selection gadget satisfies its
/// constraint: `b·delta - res1 = 0` holds of `res1 = b·delta`.
pub proof fn lemma_select_product_row_satisfied(b: nat, d: nat)
    requires
        b < p(),
        d < p(),
    ensures
        generic_ok(gcoeffs(0, 0, fneg(1), 1, 0), padded(seq![b, d, fmul(b, d)])),
{
    let m = p() as int;
    let c = fmul(b, d);
    lemma_fundamental_div_mod((b * d) as int, m);
    let q = (b * d) as int / m;
    assert(b * d == m * q + c);
    lemma_fneg_one();
    assert(0 * b + 0 * d + fneg(1) * c + 1 * (b * d) + 0 == m * (q + c)) by (nonlinear_arith)
        requires
            b * d == m * q + c,
            fneg(1) == m - 1,
    ;
    lemma_mod_multiples_basic(q + c, m);
}

/// The inverse row of the equality indicator is satisfied: the product
/// of the difference and its stored inverse equals one minus the
/// indicator.  The stored inverse is the one the field backend hands the
/// gadget: zero for a zero difference, a true inverse otherwise.
pub proof fn lemma_equals_inverse_row_satisfied(x1: nat, x2: nat, iv: nat)
    requires
        x1 < p(),
        x2 < p(),
        iv < p(),
        x1 == x2 ==> iv == 0,
        x1 != x2 ==> fmul(fsub(x2, x1), iv) == 1,
    ensures
        ({
            let dv = fsub(x2, x1);
            let rv: nat = if x1 == x2 {
                1
            } else {
                0
            };
            generic_ok(gcoeffs(0, 0, fneg(1), 1, 0), padded(seq![iv, dv, fsub(1, rv)]))
        }),
{
    let m = p() as int;
    let dv = fsub(x2, x1);
    let rv: nat = if x1 == x2 {
        1nat
    } else {
        0nat
    };
    let om = fsub(1, rv);
    crate::field::lemma_fsub_zero_iff(x2, x1);
    if x1 == x2 {
        assert(dv == 0);
        assert(om == 0) by {
            lemma_small_mod(0, p());
        }
        lemma_fneg_one();
        assert(0 * iv + 0 * dv + fneg(1) * om + 1 * (iv * dv) + 0 == 0) by (nonlinear_arith)
            requires
                dv == 0,
                om == 0,
        ;
        lemma_small_mod(0, p());
    } else {
        assert(dv != 0);
        assert(om == 1) by {
            lemma_small_mod(1, p());
        }
        let e = 0 * iv + 0 * dv + fneg(1) * 1 + 1 * (iv * dv) + 0;
        lemma_fundamental_div_mod((dv * iv) as int, m);
        let q = (dv * iv) as int / m;
        assert(dv * iv == m * q + 1);
        lemma_fneg_one();
        assert(e == m * (q + 1)) by (nonlinear_arith)
            requires
                e == 0 * iv + 0 * dv + fneg(1) * 1 + 1 * (iv * dv) + 0,
                dv * iv == m * q + 1,
                fneg(1) == m - 1,
        ;
        lemma_mod_multiples_basic(q + 1, m);
    }
}

/// The zero-product row of the equality indicator is satisfied: the
/// indicator annihilates the difference.
pub proof fn lemma_equals_zero_row_satisfied(x1: nat, x2: nat)
    requires
        x1 < p(),
        x2 < p(),
    ensures
        ({
            let dv = fsub(x2, x1);
            let rv: nat = if x1 == x2 {
                1
            } else {
                0
            };
            generic_ok(gcoeffs(0, 0, 0, 1, 0), padded(seq![rv, dv]))
        }),
{
    let dv = fsub(x2, x1);
    let rv: nat = if x1 == x2 {
        1nat
    } else {
        0nat
    };
    crate::field::lemma_fsub_zero_iff(x2, x1);
    lemma_small_mod(0, p());
    if x1 == x2 {
        assert(0 * rv + 0 * dv + 0 * 0 + 1 * (rv * dv) + 0 == 0) by (nonlinear_arith)
            requires
                dv == 0,
        ;
    } else {
        assert(rv * dv == 0) by (nonlinear_arith)
            requires
                rv == 0,
        ;
    }
}

/// Negative one in the field, as a concrete residue.
pub proof fn lemma_fneg_one()
    ensures
        fneg(1) == (p() - 1) as nat,
{
    vstd::arithmetic::div_mod::lemma_fundamental_div_mod_converse_mod(
        -1,
        p() as int,
        -1,
        p() - 1,
    );
}

/// A helper restating the fundamental division equation for a chosen
/// quotient and remainder.
proof fn lemma_fundamental_div_mod_eq(x: int, d: int, q: int, r: int)
    requires
        d > 0,
        x == q * d + r,
        0 <= r < d,
    ensures
        x % d == r,
{
    vstd::arithmetic::div_mod::lemma_fundamental_div_mod_converse_mod(x, d, q, r);
}

} // verus!
