use ark_ec::AffineRepr;
use ark_ff::Field;
use ark_ff::PrimeField;
use circuit_construction::shifts::Shifts;
use circuit_construction::types::Wire;
use circuit_construction::field::{fe_add, fe_inv, fe_mul, fe_sub, shift, unshifted_scalar, Fe, ScalarLimbs};
use circuit_construction::poseidon::poseidon_full_round;
use circuit_construction::types::{Constants, PoseidonParams};
use circuit_construction::writer::{Cs, System, WitnessGenerator};

type Fq = ark_pallas::Fq;

fn to_fq(f: &Fe) -> Fq {
    Fq::from_bigint(ark_ff::BigInt::new([f.l0, f.l1, f.l2, f.l3])).unwrap()
}

fn from_fq(x: Fq) -> Fe {
    let l = x.into_bigint().0;
    Fe {
        l0: l[0],
        l1: l[1],
        l2: l[2],
        l3: l[3],
    }
}

fn fe_u64(x: u64) -> Fe {
    Fe {
        l0: x,
        l1: 0,
        l2: 0,
        l3: 0,
    }
}

#[test]
fn field_ops_match_backend() {
    let a = from_fq(Fq::from(123456789123456789u64));
    let b = from_fq(Fq::from(987654321987654321u64));
    assert_eq!(to_fq(&fe_add(&a, &b)), to_fq(&a) + to_fq(&b));
    assert_eq!(to_fq(&fe_sub(&a, &b)), to_fq(&a) - to_fq(&b));
    assert_eq!(to_fq(&fe_mul(&a, &b)), to_fq(&a) * to_fq(&b));
    let inv = fe_inv(&a).unwrap();
    assert_eq!(to_fq(&fe_mul(&a, &inv)), Fq::from(1u64));
    assert!(fe_inv(&Fe::zero()).is_none());
}

#[test]
fn unshifted_scalar_inverts_the_shift() {
    // x = 2·5 + 1 + 2^8, so the unshifted value is 5
    let x = ScalarLimbs {
        l0: 2 * 5 + 1 + 256,
        l1: 0,
        l2: 0,
        l3: 0,
    };
    let y = unshifted_scalar(&x, 8).unwrap();
    assert_eq!(y, fe_u64(5));
}

#[test]
fn shift_is_a_power_of_two() {
    assert_eq!(shift(8), fe_u64(256));
    assert_eq!(to_fq(&shift(255)), Fq::from(2u64).pow([255u64]));
}

#[test]
fn from_limbs_enforces_canonical_range() {
    // the modulus itself is rejected, its predecessor accepted
    assert!(Fe::from_limbs(
        0x992d30ed00000001,
        0x224698fc094cf91b,
        0,
        0x4000000000000000
    )
    .is_none());
    let pm1 = Fe::from_limbs(
        0x992d30ed00000000,
        0x224698fc094cf91b,
        0,
        0x4000000000000000,
    )
    .unwrap();
    assert_eq!(to_fq(&pm1), -Fq::from(1u64));
    assert!(Fe::from_limbs(5, 0, 0, 0).is_some());
}

fn toy_params() -> PoseidonParams {
    // round constants count rounds; the MDS mixes the lanes
    let round_constants: Vec<Vec<Fe>> = (0..55)
        .map(|r| (0..3).map(|c| fe_u64((r * 3 + c + 1) as u64)).collect())
        .collect();
    let mds: Vec<Vec<Fe>> = (0..3)
        .map(|r| (0..3).map(|c| fe_u64((r * 5 + c + 2) as u64)).collect())
        .collect();
    PoseidonParams {
        round_constants,
        mds,
    }
}

fn reference_full_round(params: &PoseidonParams, state: &mut [Fq; 3], r: usize) {
    let sboxed: Vec<Fq> = state.iter().map(|x| x.pow([7u64])).collect();
    let mut next = [Fq::from(0u64); 3];
    for i in 0..3 {
        for j in 0..3 {
            next[i] += to_fq(&params.mds[i][j]) * sboxed[j];
        }
        next[i] += to_fq(&params.round_constants[r][i]);
    }
    *state = next;
}

#[test]
fn full_round_matches_reference() {
    let params = toy_params();
    let state = vec![fe_u64(3), fe_u64(5), fe_u64(9)];
    let out = poseidon_full_round(&params, &state, 17);
    let mut expect = [to_fq(&state[0]), to_fq(&state[1]), to_fq(&state[2])];
    reference_full_round(&params, &mut expect, 17);
    assert_eq!(to_fq(&out[0]), expect[0]);
    assert_eq!(to_fq(&out[1]), expect[1]);
    assert_eq!(to_fq(&out[2]), expect[2]);
}

#[test]
fn poseidon_gadget_applies_all_rounds() {
    let params = toy_params();
    let constants = Constants {
        poseidon: params.clone(),
        endo: fe_u64(3),
        base_x: fe_u64(1),
        base_y: fe_u64(1),
    };
    let mut sys = Cs::Witness(WitnessGenerator::new());
    let a = sys.constant(fe_u64(0));
    let b = sys.constant(fe_u64(0));
    let c = sys.constant(fe_u64(0));
    let before = sys.curr_gate_count();
    let out = sys.poseidon(&constants, vec![a, b, c]);
    assert_eq!(sys.curr_gate_count(), before + 12);

    let mut expect = [Fq::from(0u64); 3];
    for r in 0..55 {
        reference_full_round(&params, &mut expect, r);
    }
    assert_eq!(to_fq(&out[0].val()), expect[0]);
    assert_eq!(to_fq(&out[1].val()), expect[1]);
    assert_eq!(to_fq(&out[2].val()), expect[2]);
}

#[test]
fn endo_ladder_matches_reference() {
    let g = ark_pallas::Affine::generator();
    let e = Fq::from(3u64);
    let scalar_bits = [false, true, false, true, true, false, false, true];
    let mut scalar = 0u64;
    for b in scalar_bits {
        scalar = scalar * 2 + (b as u64);
    }

    // reference ladder over the backend field
    let seg = |xp: Fq, yp: Fq, bs: bool, bsg: bool| -> (Fq, Fq) {
        let xt = g.x;
        let yt = g.y;
        let xq = (Fq::from(1u64) + (e - Fq::from(1u64)) * Fq::from(bs as u64)) * xt;
        let yq = (Fq::from(2u64) * Fq::from(bsg as u64) - Fq::from(1u64)) * yt;
        let s1 = (yq - yp) / (xq - xp);
        let s2 = yp.double() / (xp.double() + xq - s1 * s1) - s1;
        let xr = xq + s2 * s2 - s1 * s1;
        let yr = (xp - xr) * s2 - yp;
        (xr, yr)
    };
    let phipx = g.x * e;
    let add_pts = |x1: Fq, y1: Fq, x2: Fq, y2: Fq| -> (Fq, Fq) {
        let s = (y2 - y1) / (x2 - x1);
        let x3 = s * s - x1 - x2;
        let y3 = s * (x1 - x3) - y1;
        (x3, y3)
    };
    let dbl = |x1: Fq, y1: Fq| -> (Fq, Fq) {
        let s = (x1 * x1 * Fq::from(3u64)) / (y1.double());
        let x3 = s * s - x1 - x1;
        let y3 = s * (x1 - x3) - y1;
        (x3, y3)
    };
    let p1 = add_pts(phipx, g.y, g.x, g.y);
    let (mut accx, mut accy) = dbl(p1.0, p1.1);
    let mut i = 0;
    while i < scalar_bits.len() {
        let r = seg(accx, accy, scalar_bits[i], scalar_bits[i + 1]);
        let s = seg(r.0, r.1, scalar_bits[i + 2], scalar_bits[i + 3]);
        accx = s.0;
        accy = s.1;
        i += 4;
    }

    // the gadget
    let mut sys = Cs::Witness(WitnessGenerator::new());
    let zero = sys.var(Some(fe_u64(0)));
    let tx = sys.constant(from_fq(g.x));
    let ty = sys.constant(from_fq(g.y));
    let s = sys.endo_scalar(8, Some(fe_u64(scalar)));
    let constants = Constants {
        poseidon: toy_params(),
        endo: from_fq(e),
        base_x: from_fq(g.x),
        base_y: from_fq(g.y),
    };
    let before = sys.curr_gate_count();
    let (rx, ry) = sys.endo(zero, &constants, (tx, ty), s, 8);
    assert_eq!(sys.curr_gate_count(), before + 2 + 1 + 2 + 1);
    assert_eq!(to_fq(&rx.val()), accx);
    assert_eq!(to_fq(&ry.val()), accy);
}

#[test]
fn assert_pack_emits_row_per_sixteen_bits() {
    let mut sys = Cs::Witness(WitnessGenerator::new());
    let zero = sys.var(Some(fe_u64(0)));
    let x = sys.constant(fe_u64(0xABCD));
    let bits: Vec<_> = (0..16)
        .map(|i| sys.var(Some(fe_u64((0xABCDu64 >> i) & 1))))
        .collect();
    let before = sys.curr_gate_count();
    sys.assert_pack(zero, x, &bits);
    assert_eq!(sys.curr_gate_count(), before + 1);
    let gen = match sys {
        Cs::Witness(w) => w,
        _ => unreachable!(),
    };
    let row = gen.rows.last().unwrap();
    // entering packed value, asserted cell, accumulator seeds
    assert_eq!(row[0], fe_u64(0));
    assert_eq!(row[1], fe_u64(0xABCD));
    assert_eq!(row[2], fe_u64(2));
    assert_eq!(row[3], fe_u64(2));
    // crumbs, most significant first, and the trailing zero filler
    let crumbs = [2u64, 2, 2, 3, 3, 0, 3, 1];
    for (j, e) in crumbs.iter().enumerate() {
        assert_eq!(row[6 + j], fe_u64(*e));
    }
    assert_eq!(row[14], fe_u64(0));
    // the crumbs rebuild the packed value
    let mut n = 0u64;
    for c in crumbs {
        n = 4 * n + c;
    }
    assert_eq!(n, 0xABCD);

    // circuit mode emits the same count of positional rows
    let mut csys = Cs::Circuit(System::new());
    let czero = csys.var(None);
    let cx = csys.constant(fe_u64(0));
    let cbits: Vec<_> = (0..16).map(|_| csys.var(None)).collect();
    let cbefore = csys.curr_gate_count();
    csys.assert_pack(czero, cx, &cbits);
    assert_eq!(csys.curr_gate_count(), cbefore + 1);
}

#[test]
fn shifts_table_lookup() {
    let shifts: Vec<Fe> = (0..7).map(|i| fe_u64(i as u64 + 1)).collect();
    let map: Vec<Vec<Fe>> = (0..7)
        .map(|c| (0..4).map(|r| fe_u64((c * 10 + r) as u64)).collect())
        .collect();
    let s = Shifts::from_parts(shifts, map);
    assert_eq!(s.shifts().len(), 7);
    assert_eq!(s.cell_to_field(&Wire { row: 3, col: 2 }), fe_u64(23));
}
