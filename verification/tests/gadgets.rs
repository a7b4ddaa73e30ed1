use ark_ec::AffineRepr;
use ark_ec::CurveGroup;
use ark_ff::PrimeField;
use rand::SeedableRng;
use circuit_construction::field::Fe;
use circuit_construction::types::{GateType, Var};
use circuit_construction::writer::{Cs, System, WitnessGenerator};

type Fq = ark_pallas::Fq;

fn to_fq(f: &Fe) -> Fq {
    Fq::from_bigint(ark_ff::BigInt::new([f.l0, f.l1, f.l2, f.l3])).unwrap()
}

fn from_fq(x: Fq) -> Fe {
    let l = x.into_bigint().0;
    Fe {
        l0: l[0],
        l1: l[1],
        l2: l[2],
        l3: l[3],
    }
}

fn fe_u64(x: u64) -> Fe {
    Fe {
        l0: x,
        l1: 0,
        l2: 0,
        l3: 0,
    }
}

fn circuit() -> Cs {
    Cs::Circuit(System::new())
}

fn witness() -> Cs {
    Cs::Witness(WitnessGenerator::new())
}

fn value(sys: &Cs, x: u64) -> Option<Fe> {
    if sys.witness_mode() {
        Some(fe_u64(x))
    } else {
        None
    }
}

/// Checks every generic row of the compiled circuit against the witness,
/// and the copy constraints of the wiring.
fn check_circuit<F: Fn(&mut Cs)>(f: F) {
    let mut csys = circuit();
    f(&mut csys);
    let sys = match csys {
        Cs::Circuit(s) => s,
        _ => unreachable!(),
    };
    let gates = sys.gates();

    let mut wsys = witness();
    f(&mut wsys);
    let gen = match wsys {
        Cs::Witness(w) => w,
        _ => unreachable!(),
    };
    let cols = gen.columns();

    assert_eq!(gates.len(), cols[0].len());

    for (r, g) in gates.iter().enumerate() {
        // gate constraint, for the generic double gate
        if g.typ == GateType::Generic && g.coeffs.len() == 10 {
            let w0 = to_fq(&gen.rows[r][0]);
            let w1 = to_fq(&gen.rows[r][1]);
            let w2 = to_fq(&gen.rows[r][2]);
            let c: Vec<Fq> = g.coeffs.iter().map(to_fq).collect();
            let e = c[0] * w0 + c[1] * w1 + c[2] * w2 + c[3] * w0 * w1 + c[4];
            assert_eq!(e, Fq::from(0u64), "generic row {} not satisfied", r);
        }
        // copy constraints
        for (cidx, wire) in g.wires.iter().enumerate() {
            assert_eq!(
                gen.rows[r][cidx], gen.rows[wire.row][wire.col],
                "wire mismatch at ({}, {})",
                r, cidx
            );
        }
    }
}

fn and_circuit_template(sys: &mut Cs, b1: bool, b2: bool) -> Var {
    sys.constant(Fe::one());
    let x1 = sys.var(value(sys, b1 as u64));
    let x2 = sys.var(value(sys, b2 as u64));
    sys.and(x1, x2)
}

#[test]
fn test_verify() {
    // the conjunction row is only satisfiable when both bits agree with
    // their half-sum, as they do here
    check_circuit(|sys| {
        and_circuit_template(sys, true, true);
    });
}

#[test]
fn test_true_true_result_var() {
    let mut sys = witness();
    let result = and_circuit_template(&mut sys, true, true);
    assert_eq!(result.val(), fe_u64(1));
}

#[test]
fn test_false_true_result_var() {
    let mut sys = witness();
    let result = and_circuit_template(&mut sys, false, true);
    assert_eq!(result.val(), fe_u64(0));
}

#[test]
fn test_false_false_result_var() {
    let mut sys = witness();
    let result = and_circuit_template(&mut sys, false, false);
    assert_eq!(result.val(), fe_u64(0));
}

fn or_circuit_template(sys: &mut Cs, b1: bool, b2: bool) -> Var {
    sys.constant(Fe::one());
    let x1 = sys.var(value(sys, b1 as u64));
    let x2 = sys.var(value(sys, b2 as u64));
    sys.or(x1, x2)
}

#[test]
fn lib_test_verify() {
    check_circuit(|sys| {
        or_circuit_template(sys, true, true);
    });
}

#[test]
fn lib_test_true_true_result_var() {
    let mut sys = witness();
    let result = or_circuit_template(&mut sys, true, true);
    assert_eq!(result.val(), fe_u64(1));
}

#[test]
fn lib_test_false_true_result_var() {
    let mut sys = witness();
    let result = or_circuit_template(&mut sys, false, true);
    assert_eq!(result.val(), fe_u64(1));
}

#[test]
fn lib_test_false_false_result_var() {
    let mut sys = witness();
    let result = or_circuit_template(&mut sys, false, false);
    assert_eq!(result.val(), fe_u64(0));
}

fn sub_circuit_template(sys: &mut Cs, a1: Fe, a2: Fe) -> Var {
    let x1 = sys.constant(a1);
    let x2 = sys.constant(a2);
    sys.sub(x1, x2)
}

#[test]
fn test_sub_verify() {
    check_circuit(|sys| {
        sub_circuit_template(sys, Fe::one(), Fe::one());
    });
}

#[test]
fn test_sub_result_var() {
    let mut sys = witness();
    let result = sub_circuit_template(&mut sys, fe_u64(0), fe_u64(2));
    assert_eq!(result.val(), from_fq(-Fq::from(2u64)));
}

fn equals_circuit_template(sys: &mut Cs, a1: Fe, a2: Fe) -> Var {
    let x1 = sys.constant(a1);
    let x2 = sys.constant(a2);
    sys.equals(x1, x2)
}

#[test]
fn test_equals_verify() {
    check_circuit(|sys| {
        equals_circuit_template(sys, Fe::one(), Fe::one());
    });
}

#[test]
fn equals_indicator_values() {
    let mut sys = witness();
    let r = equals_circuit_template(&mut sys, fe_u64(5), fe_u64(5));
    assert_eq!(r.val(), fe_u64(1));
    let mut sys2 = witness();
    let r2 = equals_circuit_template(&mut sys2, fe_u64(5), fe_u64(6));
    assert_eq!(r2.val(), fe_u64(0));
    // five rows beyond the two constant inputs
    assert_eq!(sys2.curr_gate_count(), 2 + 5);
}

#[test]
fn sub_of_add_returns_first_summand() {
    let mut sys = witness();
    let a = sys.constant(from_fq(Fq::from(123456789u64)));
    let b = sys.constant(from_fq(Fq::from(987654321u64)));
    let s = sys.add(a, b);
    let r = sys.sub(s, b);
    assert_eq!(r.val(), a.val());
}

#[test]
fn add_zero_is_identity() {
    let mut sys = witness();
    let a = sys.constant(from_fq(Fq::from(424242u64)));
    let z = sys.constant(fe_u64(0));
    let r = sys.add(a, z);
    assert_eq!(r.val(), a.val());
}

#[test]
fn cond_select_picks_by_bit() {
    for (bit, expect_t) in [(1u64, true), (0u64, false)] {
        let mut sys = witness();
        let b = sys.constant(fe_u64(bit));
        let t = sys.constant(fe_u64(77));
        let f = sys.constant(fe_u64(33));
        let r = sys.cond_select(b, t, f);
        let expected = if expect_t { fe_u64(77) } else { fe_u64(33) };
        assert_eq!(r.val(), expected);
    }
    check_circuit(|sys| {
        let b = sys.constant(fe_u64(1));
        let t = sys.constant(fe_u64(77));
        let f = sys.constant(fe_u64(33));
        sys.cond_select(b, t, f);
    });
}

#[test]
fn constant_round_trip() {
    check_circuit(|sys| {
        let v = sys.constant(fe_u64(7));
        let w = sys.constant(fe_u64(7));
        sys.assert_eq(v, w);
    });
    let mut sys = witness();
    let v = sys.constant(fe_u64(7));
    let w = sys.constant(fe_u64(7));
    sys.assert_eq(v, w);
    assert_eq!(sys.curr_gate_count(), 3);
}

#[test]
fn add_group_matches_curve_doubling() {
    let g = ark_pallas::Affine::generator();
    let g2 = (g + g).into_affine();

    let mut sys = witness();
    let zero = sys.var(Some(fe_u64(0)));
    let gx = sys.constant(from_fq(g.x));
    let gy = sys.constant(from_fq(g.y));
    let (x3, y3) = sys.add_group(zero, (gx, gy), (gx, gy));
    assert_eq!(to_fq(&x3.val()), g2.x);
    assert_eq!(to_fq(&y3.val()), g2.y);
    // the same-abscissa cell holds one
    let gen = match sys {
        Cs::Witness(w) => w,
        _ => unreachable!(),
    };
    let last = gen.rows.last().unwrap();
    assert_eq!(last[7], fe_u64(1));
}

#[test]
fn add_group_matches_chord_sum() {
    let g = ark_pallas::Affine::generator();
    let g2 = (g + g).into_affine();
    let g3 = (g + g2).into_affine();

    let mut sys = witness();
    let zero = sys.var(Some(fe_u64(0)));
    let ax = sys.constant(from_fq(g.x));
    let ay = sys.constant(from_fq(g.y));
    let bx = sys.constant(from_fq(g2.x));
    let by = sys.constant(from_fq(g2.y));
    let (x3, y3) = sys.add_group(zero, (ax, ay), (bx, by));
    assert_eq!(to_fq(&x3.val()), g3.x);
    assert_eq!(to_fq(&y3.val()), g3.y);
}

#[test]
fn zk_appends_three_rows() {
    let mut rng = rand::rngs::StdRng::seed_from_u64(42);
    let mut sys = witness();
    sys.zk(&mut rng);
    assert_eq!(sys.curr_gate_count(), 3);
    let mut csys = circuit();
    let mut rng2 = rand::rngs::StdRng::seed_from_u64(42);
    csys.zk(&mut rng2);
    assert_eq!(csys.curr_gate_count(), 3);
}

#[test]
fn scalar_mul_reads_ladder_columns() {
    let cols: Vec<Vec<Fe>> = (0..15)
        .map(|j| (0..102).map(|k| fe_u64((j * 1000 + k) as u64)).collect())
        .collect();
    let mut sys = witness();
    let zero = sys.var(Some(fe_u64(0)));
    let tx = sys.constant(fe_u64(1));
    let ty = sys.constant(fe_u64(1));
    let s = sys.scalar(255, Some(fe_u64(9)));
    let before = sys.curr_gate_count();
    let (rx, ry) = sys.scalar_mul(zero, (tx, ty), s, &cols);
    assert_eq!(sys.curr_gate_count(), before + 103);
    assert_eq!(rx.val(), fe_u64(101));
    assert_eq!(ry.val(), fe_u64(1101));
}

#[test]
fn compiled_wiring_forms_cycles() {
    let mut csys = circuit();
    let v = csys.constant(fe_u64(5));
    let w = csys.constant(fe_u64(5));
    csys.assert_eq(v, w);
    let sys = match csys {
        Cs::Circuit(s) => s,
        _ => unreachable!(),
    };
    let gates = sys.gates();
    // v occupies cell (0,0) and cell (2,0); w occupies (1,0) and (2,1);
    // each class is a two-cycle
    assert_eq!(gates[0].wires[0].row, 2);
    assert_eq!(gates[0].wires[0].col, 0);
    assert_eq!(gates[2].wires[0].row, 0);
    assert_eq!(gates[2].wires[0].col, 0);
    assert_eq!(gates[1].wires[0].row, 2);
    assert_eq!(gates[1].wires[0].col, 1);
    assert_eq!(gates[2].wires[1].row, 1);
    assert_eq!(gates[2].wires[1].col, 0);
    // a cell used once loops to itself
    assert_eq!(gates[0].wires[3].row, 0);
    assert_eq!(gates[0].wires[3].col, 3);
}

#[test]
fn public_inputs_seed_both_backends() {
    let (csys, cvars) = Cs::circuit_with_public(2);
    assert_eq!(csys.curr_gate_count(), 2);
    assert_eq!(cvars.len(), 2);
    let vals = vec![fe_u64(11), fe_u64(22)];
    let (wsys, wvars) = Cs::witness_with_public(&vals);
    assert_eq!(wsys.curr_gate_count(), 2);
    assert_eq!(wvars[0].val(), fe_u64(11));
    assert_eq!(wvars[1].val(), fe_u64(22));
    let gen = match wsys {
        Cs::Witness(w) => w,
        _ => unreachable!(),
    };
    assert_eq!(gen.rows[0][0], fe_u64(11));
    assert_eq!(gen.rows[0][1], fe_u64(0));
    assert_eq!(gen.rows[1][0], fe_u64(22));
}
