//! Turning collected gate records into circuit gates with
//! copy-constraint wiring.
//!
//! Cells holding the same variable form one equivalence class; the
//! compiler threads each class into a cycle, stored in-band in the gates'
//! `wires` arrays: every cell points to the previous cell of its class,
//! and the first cell of a class points back to the last.

use vstd::prelude::*;
use crate::COLUMNS;
use crate::types::CircuitGate;
use crate::types::GateSpec;
use crate::types::Wire;
use crate::writer::System;

verus! {

/// The variable index held by flattened cell `k` of the records,
/// in row-major order.
pub open spec fn cell_idx(gs: Seq<GateSpec>, k: int) -> nat {
    gs[k / 15].row@[k % 15].index as nat
}

/// The position of the last occurrence of variable `v` strictly before
/// cell `k`, or `-1` when there is none.
pub open spec fn prev_occ(gs: Seq<GateSpec>, v: nat, k: int) -> int
    decreases k,
{
    if k <= 0 {
        -1
    } else if cell_idx(gs, k - 1) == v {
        k - 1
    } else {
        prev_occ(gs, v, k - 1)
    }
}

/// The position of the first occurrence of variable `v` strictly before
/// cell `k`, or `-1` when there is none.
pub open spec fn first_occ(gs: Seq<GateSpec>, v: nat, k: int) -> int
    decreases k,
{
    if k <= 0 {
        -1
    } else if first_occ(gs, v, k - 1) >= 0 {
        first_occ(gs, v, k - 1)
    } else if cell_idx(gs, k - 1) == v {
        k - 1
    } else {
        -1
    }
}

/// The cell position `k`, as a row and a column.
pub open spec fn cell_wire(k: int) -> Wire {
    Wire { row: (k / 15) as usize, col: (k % 15) as usize }
}

/// The wiring target of cell `k` in the compiled circuit: the previous
/// occurrence of its variable, and, on the first occurrence, the last.
pub open spec fn wire_target(gs: Seq<GateSpec>, k: int) -> Wire {
    let v = cell_idx(gs, k);
    if prev_occ(gs, v, k) >= 0 {
        cell_wire(prev_occ(gs, v, k))
    } else {
        cell_wire(prev_occ(gs, v, 15 * gs.len() as int))
    }
}

/// The provisional wiring of cell `k` after the first pass: the previous
/// occurrence of its variable, or a self-loop on a first occurrence.
pub open spec fn phase_a_val(gs: Seq<GateSpec>, k: int) -> Wire {
    if prev_occ(gs, cell_idx(gs, k), k) >= 0 {
        cell_wire(prev_occ(gs, cell_idx(gs, k), k))
    } else {
        cell_wire(k)
    }
}

/// A previous occurrence is a cell position below the probe.
proof fn lemma_prev_occ_range(gs: Seq<GateSpec>, v: nat, k: int)
    requires
        k >= 0,
    ensures
        -1 <= prev_occ(gs, v, k) < k,
        prev_occ(gs, v, k) >= 0 ==> cell_idx(gs, prev_occ(gs, v, k)) == v,
    decreases k,
{
    if k > 0 && cell_idx(gs, k - 1) != v {
        lemma_prev_occ_range(gs, v, k - 1);
    }
}

/// Probing further back never uncovers a later occurrence.
proof fn lemma_prev_occ_monotone(gs: Seq<GateSpec>, v: nat, k1: int, k2: int)
    requires
        0 <= k1 <= k2,
    ensures
        prev_occ(gs, v, k1) <= prev_occ(gs, v, k2),
    decreases k2 - k1,
{
    if k1 < k2 {
        lemma_prev_occ_monotone(gs, v, k1, k2 - 1);
        lemma_prev_occ_range(gs, v, k2 - 1);
    }
}

/// A first occurrence stays fixed once found.
proof fn lemma_first_occ_range(gs: Seq<GateSpec>, v: nat, k: int)
    requires
        k >= 0,
    ensures
        -1 <= first_occ(gs, v, k) < k,
        first_occ(gs, v, k) >= 0 ==> cell_idx(gs, first_occ(gs, v, k)) == v && prev_occ(
            gs,
            v,
            first_occ(gs, v, k),
        ) == -1,
        first_occ(gs, v, k) == -1 ==> prev_occ(gs, v, k) == -1,
    decreases k,
{
    if k > 0 {
        lemma_first_occ_range(gs, v, k - 1);
    }
}

impl System {
    /// Compiles the collected gate records into circuit gates whose
    /// `wires` arrays thread every variable's cells into one cycle.
    pub fn gates(&self) -> (out: Vec<CircuitGate>)
        requires
            self.wf(),
        ensures
            out@.len() == self.gates@.len(),
            forall|r: int|
                0 <= r < out@.len() ==> (#[trigger] out@[r]).typ == self.gates@[r].typ
                    && out@[r].coeffs@ == self.gates@[r].coeffs@ && out@[r].wires@.len() == COLUMNS,
            forall|r: int, c: int|
                0 <= r < out@.len() && 0 <= c < COLUMNS ==> (#[trigger] out@[r].wires@[c])
                    == wire_target(self.gates@, 15 * r + c),
    {
        let ghost gs = self.gates@;
        let n = self.gates.len();
        let mut flat: Vec<Wire> = Vec::new();
        let mut first: Vec<usize> = Vec::new();
        let mut recent: Vec<usize> = Vec::new();
        let mut seen: Vec<bool> = Vec::new();
        // Phase one: wire every cell to its previous occurrence, leaving a
        // temporary self-loop on each first occurrence, while the maps
        // track each variable's first and most recent cell.
        let mut r: usize = 0;
        while r < n
            invariant
                0 <= r <= n,
                n == gs.len(),
                gs == self.gates@,
                self.wf(),
                flat@.len() == 15 * r,
                first@.len() == seen@.len(),
                recent@.len() == seen@.len(),
                forall|u: nat|
                    seen@.len() <= u ==> #[trigger] prev_occ(gs, u, 15 * r as int) == -1,
                forall|v: int|
                    0 <= v < seen@.len() ==> ((#[trigger] seen@[v]) <==> prev_occ(
                        gs,
                        v as nat,
                        15 * r as int,
                    ) >= 0),
                forall|v: int|
                    0 <= v < seen@.len() && seen@[v] ==> (#[trigger] recent@[v]) as int == prev_occ(
                        gs,
                        v as nat,
                        15 * r as int,
                    ) && first@[v] as int == first_occ(gs, v as nat, 15 * r as int),
                forall|k: int| 0 <= k < 15 * r ==> (#[trigger] flat@[k]) == phase_a_val(gs, k),
            decreases n - r,
        {
            let mut c: usize = 0;
            while c < COLUMNS
                invariant
                    0 <= c <= COLUMNS,
                    0 <= r < n,
                    n == gs.len(),
                    gs == self.gates@,
                    self.wf(),
                    flat@.len() == 15 * r + c,
                    first@.len() == seen@.len(),
                    recent@.len() == seen@.len(),
                    forall|u: nat|
                        seen@.len() <= u ==> #[trigger] prev_occ(gs, u, 15 * r + c) == -1,
                    forall|v: int|
                        0 <= v < seen@.len() ==> ((#[trigger] seen@[v]) <==> prev_occ(
                            gs,
                            v as nat,
                            15 * r + c,
                        ) >= 0),
                    forall|v: int|
                        0 <= v < seen@.len() && seen@[v] ==> (#[trigger] recent@[v]) as int
                            == prev_occ(gs, v as nat, 15 * r + c) && first@[v] as int == first_occ(
                            gs,
                            v as nat,
                            15 * r + c,
                        ),
                    forall|k: int|
                        0 <= k < 15 * r + c ==> (#[trigger] flat@[k]) == phase_a_val(gs, k),
                decreases COLUMNS - c,
            {
                let ghost k: int = 15 * r + c;
                let v = self.gates[r].row[c].index;
                proof {
                    assert(cell_idx(gs, k) == v as nat);
                }
                // grow the maps up to v
                while seen.len() <= v
                    invariant
                        first@.len() == seen@.len(),
                        recent@.len() == seen@.len(),
                        forall|u: nat|
                            seen@.len() <= u ==> #[trigger] prev_occ(gs, u, k) == -1,
                        forall|u: int|
                            0 <= u < seen@.len() ==> ((#[trigger] seen@[u]) <==> prev_occ(
                                gs,
                                u as nat,
                                k,
                            ) >= 0),
                        forall|u: int|
                            0 <= u < seen@.len() && seen@[u] ==> (#[trigger] recent@[u]) as int
                                == prev_occ(gs, u as nat, k) && first@[u] as int == first_occ(
                                gs,
                                u as nat,
                                k,
                            ),
                    decreases v + 1 - seen@.len(),
                {
                    let ghost sp = seen@;
                    let ghost fp = first@;
                    let ghost rp = recent@;
                    seen.push(false);
                    first.push(0);
                    recent.push(0);
                    proof {
                        assert forall|u: int| 0 <= u < seen@.len() implies ((#[trigger] seen@[u])
                            <==> prev_occ(gs, u as nat, k) >= 0) by {
                            if u < sp.len() {
                                assert(seen@[u] == sp[u]);
                            } else {
                                assert(!seen@[u]);
                            }
                        }
                        assert forall|u: int| 0 <= u < seen@.len() && seen@[u] implies (
                        #[trigger] recent@[u]) as int == prev_occ(gs, u as nat, k) && first@[u]
                            as int == first_occ(gs, u as nat, k) by {
                            assert(u < sp.len());
                            assert(recent@[u] == rp[u] && first@[u] == fp[u] && seen@[u] == sp[u]);
                        }
                    }
                }
                let ghost seen1 = seen@;
                let ghost first1 = first@;
                let ghost recent1 = recent@;
                let kk = flat.len();
                if seen[v] {
                    let pk = recent[v];
                    proof {
                        lemma_prev_occ_range(gs, v as nat, k);
                    }
                    flat.push(Wire { row: pk / 15, col: pk % 15 });
                    recent.set(v, kk);
                } else {
                    flat.push(Wire { row: r, col: c });
                    seen.set(v, true);
                    first.set(v, kk);
                    recent.set(v, kk);
                }
                c = c + 1;
                proof {
                    assert forall|u: int| 0 <= u < seen@.len() implies ((#[trigger] seen@[u])
                        <==> prev_occ(gs, u as nat, 15 * (r as int) + c) >= 0) by {
                        assert(prev_occ(gs, u as nat, k + 1) == (if cell_idx(gs, k) == u as nat {
                            k
                        } else {
                            prev_occ(gs, u as nat, k)
                        }));
                    }
                    assert forall|u: nat| seen@.len() <= u implies #[trigger] prev_occ(
                        gs,
                        u,
                        15 * (r as int) + c,
                    ) == -1 by {
                        assert(prev_occ(gs, u, k + 1) == (if cell_idx(gs, k) == u {
                            k
                        } else {
                            prev_occ(gs, u, k)
                        }));
                    }
                    assert forall|u: int| 0 <= u < seen@.len() && seen@[u] implies (
                    #[trigger] recent@[u]) as int == prev_occ(gs, u as nat, 15 * (r as int) + c)
                        && first@[u] as int == first_occ(gs, u as nat, 15 * (r as int) + c) by {
                        assert(prev_occ(gs, u as nat, k + 1) == (if cell_idx(gs, k) == u as nat {
                            k
                        } else {
                            prev_occ(gs, u as nat, k)
                        }));
                        assert(first_occ(gs, u as nat, k + 1) == (if first_occ(gs, u as nat, k)
                            >= 0 {
                            first_occ(gs, u as nat, k)
                        } else if cell_idx(gs, k) == u as nat {
                            k
                        } else {
                            -1
                        }));
                        if u != v as int {
                            assert(seen@[u] == seen1[u] && recent@[u] == recent1[u] && first@[u]
                                == first1[u]);
                        }
                        if u == v as int {
                            assert(recent@[u] as int == k);
                            if seen1[u] {
                                // previously seen: its first cell is unchanged
                                lemma_first_occ_range(gs, u as nat, k);
                            } else {
                                // newly seen: this cell is its first occurrence
                                if first_occ(gs, u as nat, k) >= 0 {
                                    lemma_first_occ_range(gs, u as nat, k);
                                    lemma_occ_implies_prev(gs, u as nat, first_occ(gs, u as nat, k), k);
                                }
                            }
                        } else {
                            if first_occ(gs, u as nat, k) == -1 {
                                lemma_first_occ_range(gs, u as nat, k);
                            }
                        }
                    }
                }
            }
            r = r + 1;
        }
        // Phase two: close each variable's cycle by pointing its first
        // cell at its most recent one.
        let ghost flat_a = flat@;
        let nv = seen.len();
        let mut v: usize = 0;
        while v < nv
            invariant
                0 <= v <= nv,
                nv == seen@.len(),
                n == gs.len(),
                gs == self.gates@,
                first@.len() == nv,
                recent@.len() == nv,
                flat@.len() == 15 * n,
                flat_a.len() == 15 * n,
                forall|u: nat|
                    nv <= u ==> #[trigger] prev_occ(gs, u, 15 * n as int) == -1,
                forall|u: int|
                    0 <= u < nv ==> ((#[trigger] seen@[u]) <==> prev_occ(gs, u as nat, 15 * n as int)
                        >= 0),
                forall|u: int|
                    0 <= u < nv && seen@[u] ==> (#[trigger] recent@[u]) as int == prev_occ(
                        gs,
                        u as nat,
                        15 * n as int,
                    ) && first@[u] as int == first_occ(gs, u as nat, 15 * n as int),
                forall|k: int|
                    0 <= k < 15 * n ==> (#[trigger] flat@[k]) == (if cell_idx(gs, k) < v {
                        wire_target(gs, k)
                    } else {
                        phase_a_val(gs, k)
                    }),
            decreases nv - v,
        {
            if seen[v] {
                let fk = first[v];
                let lk = recent[v];
                proof {
                    lemma_first_occ_range(gs, v as nat, 15 * n as int);
                    lemma_prev_occ_range(gs, v as nat, 15 * n as int);
                    assert(first@[v as int] as int == first_occ(gs, v as nat, 15 * n as int));
                    assert(recent@[v as int] as int == prev_occ(gs, v as nat, 15 * n as int));
                }
                let ghost fb = flat@;
                flat.set(fk, Wire { row: lk / 15, col: lk % 15 });
                proof {
                    let fi = first_occ(gs, v as nat, 15 * n as int);
                    let li = prev_occ(gs, v as nat, 15 * n as int);
                    assert(cell_wire(li) == (Wire { row: lk / 15, col: lk % 15 }));
                    assert forall|k: int| 0 <= k < 15 * n implies (#[trigger] flat@[k]) == (
                    if cell_idx(gs, k) < v + 1 {
                        wire_target(gs, k)
                    } else {
                        phase_a_val(gs, k)
                    }) by {
                        if k == fi {
                            assert(flat@[k] == cell_wire(li));
                            assert(cell_idx(gs, k) == v as nat);
                            assert(prev_occ(gs, cell_idx(gs, k), k) == -1);
                            assert(wire_target(gs, k) == cell_wire(li));
                        } else {
                            assert(flat@[k] == fb[k]);
                            if cell_idx(gs, k) == v as nat {
                                lemma_prev_occ_range(gs, cell_idx(gs, k), k);
                                if prev_occ(gs, cell_idx(gs, k), k) == -1 {
                                    lemma_first_is_unique(gs, v as nat, k, 15 * n as int);
                                    assert(false);
                                }
                                assert(phase_a_val(gs, k) == wire_target(gs, k));
                            }
                        }
                    }
                }
            } else {
                proof {
                    assert forall|k: int| 0 <= k < 15 * n implies cell_idx(gs, k) != v as nat by {
                        if cell_idx(gs, k) == v as nat {
                            lemma_occ_implies_prev(gs, v as nat, k, 15 * n as int);
                        }
                    }
                }
            }
            v = v + 1;
        }
        proof {
            assert forall|k: int| 0 <= k < 15 * n implies #[trigger] flat@[k] == wire_target(
                gs,
                k,
            ) by {
                lemma_occ_implies_prev(gs, cell_idx(gs, k), k, 15 * n as int);
                assert(cell_idx(gs, k) < nv);
            }
        }
        // Phase three: assemble the gates around the computed wiring.
        let mut out: Vec<CircuitGate> = Vec::new();
        let flen = flat.len();
        let mut k2: usize = 0;
        let mut r2: usize = 0;
        while r2 < n
            invariant
                0 <= r2 <= n,
                n == gs.len(),
                gs == self.gates@,
                self.wf(),
                flat@.len() == 15 * n,
                forall|k: int|
                    0 <= k < 15 * n ==> (#[trigger] flat@[k]) == wire_target(gs, k),
                out@.len() == r2,
                forall|r3: int|
                    0 <= r3 < r2 ==> (#[trigger] out@[r3]).typ == gs[r3].typ && out@[r3].coeffs@
                        == gs[r3].coeffs@ && out@[r3].wires@.len() == COLUMNS,
                forall|r3: int, c3: int|
                    0 <= r3 < r2 && 0 <= c3 < COLUMNS ==> (#[trigger] out@[r3].wires@[c3])
                        == flat@[15 * r3 + c3],
                k2 == 15 * r2,
                flen == flat@.len(),
            decreases n - r2,
        {
            let mut wires: Vec<Wire> = Vec::new();
            let mut c2: usize = 0;
            while c2 < COLUMNS
                invariant
                    0 <= c2 <= COLUMNS,
                    r2 < n,
                    flat@.len() == 15 * n,
                    wires@.len() == c2,
                    k2 == 15 * r2 + c2,
                    flen == flat@.len(),
                    forall|c3: int|
                        0 <= c3 < c2 ==> (#[trigger] wires@[c3]) == flat@[15 * r2 + c3],
                decreases COLUMNS - c2,
            {
                wires.push(flat[k2]);
                k2 = k2 + 1;
                c2 = c2 + 1;
            }
            let mut coeffs: Vec<crate::field::Fe> = Vec::new();
            let mut c4: usize = 0;
            while c4 < self.gates[r2].coeffs.len()
                invariant
                    r2 < n,
                    n == gs.len(),
                    gs == self.gates@,
                    0 <= c4 <= gs[r2 as int].coeffs@.len(),
                    coeffs@.len() == c4,
                    forall|c5: int|
                        0 <= c5 < c4 ==> (#[trigger] coeffs@[c5]) == gs[r2 as int].coeffs@[c5],
                decreases gs[r2 as int].coeffs@.len() - c4,
            {
                coeffs.push(self.gates[r2].coeffs[c4]);
                c4 = c4 + 1;
            }
            proof {
                assert(coeffs@ =~= gs[r2 as int].coeffs@);
            }
            out.push(CircuitGate { typ: self.gates[r2].typ, wires, coeffs });
            r2 = r2 + 1;
        }
        out
    }
}

/// Any occurrence below the horizon makes the last-occurrence probe find
/// something.
proof fn lemma_occ_implies_prev(gs: Seq<GateSpec>, v: nat, k: int, n: int)
    requires
        0 <= k < n,
        cell_idx(gs, k) == v,
    ensures
        prev_occ(gs, v, n) >= 0,
    decreases n,
{
    if k < n - 1 {
        lemma_occ_implies_prev(gs, v, k, n - 1);
        lemma_prev_occ_range(gs, v, n - 1);
        assert(prev_occ(gs, v, n) >= prev_occ(gs, v, n - 1)) by {
            lemma_prev_occ_monotone(gs, v, n - 1, n);
        }
    }
}

/// A variable has at most one cell without a previous occurrence.
proof fn lemma_first_is_unique(gs: Seq<GateSpec>, v: nat, k: int, n: int)
    requires
        0 <= k < n,
        cell_idx(gs, k) == v,
        prev_occ(gs, v, k) == -1,
    ensures
        first_occ(gs, v, n) == k,
    decreases n,
{
    if n == k + 1 {
        lemma_first_occ_range(gs, v, k);
        assert(first_occ(gs, v, k) == -1) by {
            if first_occ(gs, v, k) >= 0 {
                lemma_first_occ_range(gs, v, k);
                lemma_occ_implies_prev(gs, v, first_occ(gs, v, k), k);
            }
        }
    } else {
        lemma_first_is_unique(gs, v, k, n - 1);
    }
}

} // verus!
