use vstd::prelude::*;

use crate::circuit::{eval, gate_val, wf_circuit, wire_vals_up_to, Circuit, Gate};
use crate::circuit::lemma_wire_vals_len;
use crate::commit::{pad, pad_of, TAG_LABEL, TAG_ROW};
use crate::error::DeapError;
use crate::label::{active_for, lemma_pair_pointer_bits, sel, wf_full, FullLabelSet, LabelPair};

verus! {

/// A garbled circuit: one encrypted four-row table per AND gate; XOR and
/// INV gates are free and carry no rows.
#[derive(Clone, Debug)]
pub struct GarbledCircuit {
    pub tables: Vec<Vec<u64>>,
}

/// The mathematical view of a garbled circuit's tables.
pub open spec fn deep(tables: Seq<Vec<u64>>) -> Seq<Seq<u64>> {
    Seq::new(tables.len(), |k: int| tables[k]@)
}

/// The row shape that evaluation expects of a garbled circuit.
pub open spec fn wf_gc_shape(tables: Seq<Seq<u64>>, c: Circuit) -> bool {
    &&& tables.len() == c.gates@.len()
    &&& forall|k: int|
        0 <= k < c.gates@.len() ==> (#[trigger] tables[k]).len() == (match c.gates@[k] {
            Gate::And { .. } => 4int,
            _ => 0int,
        })
}

/// The label pair a gate's output wire gets from the pairs of the wires
/// before it: XOR and INV pairs come for free from the free-XOR offset,
/// an AND gate draws a fresh zero label from a per-gate pad.
pub open spec fn gate_pair(g: Gate, prev: Seq<LabelPair>, delta: u64, k: int) -> LabelPair {
    match g {
        Gate::Xor { a, b } => {
            let z = prev[a as int].zero ^ prev[b as int].zero;
            LabelPair { zero: z, one: z ^ delta }
        },
        Gate::And { a, b } => {
            let z = pad_of(TAG_LABEL, k as u64, prev[a as int].zero, prev[b as int].zero);
            LabelPair { zero: z, one: z ^ delta }
        },
        Gate::Inv { a } => LabelPair { zero: prev[a as int].one, one: prev[a as int].zero },
    }
}

/// The pairs of the first `input_len + n` wires under a garbler's label set.
pub open spec fn wire_pairs_up_to(c: Circuit, f: FullLabelSet, n: nat) -> Seq<LabelPair>
    decreases n,
{
    if n == 0 {
        f.pairs@
    } else {
        let prev = wire_pairs_up_to(c, f, (n - 1) as nat);
        prev.push(gate_pair(c.gates@[n - 1], prev, f.delta, n - 1))
    }
}

/// The pairs of all wires under a garbler's label set.
pub open spec fn wire_pairs(c: Circuit, f: FullLabelSet) -> Seq<LabelPair> {
    wire_pairs_up_to(c, f, c.gates@.len())
}

/// The two possible labels of each output wire, in output order.
pub open spec fn output_pairs(c: Circuit, f: FullLabelSet) -> Seq<LabelPair> {
    Seq::new(c.output_wires@.len(), |i: int| wire_pairs(c, f)[c.output_wires@[i] as int])
}

/// The decoding information sent with a garbled circuit: the pointer bit
/// of each output wire's zero label.
pub open spec fn decode_bits_of(c: Circuit, f: FullLabelSet) -> Seq<bool> {
    Seq::new(c.output_wires@.len(), |i: int| (output_pairs(c, f)[i].zero & 1) == 1)
}

/// Which of the four rows two active labels select, by their pointer bits.
pub open spec fn row_index(la: u64, lb: u64) -> int {
    2 * ((la & 1) as int) + ((lb & 1) as int)
}

/// An encrypted row: the output label for this input combination, masked
/// by the pad only the holder of these two active labels can recompute.
pub open spec fn row_val(o: LabelPair, x: bool, y: bool, k: int, la: u64, lb: u64) -> u64 {
    sel(o, x && y) ^ pad_of(TAG_ROW, k as u64, la, lb)
}

/// The four-row table of an AND gate, rows placed by pointer bits.
pub open spec fn and_table(a: LabelPair, b: LabelPair, o: LabelPair, k: int) -> Seq<u64> {
    seq![0u64, 0u64, 0u64, 0u64].update(
        row_index(sel(a, false), sel(b, false)),
        row_val(o, false, false, k, sel(a, false), sel(b, false)),
    ).update(
        row_index(sel(a, false), sel(b, true)),
        row_val(o, false, true, k, sel(a, false), sel(b, true)),
    ).update(
        row_index(sel(a, true), sel(b, false)),
        row_val(o, true, false, k, sel(a, true), sel(b, false)),
    ).update(
        row_index(sel(a, true), sel(b, true)),
        row_val(o, true, true, k, sel(a, true), sel(b, true)),
    )
}

/// The rows a gate contributes to the garbled circuit.
pub open spec fn gate_table(g: Gate, prev: Seq<LabelPair>, delta: u64, k: int) -> Seq<u64> {
    match g {
        Gate::And { a, b } => and_table(
            prev[a as int],
            prev[b as int],
            gate_pair(g, prev, delta, k),
            k,
        ),
        _ => Seq::empty(),
    }
}

/// All tables of the garbled circuit a label set produces.
pub open spec fn garble_tables(c: Circuit, f: FullLabelSet) -> Seq<Seq<u64>> {
    Seq::new(
        c.gates@.len(),
        |k: int| gate_table(c.gates@[k], wire_pairs_up_to(c, f, k as nat), f.delta, k),
    )
}

/// The active label evaluation computes for a gate's output wire.
pub open spec fn eval_gate_label(g: Gate, tbl: Seq<u64>, prev: Seq<u64>, k: int) -> u64 {
    match g {
        Gate::Xor { a, b } => prev[a as int] ^ prev[b as int],
        Gate::Inv { a } => prev[a as int],
        Gate::And { a, b } => {
            let la = prev[a as int];
            let lb = prev[b as int];
            tbl[row_index(la, lb)] ^ pad_of(TAG_ROW, k as u64, la, lb)
        },
    }
}

/// The active labels of the first `input_len + n` wires that evaluation
/// derives from active input labels and the garbled tables.
pub open spec fn eval_wires_up_to(c: Circuit, tables: Seq<Seq<u64>>, active: Seq<u64>, n: nat) -> Seq<
    u64,
>
    decreases n,
{
    if n == 0 {
        active
    } else {
        let prev = eval_wires_up_to(c, tables, active, (n - 1) as nat);
        prev.push(eval_gate_label(c.gates@[n - 1], tables[n - 1], prev, n - 1))
    }
}

/// The active output labels evaluation yields, in output order.
pub open spec fn eval_output_labels(c: Circuit, tables: Seq<Seq<u64>>, active: Seq<u64>) -> Seq<
    u64,
> {
    Seq::new(
        c.output_wires@.len(),
        |i: int| eval_wires_up_to(c, tables, active, c.gates@.len())[c.output_wires@[i] as int],
    )
}

/// Bits decoded from active output labels and decoding information: the
/// label's pointer bit, corrected by the garbler's decode bit.
pub open spec fn decode_spec(ls: Seq<u64>, db: Seq<bool>) -> Seq<bool> {
    Seq::new(ls.len(), |i: int| ((ls[i] & 1) == 1) != db[i])
}

pub proof fn lemma_wire_pairs_len(c: Circuit, f: FullLabelSet, n: nat)
    ensures
        wire_pairs_up_to(c, f, n).len() == f.pairs@.len() + n,
    decreases n,
{
    if n > 0 {
        lemma_wire_pairs_len(c, f, (n - 1) as nat);
    }
}

pub proof fn lemma_eval_wires_len(c: Circuit, tables: Seq<Seq<u64>>, active: Seq<u64>, n: nat)
    ensures
        eval_wires_up_to(c, tables, active, n).len() == active.len() + n,
    decreases n,
{
    if n > 0 {
        lemma_eval_wires_len(c, tables, active, (n - 1) as nat);
    }
}

/// Every wire pair a garbling derives keeps the free-XOR offset.
pub proof fn lemma_wire_pairs_wf(c: Circuit, f: FullLabelSet, n: nat)
    requires
        wf_circuit(c),
        wf_full(f),
        f.pairs@.len() == c.input_len,
        n <= c.gates@.len(),
    ensures
        forall|i: int|
            0 <= i < wire_pairs_up_to(c, f, n).len() ==> (#[trigger] wire_pairs_up_to(c, f, n)[i]).one
                == wire_pairs_up_to(c, f, n)[i].zero ^ f.delta,
    decreases n,
{
    if n > 0 {
        lemma_wire_pairs_wf(c, f, (n - 1) as nat);
        lemma_wire_pairs_len(c, f, (n - 1) as nat);
        let prev = wire_pairs_up_to(c, f, (n - 1) as nat);
        let g = c.gates@[n - 1];
        let p = gate_pair(g, prev, f.delta, n - 1);
        match g {
            Gate::Inv { a } => {
                let z = prev[a as int].zero;
                let d = f.delta;
                assert((z ^ d) ^ d == z) by (bit_vector);
            },
            _ => {},
        }
    }
}

/// A garbling always has the row shape evaluation expects.
pub proof fn lemma_garble_tables_shape(c: Circuit, f: FullLabelSet)
    ensures
        wf_gc_shape(garble_tables(c, f), c),
{
    assert forall|k: int| 0 <= k < c.gates@.len() implies (#[trigger] garble_tables(c, f)[k]).len()
        == (match c.gates@[k] {
        Gate::And { .. } => 4int,
        _ => 0int,
    }) by {
        let g = c.gates@[k];
        let prev = wire_pairs_up_to(c, f, k as nat);
        assert(garble_tables(c, f)[k] == gate_table(g, prev, f.delta, k));
        match g {
            Gate::And { a, b } => {
                let pa = prev[a as int];
                let pb = prev[b as int];
                let x0 = pa.zero;
                let x1 = pa.one;
                let y0 = pb.zero;
                let y1 = pb.one;
                assert(x0 & 1 < 2 && x1 & 1 < 2 && y0 & 1 < 2 && y1 & 1 < 2) by (bit_vector);
                let t = and_table(pa, pb, gate_pair(g, prev, f.delta, k), k);
                assert(t.len() == seq![0u64, 0u64, 0u64, 0u64].len());
                assert(gate_table(g, prev, f.delta, k) == t);
            },
            Gate::Xor { a, b } => {
                assert(gate_table(g, prev, f.delta, k) == Seq::<u64>::empty());
            },
            Gate::Inv { a } => {
                assert(gate_table(g, prev, f.delta, k) == Seq::<u64>::empty());
            },
        }
    }
}

/// Dual-evaluation correctness: evaluating the garbled circuit with the
/// active input labels of input bits `v` yields, on every wire, exactly the
/// label that the garbler's own pair for that wire assigns to the wire's
/// clear value. The evaluator learns one label per wire, never the pair.
pub proof fn lemma_dual_evaluation(c: Circuit, f: FullLabelSet, v: Seq<bool>, n: nat)
    requires
        wf_circuit(c),
        wf_full(f),
        f.pairs@.len() == c.input_len,
        v.len() == c.input_len,
        n <= c.gates@.len(),
    ensures
        forall|w: int|
            0 <= w < c.input_len + n ==> #[trigger] eval_wires_up_to(
                c,
                garble_tables(c, f),
                active_for(f, v),
                n,
            )[w] == sel(wire_pairs_up_to(c, f, n)[w], wire_vals_up_to(c, v, n)[w]),
    decreases n,
{
    let tables = garble_tables(c, f);
    let active = active_for(f, v);
    if n > 0 {
        let kn = (n - 1) as nat;
        lemma_dual_evaluation(c, f, v, kn);
        lemma_wire_pairs_len(c, f, kn);
        lemma_eval_wires_len(c, tables, active, kn);
        lemma_wire_vals_len(c, v, kn);
        lemma_wire_pairs_wf(c, f, kn);
        let k = n - 1;
        let g = c.gates@[k];
        let prev_e = eval_wires_up_to(c, tables, active, kn);
        let prev_p = wire_pairs_up_to(c, f, kn);
        let prev_v = wire_vals_up_to(c, v, kn);
        let d = f.delta;
        assert(tables[k] == gate_table(g, prev_p, d, k));
        assert(eval_gate_label(g, tables[k], prev_e, k) == sel(
            gate_pair(g, prev_p, d, k),
            gate_val(g, prev_v),
        )) by {
            match g {
                Gate::Xor { a, b } => {
                    let pa = prev_p[a as int];
                    let pb = prev_p[b as int];
                    let x = prev_v[a as int];
                    let y = prev_v[b as int];
                    let a0 = pa.zero;
                    let b0 = pb.zero;
                    assert(prev_e[a as int] == sel(pa, x) && prev_e[b as int] == sel(pb, y));
                    assert((a0 ^ d) ^ b0 == (a0 ^ b0) ^ d && a0 ^ (b0 ^ d) == (a0 ^ b0) ^ d && (a0
                        ^ d) ^ (b0 ^ d) == a0 ^ b0) by (bit_vector);
                },
                Gate::Inv { a } => {
                    let pa = prev_p[a as int];
                    let x = prev_v[a as int];
                    assert(prev_e[a as int] == sel(pa, x));
                },
                Gate::And { a, b } => {
                    let pa = prev_p[a as int];
                    let pb = prev_p[b as int];
                    let x = prev_v[a as int];
                    let y = prev_v[b as int];
                    let o = gate_pair(g, prev_p, d, k);
                    lemma_pair_pointer_bits(pa, d);
                    lemma_pair_pointer_bits(pb, d);
                    let la = sel(pa, x);
                    let lb = sel(pb, y);
                    assert(prev_e[a as int] == la && prev_e[b as int] == lb);
                    assert(and_table(pa, pb, o, k)[row_index(la, lb)] == row_val(
                        o,
                        x,
                        y,
                        k,
                        la,
                        lb,
                    ));
                    let p = pad_of(TAG_ROW, k as u64, la, lb);
                    let out = sel(o, x && y);
                    assert((out ^ p) ^ p == out) by (bit_vector);
                },
            }
        };
        assert forall|w: int| 0 <= w < c.input_len + n implies #[trigger] eval_wires_up_to(
            c,
            tables,
            active,
            n,
        )[w] == sel(wire_pairs_up_to(c, f, n)[w], wire_vals_up_to(c, v, n)[w]) by {
            if w < c.input_len + k {
                assert(eval_wires_up_to(c, tables, active, kn)[w] == sel(
                    wire_pairs_up_to(c, f, kn)[w],
                    wire_vals_up_to(c, v, kn)[w],
                ));
            }
        }
    }
}

/// An honest garbling decodes to the circuit's clear evaluation: the
/// active output labels, decoded with the garbler's decode bits, are
/// exactly the circuit's output bits.
pub proof fn lemma_decode_honest(c: Circuit, f: FullLabelSet, v: Seq<bool>)
    requires
        wf_circuit(c),
        wf_full(f),
        f.pairs@.len() == c.input_len,
        v.len() == c.input_len,
    ensures
        eval_output_labels(c, garble_tables(c, f), active_for(f, v)) == Seq::new(
            c.output_wires@.len(),
            |i: int| sel(output_pairs(c, f)[i], eval(c, v)[i]),
        ),
        decode_spec(
            eval_output_labels(c, garble_tables(c, f), active_for(f, v)),
            decode_bits_of(c, f),
        ) == eval(c, v),
{
    let ng = c.gates@.len();
    lemma_dual_evaluation(c, f, v, ng);
    lemma_wire_pairs_len(c, f, ng);
    lemma_wire_pairs_wf(c, f, ng);
    lemma_wire_vals_len(c, v, ng);
    let labels = eval_output_labels(c, garble_tables(c, f), active_for(f, v));
    assert forall|i: int| 0 <= i < c.output_wires@.len() implies #[trigger] labels[i] == sel(
        output_pairs(c, f)[i],
        eval(c, v)[i],
    ) by {
        let w = c.output_wires@[i] as int;
        assert(eval_wires_up_to(c, garble_tables(c, f), active_for(f, v), ng)[w] == sel(
            wire_pairs_up_to(c, f, ng)[w],
            wire_vals_up_to(c, v, ng)[w],
        ));
    }
    assert(labels =~= Seq::new(
        c.output_wires@.len(),
        |i: int| sel(output_pairs(c, f)[i], eval(c, v)[i]),
    ));
    assert forall|i: int| 0 <= i < c.output_wires@.len() implies #[trigger] decode_spec(
        labels,
        decode_bits_of(c, f),
    )[i] == eval(c, v)[i] by {
        let o = output_pairs(c, f)[i];
        let w = c.output_wires@[i] as int;
        assert(o == wire_pairs_up_to(c, f, ng)[w]);
        lemma_pair_pointer_bits(o, f.delta);
    }
    assert(decode_spec(labels, decode_bits_of(c, f)) =~= eval(c, v));
}

/// Garble the circuit under a full label set: derive a pair for every
/// wire, emit the encrypted table of every AND gate, and report the output
/// pairs and their decode bits.
pub fn garble(c: &Circuit, f: &FullLabelSet) -> (r: (GarbledCircuit, Vec<LabelPair>, Vec<bool>))
    requires
        wf_circuit(*c),
        wf_full(*f),
        f.pairs@.len() == c.input_len,
    ensures
        deep(r.0.tables@) == garble_tables(*c, *f),
        wf_gc_shape(deep(r.0.tables@), *c),
        r.1@ == output_pairs(*c, *f),
        r.2@ == decode_bits_of(*c, *f),
{
    let mut pairs: Vec<LabelPair> = Vec::new();
    let mut i: usize = 0;
    while i < f.pairs.len()
        invariant
            i <= f.pairs@.len(),
            pairs@ == f.pairs@.take(i as int),
        decreases f.pairs@.len() - i,
    {
        pairs.push(f.pairs[i]);
        proof {
            assert(f.pairs@.take(i as int + 1) =~= f.pairs@.take(i as int).push(
                f.pairs@[i as int],
            ));
        }
        i = i + 1;
    }
    proof {
        assert(f.pairs@.take(f.pairs@.len() as int) =~= f.pairs@);
    }
    let mut tables: Vec<Vec<u64>> = Vec::new();
    let mut k: usize = 0;
    while k < c.gates.len()
        invariant
            k <= c.gates@.len(),
            wf_circuit(*c),
            wf_full(*f),
            f.pairs@.len() == c.input_len,
            pairs@ == wire_pairs_up_to(*c, *f, k as nat),
            pairs@.len() == c.input_len + k,
            tables@.len() == k,
            forall|j: int| 0 <= j < k as int ==> (#[trigger] tables@[j])@ == garble_tables(*c, *f)[j],
        decreases c.gates@.len() - k,
    {
        let ghost prev = pairs@;
        let g = c.gates[k];
        match g {
            Gate::Xor { a, b } => {
                let z = pairs[a].zero ^ pairs[b].zero;
                pairs.push(LabelPair { zero: z, one: z ^ f.delta });
                tables.push(Vec::new());
                proof {
                    assert(pairs@ == prev.push(gate_pair(g, prev, f.delta, k as int)));
                    assert(tables@[k as int]@ =~= gate_table(g, prev, f.delta, k as int));
                }
            },
            Gate::Inv { a } => {
                let p = pairs[a];
                pairs.push(LabelPair { zero: p.one, one: p.zero });
                tables.push(Vec::new());
                proof {
                    assert(pairs@ == prev.push(gate_pair(g, prev, f.delta, k as int)));
                    assert(tables@[k as int]@ =~= gate_table(g, prev, f.delta, k as int));
                }
            },
            Gate::And { a, b } => {
                let pa = pairs[a];
                let pb = pairs[b];
                let z = pad(TAG_LABEL, k as u64, pa.zero, pb.zero);
                let o = LabelPair { zero: z, one: z ^ f.delta };
                pairs.push(o);
                let mut rows: Vec<u64> = Vec::new();
                rows.push(0);
                rows.push(0);
                rows.push(0);
                rows.push(0);
                proof {
                    assert(rows@ =~= seq![0u64, 0u64, 0u64, 0u64]);
                    let z0 = pa.zero;
                    let z1 = pa.one;
                    let w0 = pb.zero;
                    let w1 = pb.one;
                    assert(z0 & 1 < 2 && z1 & 1 < 2 && w0 & 1 < 2 && w1 & 1 < 2) by (bit_vector);
                }
                let i00 = 2 * ((pa.zero & 1) as usize) + ((pb.zero & 1) as usize);
                let v00 = o.zero ^ pad(TAG_ROW, k as u64, pa.zero, pb.zero);
                rows[i00] = v00;
                let i01 = 2 * ((pa.zero & 1) as usize) + ((pb.one & 1) as usize);
                let v01 = o.zero ^ pad(TAG_ROW, k as u64, pa.zero, pb.one);
                rows[i01] = v01;
                let i10 = 2 * ((pa.one & 1) as usize) + ((pb.zero & 1) as usize);
                let v10 = o.zero ^ pad(TAG_ROW, k as u64, pa.one, pb.zero);
                rows[i10] = v10;
                let i11 = 2 * ((pa.one & 1) as usize) + ((pb.one & 1) as usize);
                let v11 = o.one ^ pad(TAG_ROW, k as u64, pa.one, pb.one);
                rows[i11] = v11;
                proof {
                    assert(rows@ =~= and_table(pa, pb, o, k as int));
                }
                tables.push(rows);
                proof {
                    assert(pairs@ == prev.push(gate_pair(g, prev, f.delta, k as int)));
                    assert(tables@[k as int]@ == gate_table(g, prev, f.delta, k as int));
                }
            },
        }
        proof {
            assert(pairs@ =~= wire_pairs_up_to(*c, *f, k as nat + 1));
        }
        k = k + 1;
    }
    proof {
        lemma_wire_pairs_len(*c, *f, c.gates@.len());
        assert(deep(tables@) =~= garble_tables(*c, *f));
        lemma_garble_tables_shape(*c, *f);
    }
    let mut outs: Vec<LabelPair> = Vec::new();
    let mut dbits: Vec<bool> = Vec::new();
    let mut o: usize = 0;
    while o < c.output_wires.len()
        invariant
            o <= c.output_wires@.len(),
            wf_circuit(*c),
            pairs@ == wire_pairs(*c, *f),
            pairs@.len() == c.input_len + c.gates@.len(),
            outs@.len() == o,
            dbits@.len() == o,
            forall|j: int| 0 <= j < o as int ==> outs@[j] == output_pairs(*c, *f)[j],
            forall|j: int| 0 <= j < o as int ==> dbits@[j] == decode_bits_of(*c, *f)[j],
        decreases c.output_wires@.len() - o,
    {
        let w = c.output_wires[o];
        let p = pairs[w];
        outs.push(p);
        dbits.push((p.zero & 1) == 1);
        o = o + 1;
    }
    proof {
        assert(outs@ =~= output_pairs(*c, *f));
        assert(dbits@ =~= decode_bits_of(*c, *f));
    }
    (GarbledCircuit { tables }, outs, dbits)
}

/// Evaluate a peer's garbled circuit with active input labels, one label
/// per input wire, yielding one active label per output wire. A table of
/// the wrong shape is rejected; nothing is promised of the labels a
/// dishonest garbling yields beyond determinism.
pub fn evaluate(c: &Circuit, gc: &GarbledCircuit, active: &Vec<u64>) -> (r: Result<
    Vec<u64>,
    DeapError,
>)
    requires
        wf_circuit(*c),
    ensures
        active@.len() == c.input_len && wf_gc_shape(deep(gc.tables@), *c) ==> (r matches Ok(out)
            && out@ == eval_output_labels(*c, deep(gc.tables@), active@)),
        !(active@.len() == c.input_len && wf_gc_shape(deep(gc.tables@), *c)) ==> (r matches Err(e)
            && e == DeapError::ChannelError),
{
    if active.len() != c.input_len {
        return Err(DeapError::ChannelError);
    }
    if gc.tables.len() != c.gates.len() {
        return Err(DeapError::ChannelError);
    }
    let mut labels: Vec<u64> = Vec::new();
    let mut i: usize = 0;
    while i < active.len()
        invariant
            i <= active@.len(),
            labels@ == active@.take(i as int),
        decreases active@.len() - i,
    {
        labels.push(active[i]);
        proof {
            assert(active@.take(i as int + 1) =~= active@.take(i as int).push(
                active@[i as int],
            ));
        }
        i = i + 1;
    }
    proof {
        assert(active@.take(active@.len() as int) =~= active@);
    }
    let mut k: usize = 0;
    while k < c.gates.len()
        invariant
            k <= c.gates@.len(),
            wf_circuit(*c),
            active@.len() == c.input_len,
            gc.tables@.len() == c.gates@.len(),
            labels@ == eval_wires_up_to(*c, deep(gc.tables@), active@, k as nat),
            labels@.len() == c.input_len + k,
            forall|j: int|
                0 <= j < k as int ==> (#[trigger] gc.tables@[j])@.len() == (match c.gates@[j] {
                    Gate::And { .. } => 4int,
                    _ => 0int,
                }),
        decreases c.gates@.len() - k,
    {
        let ghost prev = labels@;
        proof {
            assert(deep(gc.tables@)[k as int] == gc.tables@[k as int]@);
        }
        let g = c.gates[k];
        match g {
            Gate::Xor { a, b } => {
                if gc.tables[k].len() != 0 {
                    return Err(DeapError::ChannelError);
                }
                labels.push(labels[a] ^ labels[b]);
            },
            Gate::Inv { a } => {
                if gc.tables[k].len() != 0 {
                    return Err(DeapError::ChannelError);
                }
                let la = labels[a];
                labels.push(la);
            },
            Gate::And { a, b } => {
                if gc.tables[k].len() != 4 {
                    return Err(DeapError::ChannelError);
                }
                let la = labels[a];
                let lb = labels[b];
                proof {
                    assert(la & 1 < 2 && lb & 1 < 2) by (bit_vector);
                }
                let idx = 2 * ((la & 1) as usize) + ((lb & 1) as usize);
                let row = gc.tables[k][idx];
                labels.push(row ^ pad(TAG_ROW, k as u64, la, lb));
            },
        }
        proof {
            assert(labels@ =~= eval_wires_up_to(*c, deep(gc.tables@), active@, k as nat + 1));
        }
        k = k + 1;
    }
    let mut out: Vec<u64> = Vec::new();
    let mut o: usize = 0;
    while o < c.output_wires.len()
        invariant
            o <= c.output_wires@.len(),
            wf_circuit(*c),
            labels@ == eval_wires_up_to(*c, deep(gc.tables@), active@, c.gates@.len()),
            labels@.len() == c.input_len + c.gates@.len(),
            out@.len() == o,
            forall|j: int|
                0 <= j < o as int ==> out@[j] == eval_output_labels(*c, deep(gc.tables@), active@)[j],
        decreases c.output_wires@.len() - o,
    {
        out.push(labels[c.output_wires[o]]);
        o = o + 1;
    }
    proof {
        assert(out@ =~= eval_output_labels(*c, deep(gc.tables@), active@));
    }
    Ok(out)
}

/// Decode active output labels with a garbler's decode bits.
pub fn decode(labels: &Vec<u64>, dbits: &Vec<bool>) -> (r: Result<Vec<bool>, DeapError>)
    ensures
        labels@.len() == dbits@.len() ==> (r matches Ok(out) && out@ == decode_spec(
            labels@,
            dbits@,
        )),
        labels@.len() != dbits@.len() ==> (r matches Err(e) && e == DeapError::ChannelError),
{
    if labels.len() != dbits.len() {
        return Err(DeapError::ChannelError);
    }
    let mut out: Vec<bool> = Vec::new();
    let mut i: usize = 0;
    while i < labels.len()
        invariant
            i <= labels@.len(),
            labels@.len() == dbits@.len(),
            out@.len() == i,
            forall|j: int| 0 <= j < i as int ==> out@[j] == decode_spec(labels@, dbits@)[j],
        decreases labels@.len() - i,
    {
        out.push(((labels[i] & 1) == 1) != dbits[i]);
        i = i + 1;
    }
    proof {
        assert(out@ =~= decode_spec(labels@, dbits@));
    }
    Ok(out)
}

} // verus!
