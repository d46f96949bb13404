use vstd::prelude::*;

use crate::error::DeapError;

verus! {

/// One boolean gate. A circuit's wires are numbered so that wires below
/// `input_len` are the inputs and gate `k` writes wire `input_len + k`,
/// reading only wires below it.
#[derive(Clone, Copy, Debug, PartialEq, Eq, Structural)]
pub enum Gate {
    Xor { a: usize, b: usize },
    And { a: usize, b: usize },
    Inv { a: usize },
}

/// An immutable boolean circuit: ordered input wire groups (by bit width),
/// its gates, and the wires that carry the output bits.
#[derive(Clone, Debug)]
pub struct Circuit {
    pub input_groups: Vec<usize>,
    pub gates: Vec<Gate>,
    pub output_wires: Vec<usize>,
    pub input_len: usize,
}

/// Total bit width of a run of wire groups.
pub open spec fn sum_widths(s: Seq<usize>) -> int
    decreases s.len(),
{
    if s.len() == 0 {
        0
    } else {
        sum_widths(s.drop_last()) + s.last()
    }
}

/// Wire index at which a group's bits start: the widths of the groups
/// before it.
pub open spec fn group_offset(groups: Seq<usize>, g: int) -> int {
    sum_widths(groups.take(g))
}

pub open spec fn gate_reads_below(g: Gate, w: int) -> bool {
    match g {
        Gate::Xor { a, b } => a < w && b < w,
        Gate::And { a, b } => a < w && b < w,
        Gate::Inv { a } => a < w,
    }
}

/// A well-shaped circuit: the cached input width is the sum of the group
/// widths, the wire count fits the machine, every gate reads only wires
/// below the one it writes, and every output wire exists.
pub open spec fn wf_circuit(c: Circuit) -> bool {
    &&& c.input_len == sum_widths(c.input_groups@)
    &&& c.input_len + c.gates@.len() <= usize::MAX
    &&& forall|k: int|
        0 <= k < c.gates@.len() ==> gate_reads_below(#[trigger] c.gates@[k], c.input_len + k)
    &&& forall|i: int|
        0 <= i < c.output_wires@.len() ==> (#[trigger] c.output_wires@[i]) < c.input_len
            + c.gates@.len()
}

/// What one gate computes from the values of the wires before it.
pub open spec fn gate_val(g: Gate, prev: Seq<bool>) -> bool {
    match g {
        Gate::Xor { a, b } => prev[a as int] != prev[b as int],
        Gate::And { a, b } => prev[a as int] && prev[b as int],
        Gate::Inv { a } => !prev[a as int],
    }
}

/// The values of the first `input_len + n` wires on input bits `v`.
pub open spec fn wire_vals_up_to(c: Circuit, v: Seq<bool>, n: nat) -> Seq<bool>
    decreases n,
{
    if n == 0 {
        v
    } else {
        let prev = wire_vals_up_to(c, v, (n - 1) as nat);
        prev.push(gate_val(c.gates@[n - 1], prev))
    }
}

/// The values of all wires on input bits `v`.
pub open spec fn wire_vals(c: Circuit, v: Seq<bool>) -> Seq<bool> {
    wire_vals_up_to(c, v, c.gates@.len())
}

/// The circuit's output bits on input bits `v`: the values of its output
/// wires, in order.
pub open spec fn eval(c: Circuit, v: Seq<bool>) -> Seq<bool> {
    Seq::new(c.output_wires@.len(), |i: int| wire_vals(c, v)[c.output_wires@[i] as int])
}

pub proof fn lemma_wire_vals_len(c: Circuit, v: Seq<bool>, n: nat)
    ensures
        wire_vals_up_to(c, v, n).len() == v.len() + n,
    decreases n,
{
    if n > 0 {
        lemma_wire_vals_len(c, v, (n - 1) as nat);
    }
}

/// The shape checks the constructor performs, as one statement.
pub open spec fn valid_shape(groups: Seq<usize>, gates: Seq<Gate>, outs: Seq<usize>) -> bool {
    &&& sum_widths(groups) + gates.len() <= usize::MAX
    &&& forall|k: int|
        0 <= k < gates.len() ==> gate_reads_below(#[trigger] gates[k], sum_widths(groups) + k)
    &&& forall|i: int| 0 <= i < outs.len() ==> (#[trigger] outs[i]) < sum_widths(groups) + gates.len()
}

pub proof fn lemma_sum_take_step(s: Seq<usize>, i: int)
    requires
        0 <= i < s.len(),
    ensures
        sum_widths(s.take(i + 1)) == sum_widths(s.take(i)) + s[i],
{
    assert(s.take(i + 1).drop_last() =~= s.take(i));
    assert(s.take(i + 1).last() == s[i]);
}

/// Prefix sums of widths grow monotonically.
pub proof fn lemma_sum_take_mono(s: Seq<usize>, a: int, b: int)
    requires
        0 <= a <= b <= s.len(),
    ensures
        sum_widths(s.take(a)) <= sum_widths(s.take(b)),
    decreases b - a,
{
    if a < b {
        lemma_sum_take_mono(s, a, b - 1);
        lemma_sum_take_step(s, b - 1);
    }
}

pub proof fn lemma_sum_nonneg(s: Seq<usize>)
    ensures
        sum_widths(s) >= 0,
    decreases s.len(),
{
    if s.len() > 0 {
        lemma_sum_nonneg(s.drop_last());
    }
}

/// Two circuit values with the same topology.
pub open spec fn same_circuit(a: Circuit, b: Circuit) -> bool {
    &&& a.input_groups@ == b.input_groups@
    &&& a.gates@ == b.gates@
    &&& a.output_wires@ == b.output_wires@
    &&& a.input_len == b.input_len
}

impl Circuit {
    /// Number of input wires.
    pub fn input_len(&self) -> (r: usize)
        ensures
            r == self.input_len,
    {
        self.input_len
    }

    /// Number of output wires.
    pub fn output_len(&self) -> (r: usize)
        ensures
            r == self.output_wires@.len(),
    {
        self.output_wires.len()
    }


    /// An owned copy of the topology, so both roles of a session can hold
    /// the shared circuit.
    pub fn duplicate(&self) -> (r: Circuit)
        ensures
            same_circuit(r, *self),
            wf_circuit(*self) ==> wf_circuit(r),
    {
        let mut groups: Vec<usize> = Vec::new();
        let mut i: usize = 0;
        while i < self.input_groups.len()
            invariant
                i <= self.input_groups@.len(),
                groups@ == self.input_groups@.take(i as int),
            decreases self.input_groups@.len() - i,
        {
            groups.push(self.input_groups[i]);
            proof {
                assert(self.input_groups@.take(i as int + 1) =~= self.input_groups@.take(
                    i as int,
                ).push(self.input_groups@[i as int]));
            }
            i = i + 1;
        }
        let mut gates: Vec<Gate> = Vec::new();
        let mut k: usize = 0;
        while k < self.gates.len()
            invariant
                k <= self.gates@.len(),
                gates@ == self.gates@.take(k as int),
            decreases self.gates@.len() - k,
        {
            gates.push(self.gates[k]);
            proof {
                assert(self.gates@.take(k as int + 1) =~= self.gates@.take(k as int).push(
                    self.gates@[k as int],
                ));
            }
            k = k + 1;
        }
        let mut outs: Vec<usize> = Vec::new();
        let mut o: usize = 0;
        while o < self.output_wires.len()
            invariant
                o <= self.output_wires@.len(),
                outs@ == self.output_wires@.take(o as int),
            decreases self.output_wires@.len() - o,
        {
            outs.push(self.output_wires[o]);
            proof {
                assert(self.output_wires@.take(o as int + 1) =~= self.output_wires@.take(
                    o as int,
                ).push(self.output_wires@[o as int]));
            }
            o = o + 1;
        }
        proof {
            assert(self.input_groups@.take(self.input_groups@.len() as int)
                =~= self.input_groups@);
            assert(self.gates@.take(self.gates@.len() as int) =~= self.gates@);
            assert(self.output_wires@.take(self.output_wires@.len() as int)
                =~= self.output_wires@);
        }
        Circuit { input_groups: groups, gates, output_wires: outs, input_len: self.input_len }
    }

    /// Build a circuit, checking its shape; a circuit whose groups, gates
    /// and outputs do not fit together is rejected before any use.
    pub fn new(input_groups: Vec<usize>, gates: Vec<Gate>, output_wires: Vec<usize>) -> (r: Result<
        Circuit,
        DeapError,
    >)
        ensures
            valid_shape(input_groups@, gates@, output_wires@) ==> (r matches Ok(c)
                && c.input_groups@ == input_groups@ && c.gates@ == gates@ && c.output_wires@
                == output_wires@ && wf_circuit(c)),
            !valid_shape(input_groups@, gates@, output_wires@) ==> (r matches Err(e) && e
                == DeapError::ConfigMismatch),
    {
        let mut total: usize = 0;
        let mut i: usize = 0;
        while i < input_groups.len()
            invariant
                i <= input_groups@.len(),
                total == sum_widths(input_groups@.take(i as int)),
            decreases input_groups@.len() - i,
        {
            proof {
                lemma_sum_take_step(input_groups@, i as int);
            }
            let w = input_groups[i];
            if w > usize::MAX - total {
                proof {
                    lemma_partial_sum_exceeds(input_groups@, i as int + 1, gates@, output_wires@);
                }
                return Err(DeapError::ConfigMismatch);
            }
            total = total + w;
            i = i + 1;
        }
        proof {
            assert(input_groups@.take(i as int) =~= input_groups@);
        }
        if gates.len() > usize::MAX - total {
            return Err(DeapError::ConfigMismatch);
        }
        let mut k: usize = 0;
        while k < gates.len()
            invariant
                k <= gates@.len(),
                total == sum_widths(input_groups@),
                total + gates@.len() <= usize::MAX,
                forall|j: int|
                    0 <= j < k as int ==> gate_reads_below(#[trigger] gates@[j], total + j),
            decreases gates@.len() - k,
        {
            let ok = match gates[k] {
                Gate::Xor { a, b } => a < total + k && b < total + k,
                Gate::And { a, b } => a < total + k && b < total + k,
                Gate::Inv { a } => a < total + k,
            };
            if !ok {
                return Err(DeapError::ConfigMismatch);
            }
            k = k + 1;
        }
        let wire_count = total + gates.len();
        let mut o: usize = 0;
        while o < output_wires.len()
            invariant
                o <= output_wires@.len(),
                wire_count == sum_widths(input_groups@) + gates@.len(),
                forall|j: int| 0 <= j < o as int ==> (#[trigger] output_wires@[j]) < wire_count,
            decreases output_wires@.len() - o,
        {
            if output_wires[o] >= wire_count {
                return Err(DeapError::ConfigMismatch);
            }
            o = o + 1;
        }
        Ok(Circuit { input_groups, gates, output_wires, input_len: total })
    }

    /// Evaluate the circuit in the clear: the reference semantics the
    /// protocol's output is held to.
    pub fn evaluate_bits(&self, inputs: &Vec<bool>) -> (r: Result<Vec<bool>, DeapError>)
        requires
            wf_circuit(*self),
        ensures
            inputs@.len() == self.input_len ==> (r matches Ok(out) && out@ == eval(
                *self,
                inputs@,
            )),
            inputs@.len() != self.input_len ==> (r matches Err(e) && e
                == DeapError::ConfigMismatch),
    {
        if inputs.len() != self.input_len {
            return Err(DeapError::ConfigMismatch);
        }
        let mut vals: Vec<bool> = inputs.clone();
        let mut k: usize = 0;
        proof {
            assert(vals@ =~= wire_vals_up_to(*self, inputs@, 0));
        }
        while k < self.gates.len()
            invariant
                k <= self.gates@.len(),
                wf_circuit(*self),
                inputs@.len() == self.input_len,
                vals@ == wire_vals_up_to(*self, inputs@, k as nat),
                vals@.len() == self.input_len + k,
            decreases self.gates@.len() - k,
        {
            proof {
                lemma_wire_vals_len(*self, inputs@, k as nat);
            }
            let out = match self.gates[k] {
                Gate::Xor { a, b } => vals[a] != vals[b],
                Gate::And { a, b } => vals[a] && vals[b],
                Gate::Inv { a } => !vals[a],
            };
            vals.push(out);
            k = k + 1;
        }
        let mut out: Vec<bool> = Vec::new();
        let mut o: usize = 0;
        proof {
            lemma_wire_vals_len(*self, inputs@, self.gates@.len());
        }
        while o < self.output_wires.len()
            invariant
                o <= self.output_wires@.len(),
                wf_circuit(*self),
                vals@ == wire_vals(*self, inputs@),
                vals@.len() == self.input_len + self.gates@.len(),
                out@.len() == o,
                forall|j: int|
                    0 <= j < o as int ==> out@[j] == wire_vals(*self, inputs@)[(
                    #[trigger] self.output_wires@[j]) as int],
            decreases self.output_wires@.len() - o,
        {
            out.push(vals[self.output_wires[o]]);
            o = o + 1;
        }
        proof {
            assert(out@ =~= eval(*self, inputs@));
        }
        Ok(out)
    }
}

proof fn lemma_partial_sum_exceeds(
    groups: Seq<usize>,
    i: int,
    gates: Seq<Gate>,
    outs: Seq<usize>,
)
    requires
        0 <= i <= groups.len(),
        sum_widths(groups.take(i)) > usize::MAX,
    ensures
        !valid_shape(groups, gates, outs),
    decreases groups.len() - i,
{
    if i == groups.len() {
        assert(groups.take(i) =~= groups);
    } else {
        lemma_sum_take_step(groups, i);
        lemma_partial_sum_exceeds(groups, i + 1, gates, outs);
    }
}

} // verus!
