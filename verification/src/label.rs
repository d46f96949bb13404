use vstd::prelude::*;

use crate::error::DeapError;

verus! {

/// The two possible labels of one wire from one garbler: the label that
/// encodes the bit 0 and the label that encodes the bit 1. Within one
/// garbler's session every pair differs by the same free-XOR offset.
#[derive(Clone, Copy, Debug, PartialEq, Eq, Structural)]
pub struct LabelPair {
    pub zero: u64,
    pub one: u64,
}

/// The label a pair assigns to a logical bit.
pub open spec fn sel(p: LabelPair, b: bool) -> u64 {
    if b {
        p.one
    } else {
        p.zero
    }
}

/// A garbler's full random encoding of the circuit's input wires: one label
/// pair per input wire, all pairs offset by `delta`. The lowest bit of
/// `delta` is set, so the two labels of a pair always differ in their
/// lowest bit (the pointer bit used to order garbled-table rows).
#[derive(Clone, Debug)]
pub struct FullLabelSet {
    pub delta: u64,
    pub pairs: Vec<LabelPair>,
}

/// Well-formedness of a full label set: the free-XOR offset has its
/// pointer bit set and is constant across all pairs.
pub open spec fn wf_full(f: FullLabelSet) -> bool {
    &&& f.delta & 1 == 1
    &&& forall|i: int|
        0 <= i < f.pairs.len() ==> (#[trigger] f.pairs@[i]).one == f.pairs@[i].zero ^ f.delta
}

/// The active labels a full set assigns to a vector of input bits.
pub open spec fn active_for(f: FullLabelSet, v: Seq<bool>) -> Seq<u64> {
    Seq::new(v.len(), |i: int| sel(f.pairs@[i], v[i]))
}

impl FullLabelSet {
    /// Build a full label set from a free-XOR offset and the zero label of
    /// each input wire; the caller supplies fresh randomness for both.
    /// Rejected when the offset's pointer bit is clear, since the garbled
    /// tables need the two labels of a pair to differ in that bit.
    pub fn new(delta: u64, zeros: Vec<u64>) -> (r: Result<FullLabelSet, DeapError>)
        ensures
            delta & 1 == 1 ==> (r matches Ok(f) && f.delta == delta && f.pairs@.len()
                == zeros@.len() && wf_full(f) && forall|i: int|
                0 <= i < zeros@.len() ==> (#[trigger] f.pairs@[i]).zero == zeros@[i]),
            delta & 1 != 1 ==> (r matches Err(e) && e == DeapError::ConfigMismatch),
    {
        if delta & 1 != 1 {
            return Err(DeapError::ConfigMismatch);
        }
        let mut pairs: Vec<LabelPair> = Vec::new();
        let mut i: usize = 0;
        while i < zeros.len()
            invariant
                i <= zeros@.len(),
                pairs@.len() == i as int,
                forall|j: int|
                    0 <= j < i as int ==> (#[trigger] pairs@[j]) == (LabelPair {
                        zero: zeros@[j],
                        one: zeros@[j] ^ delta,
                    }),
            decreases zeros@.len() - i,
        {
            let z = zeros[i];
            pairs.push(LabelPair { zero: z, one: z ^ delta });
            i = i + 1;
        }
        Ok(FullLabelSet { delta, pairs })
    }

    /// The number of input wires this set covers.
    pub fn len(&self) -> (r: usize)
        ensures
            r == self.pairs@.len(),
    {
        self.pairs.len()
    }
}

/// The label a pair assigns to a logical bit, as executable code.
pub fn sel_label(p: LabelPair, b: bool) -> (r: u64)
    ensures
        r == sel(p, b),
{
    if b {
        p.one
    } else {
        p.zero
    }
}

/// The pointer bits of a pair's two labels are complementary, because the
/// offset's lowest bit is set.
pub proof fn lemma_pair_pointer_bits(p: LabelPair, d: u64)
    requires
        d & 1 == 1,
        p.one == p.zero ^ d,
    ensures
        (p.zero & 1) + (p.one & 1) == 1,
        p.zero & 1 < 2,
        p.one & 1 < 2,
{
    let z = p.zero;
    assert((z & 1) + ((z ^ d) & 1) == 1 && (z & 1) < 2 && ((z ^ d) & 1) < 2) by (bit_vector)
        requires
            d & 1 == 1,
    ;
}

/// With a nonzero offset the two labels of a pair differ, so the active
/// label of a wire never equals that wire's unused label.
pub proof fn lemma_labels_distinct(p: LabelPair, d: u64, b: bool)
    requires
        d & 1 == 1,
        p.one == p.zero ^ d,
    ensures
        sel(p, b) != sel(p, !b),
{
    let z = p.zero;
    assert(d & 1 == 1 ==> z ^ d != z) by (bit_vector);
}

} // verus!
