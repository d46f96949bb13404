use vstd::prelude::*;

use crate::circuit::{
    group_offset, lemma_sum_nonneg, lemma_sum_take_mono, lemma_sum_take_step, wf_circuit,
    Circuit,
};
use crate::commit::{
    bits_bytes, bytes_eq, commit_bytes, commit_of, encode_bits, encode_labels, encode_pairs,
    labels_bytes, pairs_bytes,
};
use crate::error::DeapError;
use crate::garble::{
    decode, decode_bits_of, decode_spec, deep, evaluate, eval_output_labels, garble,
    garble_tables, output_pairs, wf_gc_shape, GarbledCircuit,
};
use crate::label::{sel, sel_label, wf_full, FullLabelSet, LabelPair};

verus! {

/// Where a session stands. Each send or receive of the protocol's one
/// round trip per phase is its own step, so the four protocol states
/// split into send and receive halves; `Aborted` is terminal.
#[derive(Clone, Copy, Debug, PartialEq, Eq, Structural)]
pub enum Phase {
    Initialized,
    SetupSent,
    Setup,
    GarbleSent,
    Executed,
    Committed,
    Revealed,
    Verified,
    Aborted,
}

/// A value assigned to one input wire group.
#[derive(Clone, Debug)]
pub struct InputValue {
    pub group: usize,
    pub bits: Vec<bool>,
}

/// Labels a party sends in the clear from its own label set: one slot per
/// input wire, zero where the wire is the peer's (those travel by OT).
#[derive(Debug)]
pub struct SetupMsg {
    pub labels: Vec<u64>,
}

/// The label pairs a party offers to the oblivious-transfer sender for the
/// peer's wires, in wire order. Handing these to OT never reveals them to
/// the peer; the peer learns one label per wire.
#[derive(Debug)]
pub struct OtOffer {
    pub pairs: Vec<LabelPair>,
}

/// The garbled-circuit exchange: tables, decoding information and the
/// binding commitment over the garbler's output label pairs.
#[derive(Debug)]
pub struct GarbleMsg {
    pub gc: GarbledCircuit,
    pub decode_bits: Vec<bool>,
    pub pair_commit: Vec<u8>,
}

/// A party's commitment to its equality-check value, sent before any
/// reveal so neither party can choose its reveal after seeing the other's.
#[derive(Debug)]
pub struct CheckCommit {
    pub digest: Vec<u8>,
}

/// A party's equality-check reveal: its decoded output bits, the active
/// output labels it computed from the peer's garbling, and the commitment
/// nonce. It carries active labels only, never the unused label of a pair.
#[derive(Debug)]
pub struct CheckReveal {
    pub bits: Vec<bool>,
    pub labels: Vec<u64>,
    pub nonce: u64,
}

/// How many of the first `n` flags are set.
pub open spec fn count_true(mask: Seq<bool>, n: int) -> int
    decreases n,
{
    if n <= 0 {
        0
    } else {
        count_true(mask, n - 1) + if mask[n - 1] {
            1int
        } else {
            0int
        }
    }
}

/// The elements of `s` at the flagged positions among the first `n`.
pub open spec fn filtered<T>(mask: Seq<bool>, s: Seq<T>, n: int) -> Seq<T>
    decreases n,
{
    if n <= 0 {
        Seq::empty()
    } else {
        let prev = filtered(mask, s, n - 1);
        if mask[n - 1] {
            prev.push(s[n - 1])
        } else {
            prev
        }
    }
}

pub proof fn lemma_filtered_len<T>(mask: Seq<bool>, s: Seq<T>, n: int)
    ensures
        filtered(mask, s, n).len() == count_true(mask, n),
    decreases n,
{
    if n > 0 {
        lemma_filtered_len(mask, s, n - 1);
    }
}

/// A flagged element sits in the filtered sequence at the index given by
/// the count of flags before it.
pub proof fn lemma_filtered_index<T>(mask: Seq<bool>, s: Seq<T>, n: int, w: int)
    requires
        0 <= w < n,
        mask[w],
    ensures
        0 <= count_true(mask, w) < filtered(mask, s, n).len(),
        filtered(mask, s, n)[count_true(mask, w)] == s[w],
    decreases n,
{
    lemma_filtered_len(mask, s, n);
    lemma_count_true_bounds(mask, w);
    lemma_count_true_mono(mask, w, n);
    if w == n - 1 {
        lemma_filtered_len(mask, s, n - 1);
    } else {
        lemma_filtered_index(mask, s, n - 1, w);
    }
}

pub proof fn lemma_count_true_bounds(mask: Seq<bool>, n: int)
    ensures
        0 <= count_true(mask, n) <= if n >= 0 {
            n
        } else {
            0
        },
    decreases n,
{
    if n > 0 {
        lemma_count_true_bounds(mask, n - 1);
    }
}

pub proof fn lemma_count_true_mono(mask: Seq<bool>, n: int, m: int)
    requires
        0 <= n < m,
        mask[n],
    ensures
        count_true(mask, n) < count_true(mask, m),
    decreases m - n,
{
    if m > n + 1 {
        lemma_count_true_mono(mask, n, m - 1);
    }
}

/// The clear-label message a party builds from its own label set: the
/// active label for every wire whose bit the party knows, zero for the
/// peer's wires.
pub open spec fn setup_labels(f: FullLabelSet, is_peer: Seq<bool>, bits: Seq<bool>, n: int) -> Seq<
    u64,
> {
    Seq::new(
        n as nat,
        |w: int|
            if is_peer[w] {
                0u64
            } else {
                sel(f.pairs@[w], bits[w])
            },
    )
}

/// The active labels a party assembles to evaluate the peer's circuit:
/// oblivious-transfer results for its own wires, the peer's clear labels
/// for the rest.
pub open spec fn assemble(is_own: Seq<bool>, msg: Seq<u64>, ot: Seq<u64>, n: int) -> Seq<u64> {
    Seq::new(
        n as nat,
        |w: int|
            if is_own[w] {
                ot[count_true(is_own, w)]
            } else {
                msg[w]
            },
    )
}

/// The session's combined input bits, one party's view: its own bits where
/// it owns the wire, the peer's where the peer does, and the shared public
/// bits elsewhere.
pub open spec fn combine(
    is_own_s: Seq<bool>,
    bits_s: Seq<bool>,
    is_own_p: Seq<bool>,
    bits_p: Seq<bool>,
    n: int,
) -> Seq<bool> {
    Seq::new(
        n as nat,
        |w: int|
            if is_own_s[w] {
                bits_s[w]
            } else if is_own_p[w] {
                bits_p[w]
            } else {
                bits_s[w]
            },
    )
}

/// The byte payload a party's equality-check commitment covers: its
/// decoded bits, its evaluated active output labels, and both parties'
/// output-pair commitments (its own first), binding the check to this
/// session's garblings.
pub open spec fn check_payload(
    bits: Seq<bool>,
    labels: Seq<u64>,
    own_commit: Seq<u8>,
    peer_commit: Seq<u8>,
) -> Seq<u8> {
    bits_bytes(bits) + labels_bytes(labels) + own_commit + peer_commit
}

/// When a party accepts the peer's equality-check reveal: the reveal must
/// open the peer's earlier commitment, report the same decoded bits the
/// party holds, and carry, for every output wire, exactly the label the
/// party's own garbling assigns to that decoded bit.
pub open spec fn check_accepts(
    reveal_bits: Seq<bool>,
    reveal_labels: Seq<u64>,
    reveal_nonce: u64,
    peer_digest: Seq<u8>,
    peer_pair_commit: Seq<u8>,
    own_pair_commit: Seq<u8>,
    decoded: Seq<bool>,
    own_pairs: Seq<LabelPair>,
) -> bool {
    &&& peer_digest == commit_of(
        check_payload(reveal_bits, reveal_labels, peer_pair_commit, own_pair_commit),
        reveal_nonce,
    )
    &&& reveal_bits == decoded
    &&& reveal_labels.len() == own_pairs.len()
    &&& reveal_bits.len() == own_pairs.len()
    &&& forall|i: int|
        0 <= i < own_pairs.len() ==> #[trigger] reveal_labels[i] == sel(
            own_pairs[i],
            reveal_bits[i],
        )
}

/// The ideal oblivious transfer used by in-process sessions: for each
/// offered pair, the receiver's choice bit picks one label. A deployed
/// session delegates this to an external OT subsystem, which additionally
/// hides the choice bits from the sender and the unused labels from the
/// receiver.
pub fn ot_transfer(offer: &OtOffer, choices: &Vec<bool>) -> (r: Result<Vec<u64>, DeapError>)
    ensures
        offer.pairs@.len() == choices@.len() ==> (r matches Ok(out) && out@ == Seq::new(
            choices@.len(),
            |i: int| sel(offer.pairs@[i], choices@[i]),
        )),
        offer.pairs@.len() != choices@.len() ==> (r matches Err(e) && e
            == DeapError::TransferError),
{
    if offer.pairs.len() != choices.len() {
        return Err(DeapError::TransferError);
    }
    let mut out: Vec<u64> = Vec::new();
    let mut i: usize = 0;
    while i < choices.len()
        invariant
            i <= choices@.len(),
            offer.pairs@.len() == choices@.len(),
            out@.len() == i,
            forall|j: int|
                0 <= j < i as int ==> out@[j] == sel(offer.pairs@[j], choices@[j]),
        decreases choices@.len() - i,
    {
        let p = offer.pairs[i];
        out.push(if choices[i] { p.one } else { p.zero });
        i = i + 1;
    }
    proof {
        assert(out@ =~= Seq::new(choices@.len(), |i: int| sel(offer.pairs@[i], choices@[i])));
    }
    Ok(out)
}

/// Copy a bit vector.
pub fn copy_bits(src: &Vec<bool>) -> (r: Vec<bool>)
    ensures
        r@ == src@,
{
    let mut out: Vec<bool> = Vec::new();
    let mut i: usize = 0;
    while i < src.len()
        invariant
            i <= src@.len(),
            out@ == src@.take(i as int),
        decreases src@.len() - i,
    {
        out.push(src[i]);
        proof {
            assert(src@.take(i as int + 1) =~= src@.take(i as int).push(src@[i as int]));
        }
        i = i + 1;
    }
    proof {
        assert(src@.take(src@.len() as int) =~= src@);
    }
    out
}

/// Copy a label vector.
pub fn copy_labels(src: &Vec<u64>) -> (r: Vec<u64>)
    ensures
        r@ == src@,
{
    let mut out: Vec<u64> = Vec::new();
    let mut i: usize = 0;
    while i < src.len()
        invariant
            i <= src@.len(),
            out@ == src@.take(i as int),
        decreases src@.len() - i,
    {
        out.push(src[i]);
        proof {
            assert(src@.take(i as int + 1) =~= src@.take(i as int).push(src@[i as int]));
        }
        i = i + 1;
    }
    proof {
        assert(src@.take(src@.len() as int) =~= src@);
    }
    out
}

/// Copy a byte vector.
pub fn copy_bytes(src: &Vec<u8>) -> (r: Vec<u8>)
    ensures
        r@ == src@,
{
    let mut out: Vec<u8> = Vec::new();
    let mut i: usize = 0;
    while i < src.len()
        invariant
            i <= src@.len(),
            out@ == src@.take(i as int),
        decreases src@.len() - i,
    {
        out.push(src[i]);
        proof {
            assert(src@.take(i as int + 1) =~= src@.take(i as int).push(src@[i as int]));
        }
        i = i + 1;
    }
    proof {
        assert(src@.take(src@.len() as int) =~= src@);
    }
    out
}

/// Compare two bit vectors with an exact contract.
pub fn bools_eq(a: &Vec<bool>, b: &Vec<bool>) -> (r: bool)
    ensures
        r <==> a@ == b@,
{
    if a.len() != b.len() {
        proof {
            assert(a@.len() != b@.len());
        }
        return false;
    }
    let mut i: usize = 0;
    while i < a.len()
        invariant
            i <= a@.len(),
            a@.len() == b@.len(),
            forall|j: int| 0 <= j < i as int ==> a@[j] == b@[j],
        decreases a@.len() - i,
    {
        if a[i] != b[i] {
            return false;
        }
        i = i + 1;
    }
    proof {
        assert(a@ =~= b@);
    }
    true
}

/// Build the equality-check payload bytes.
pub fn make_check_payload(bits: &Vec<bool>, labels: &Vec<u64>, own_commit: &Vec<u8>, peer_commit: &Vec<
    u8,
>) -> (r: Vec<u8>)
    ensures
        r@ == check_payload(bits@, labels@, own_commit@, peer_commit@),
{
    let mut out = encode_bits(bits);
    let enc = encode_labels(labels);
    let mut i: usize = 0;
    while i < enc.len()
        invariant
            i <= enc@.len(),
            out@ == bits_bytes(bits@) + enc@.take(i as int),
        decreases enc@.len() - i,
    {
        out.push(enc[i]);
        proof {
            assert(out@ =~= bits_bytes(bits@) + enc@.take(i as int + 1));
        }
        i = i + 1;
    }
    proof {
        assert(out@ =~= bits_bytes(bits@) + labels_bytes(labels@));
    }
    let ghost mid = out@;
    let mut i2: usize = 0;
    while i2 < own_commit.len()
        invariant
            i2 <= own_commit@.len(),
            out@ == mid + own_commit@.take(i2 as int),
        decreases own_commit@.len() - i2,
    {
        out.push(own_commit[i2]);
        proof {
            assert(out@ =~= mid + own_commit@.take(i2 as int + 1));
        }
        i2 = i2 + 1;
    }
    proof {
        assert(out@ =~= mid + own_commit@);
    }
    let ghost mid2 = out@;
    let mut i3: usize = 0;
    while i3 < peer_commit.len()
        invariant
            i3 <= peer_commit@.len(),
            out@ == mid2 + peer_commit@.take(i3 as int),
        decreases peer_commit@.len() - i3,
    {
        out.push(peer_commit[i3]);
        proof {
            assert(out@ =~= mid2 + peer_commit@.take(i3 as int + 1));
        }
        i3 = i3 + 1;
    }
    proof {
        assert(out@ =~= check_payload(bits@, labels@, own_commit@, peer_commit@));
    }
    out
}



/// Occurrences of a group index in a list of group indices.
pub open spec fn occ(s: Seq<usize>, g: int) -> int
    decreases s.len(),
{
    if s.len() == 0 {
        0
    } else {
        occ(s.drop_last(), g) + if s.last() == g {
            1int
        } else {
            0int
        }
    }
}

/// Occurrences of a group index among assigned input values.
pub open spec fn occ_vals(s: Seq<InputValue>, g: int) -> int
    decreases s.len(),
{
    if s.len() == 0 {
        0
    } else {
        occ_vals(s.drop_last(), g) + if s.last().group == g {
            1int
        } else {
            0int
        }
    }
}

/// Every assigned value names an existing group and carries exactly that
/// group's bit width.
pub open spec fn vals_well_sized(c: Circuit, s: Seq<InputValue>) -> bool {
    forall|i: int|
        0 <= i < s.len() ==> (#[trigger] s[i]).group < c.input_groups@.len() && s[i].bits@.len()
            == c.input_groups@[s[i].group as int]
}

/// Every listed group index names an existing group.
pub open spec fn groups_in_range(c: Circuit, s: Seq<usize>) -> bool {
    forall|i: int| 0 <= i < s.len() ==> (#[trigger] s[i]) < c.input_groups@.len()
}

/// A valid input declaration: well-sized values, known groups, and every
/// input group of the circuit claimed by exactly one of the four lists.
pub open spec fn valid_decl(
    c: Circuit,
    own: Seq<InputValue>,
    peer: Seq<usize>,
    clear: Seq<InputValue>,
    blind: Seq<usize>,
) -> bool {
    &&& vals_well_sized(c, own)
    &&& vals_well_sized(c, clear)
    &&& groups_in_range(c, peer)
    &&& groups_in_range(c, blind)
    &&& forall|g: int|
        0 <= g < c.input_groups@.len() ==> occ_vals(own, g) + occ(peer, g) + occ_vals(clear, g)
            + occ(blind, g) == 1
}

/// Input setup can proceed: the declaration is valid and the label set
/// covers exactly the circuit's input wires.
pub open spec fn setup_ok(
    c: Circuit,
    full: FullLabelSet,
    own: Seq<InputValue>,
    peer: Seq<usize>,
    clear: Seq<InputValue>,
    blind: Seq<usize>,
) -> bool {
    valid_decl(c, own, peer, clear, blind) && full.pairs@.len() == c.input_len
}

/// The wires of a party-owned group carry the party's bits and the own
/// flag.
pub open spec fn marked_own(
    groups: Seq<usize>,
    is_own: Seq<bool>,
    is_peer: Seq<bool>,
    bits: Seq<bool>,
    v: InputValue,
) -> bool {
    forall|j: int|
        0 <= j < v.bits@.len() ==> (#[trigger] is_own[group_offset(groups, v.group as int) + j])
            == true && is_peer[group_offset(groups, v.group as int) + j] == false && bits[
            group_offset(groups, v.group as int) + j
        ] == v.bits@[j]
}

/// The wires of a cleartext group carry the public bits and no role flag.
pub open spec fn marked_clear(
    groups: Seq<usize>,
    is_own: Seq<bool>,
    is_peer: Seq<bool>,
    bits: Seq<bool>,
    v: InputValue,
) -> bool {
    forall|j: int|
        0 <= j < v.bits@.len() ==> (#[trigger] is_own[group_offset(groups, v.group as int) + j])
            == false && is_peer[group_offset(groups, v.group as int) + j] == false && bits[
            group_offset(groups, v.group as int) + j
        ] == v.bits@[j]
}

/// The wires of a peer-owned group carry the peer flag and no bit.
pub open spec fn marked_peer(
    groups: Seq<usize>,
    is_own: Seq<bool>,
    is_peer: Seq<bool>,
    bits: Seq<bool>,
    g: int,
) -> bool {
    forall|j: int|
        0 <= j < groups[g] ==> is_own[group_offset(groups, g) + j] == false && (#[trigger] is_peer[
            group_offset(groups, g) + j
        ]) == true && bits[group_offset(groups, g) + j] == false
}

/// The wires of a blind group get no value: flags clear, bits fixed false.
pub open spec fn marked_blind(
    groups: Seq<usize>,
    is_own: Seq<bool>,
    is_peer: Seq<bool>,
    bits: Seq<bool>,
    g: int,
) -> bool {
    forall|j: int|
        0 <= j < groups[g] ==> is_own[group_offset(groups, g) + j] == false && (#[trigger] is_peer[
            group_offset(groups, g) + j
        ]) == false && bits[group_offset(groups, g) + j] == false
}

proof fn lemma_occ_take_step(s: Seq<usize>, g: int, i: int)
    requires
        0 <= i < s.len(),
    ensures
        occ(s.take(i + 1), g) == occ(s.take(i), g) + if s[i] == g {
            1int
        } else {
            0int
        },
{
    assert(s.take(i + 1).drop_last() =~= s.take(i));
}

proof fn lemma_occ_vals_take_step(s: Seq<InputValue>, g: int, i: int)
    requires
        0 <= i < s.len(),
    ensures
        occ_vals(s.take(i + 1), g) == occ_vals(s.take(i), g) + if s[i].group == g {
            1int
        } else {
            0int
        },
{
    assert(s.take(i + 1).drop_last() =~= s.take(i));
}

proof fn lemma_occ_take_mono(s: Seq<usize>, g: int, a: int, b: int)
    requires
        0 <= a <= b <= s.len(),
    ensures
        occ(s.take(a), g) <= occ(s.take(b), g),
    decreases b - a,
{
    if a < b {
        lemma_occ_take_mono(s, g, a, b - 1);
        lemma_occ_take_step(s, g, b - 1);
    }
}

proof fn lemma_occ_vals_take_mono(s: Seq<InputValue>, g: int, a: int, b: int)
    requires
        0 <= a <= b <= s.len(),
    ensures
        occ_vals(s.take(a), g) <= occ_vals(s.take(b), g),
    decreases b - a,
{
    if a < b {
        lemma_occ_vals_take_mono(s, g, a, b - 1);
        lemma_occ_vals_take_step(s, g, b - 1);
    }
}

/// An entry that names group `g` puts at least one occurrence beyond any
/// prefix ending before it.
proof fn lemma_occ_vals_at(s: Seq<InputValue>, g: int, i: int)
    requires
        0 <= i < s.len(),
        s[i].group == g,
    ensures
        occ_vals(s, g) >= 1 + occ_vals(s.take(i), g),
{
    lemma_occ_vals_take_step(s, g, i);
    lemma_occ_vals_take_mono(s, g, i + 1, s.len() as int);
    assert(s.take(s.len() as int) =~= s);
}

/// With at most one occurrence overall, two entries naming the same group
/// are the same entry.
proof fn lemma_occ_vals_unique(s: Seq<InputValue>, g: int, i1: int, i2: int)
    requires
        0 <= i1 < i2 < s.len(),
        s[i1].group == g,
        s[i2].group == g,
    ensures
        occ_vals(s, g) >= 2,
{
    lemma_occ_vals_at(s, g, i2);
    lemma_occ_vals_at(s.take(i2), g, i1);
    assert(s.take(i2)[i1] == s[i1]);
    assert(s.take(i2).take(i1) =~= s.take(i1));
    lemma_occ_vals_take_mono(s, g, 0, i1);
}

fn count_occ(s: &Vec<usize>, g: usize) -> (r: usize)
    ensures
        r as int == occ(s@, g as int),
{
    let mut cnt: usize = 0;
    let mut i: usize = 0;
    while i < s.len()
        invariant
            i <= s@.len(),
            cnt as int == occ(s@.take(i as int), g as int),
            cnt <= i,
        decreases s@.len() - i,
    {
        proof {
            lemma_occ_take_step(s@, g as int, i as int);
        }
        if s[i] == g {
            cnt = cnt + 1;
        }
        i = i + 1;
    }
    proof {
        assert(s@.take(s@.len() as int) =~= s@);
    }
    cnt
}

fn count_occ_vals(s: &Vec<InputValue>, g: usize) -> (r: usize)
    ensures
        r as int == occ_vals(s@, g as int),
{
    let mut cnt: usize = 0;
    let mut i: usize = 0;
    while i < s.len()
        invariant
            i <= s@.len(),
            cnt as int == occ_vals(s@.take(i as int), g as int),
            cnt <= i,
        decreases s@.len() - i,
    {
        proof {
            lemma_occ_vals_take_step(s@, g as int, i as int);
        }
        if s[i].group == g {
            cnt = cnt + 1;
        }
        i = i + 1;
    }
    proof {
        assert(s@.take(s@.len() as int) =~= s@);
    }
    cnt
}

/// Index of the entry assigning group `g`, where one exists.
fn find_val(s: &Vec<InputValue>, g: usize) -> (r: Option<usize>)
    ensures
        (r is Some) <==> occ_vals(s@, g as int) > 0,
        r matches Some(i) ==> i < s@.len() && s@[i as int].group == g,
{
    let mut i: usize = 0;
    while i < s.len()
        invariant
            i <= s@.len(),
            occ_vals(s@.take(i as int), g as int) == 0,
        decreases s@.len() - i,
    {
        proof {
            lemma_occ_vals_take_step(s@, g as int, i as int);
        }
        if s[i].group == g {
            proof {
                lemma_occ_vals_at(s@, g as int, i as int);
            }
            return Some(i);
        }
        i = i + 1;
    }
    proof {
        assert(s@.take(s@.len() as int) =~= s@);
    }
    None
}

/// Whether the list names group `g`.
fn find_idx(s: &Vec<usize>, g: usize) -> (r: bool)
    ensures
        r <==> occ(s@, g as int) > 0,
{
    let c = count_occ(s, g);
    c > 0
}

/// Check a declaration against the circuit, with an exact contract.
fn check_decl(
    c: &Circuit,
    own: &Vec<InputValue>,
    peer: &Vec<usize>,
    clear: &Vec<InputValue>,
    blind: &Vec<usize>,
) -> (r: bool)
    ensures
        r <==> valid_decl(*c, own@, peer@, clear@, blind@),
{
    let ng = c.input_groups.len();
    let mut i: usize = 0;
    while i < own.len()
        invariant
            i <= own@.len(),
            ng == c.input_groups@.len(),
            forall|x: int|
                0 <= x < i as int ==> (#[trigger] own@[x]).group < c.input_groups@.len()
                    && own@[x].bits@.len() == c.input_groups@[own@[x].group as int],
        decreases own@.len() - i,
    {
        if own[i].group >= ng {
            return false;
        }
        if own[i].bits.len() != c.input_groups[own[i].group] {
            return false;
        }
        i = i + 1;
    }
    let mut i2: usize = 0;
    while i2 < clear.len()
        invariant
            i2 <= clear@.len(),
            ng == c.input_groups@.len(),
            forall|x: int|
                0 <= x < i2 as int ==> (#[trigger] clear@[x]).group < c.input_groups@.len()
                    && clear@[x].bits@.len() == c.input_groups@[clear@[x].group as int],
        decreases clear@.len() - i2,
    {
        if clear[i2].group >= ng {
            return false;
        }
        if clear[i2].bits.len() != c.input_groups[clear[i2].group] {
            return false;
        }
        i2 = i2 + 1;
    }
    let mut i3: usize = 0;
    while i3 < peer.len()
        invariant
            i3 <= peer@.len(),
            ng == c.input_groups@.len(),
            forall|x: int| 0 <= x < i3 as int ==> (#[trigger] peer@[x]) < c.input_groups@.len(),
        decreases peer@.len() - i3,
    {
        if peer[i3] >= ng {
            return false;
        }
        i3 = i3 + 1;
    }
    let mut i4: usize = 0;
    while i4 < blind.len()
        invariant
            i4 <= blind@.len(),
            ng == c.input_groups@.len(),
            forall|x: int| 0 <= x < i4 as int ==> (#[trigger] blind@[x]) < c.input_groups@.len(),
        decreases blind@.len() - i4,
    {
        if blind[i4] >= ng {
            return false;
        }
        i4 = i4 + 1;
    }
    let mut g: usize = 0;
    while g < ng
        invariant
            g <= ng,
            ng == c.input_groups@.len(),
            vals_well_sized(*c, own@),
            vals_well_sized(*c, clear@),
            groups_in_range(*c, peer@),
            groups_in_range(*c, blind@),
            forall|x: int|
                0 <= x < g as int ==> occ_vals(own@, x) + occ(peer@, x) + occ_vals(clear@, x)
                    + occ(blind@, x) == 1,
        decreases ng - g,
    {
        let c1 = count_occ_vals(own, g);
        let c2 = count_occ(peer, g);
        let c3 = count_occ_vals(clear, g);
        let c4 = count_occ(blind, g);
        if c1 > 1 || c2 > 1 || c3 > 1 || c4 > 1 {
            return false;
        }
        if c1 + c2 + c3 + c4 != 1 {
            return false;
        }
        g = g + 1;
    }
    true
}

/// Append one group's wires to the role and bit arrays.
fn push_group(
    is_own: &mut Vec<bool>,
    is_peer: &mut Vec<bool>,
    bits: &mut Vec<bool>,
    width: usize,
    own_flag: bool,
    peer_flag: bool,
    vbits: Option<&Vec<bool>>,
)
    requires
        match vbits {
            Some(b) => b@.len() == width,
            None => true,
        },
    ensures
        final(is_own)@ == old(is_own)@ + Seq::new(width as nat, |j: int| own_flag),
        final(is_peer)@ == old(is_peer)@ + Seq::new(width as nat, |j: int| peer_flag),
        final(bits)@ == old(bits)@ + (match vbits {
            Some(b) => b@,
            None => Seq::new(width as nat, |j: int| false),
        }),
{
    let mut j: usize = 0;
    while j < width
        invariant
            j <= width,
            match vbits {
                Some(b) => b@.len() == width,
                None => true,
            },
            is_own@ == old(is_own)@ + Seq::new(j as nat, |x: int| own_flag),
            is_peer@ == old(is_peer)@ + Seq::new(j as nat, |x: int| peer_flag),
            bits@ == old(bits)@ + (match vbits {
                Some(b) => b@.take(j as int),
                None => Seq::new(j as nat, |x: int| false),
            }),
        decreases width - j,
    {
        is_own.push(own_flag);
        is_peer.push(peer_flag);
        let bv = match vbits {
            Some(b) => b[j],
            None => false,
        };
        bits.push(bv);
        proof {
            assert(is_own@ =~= old(is_own)@ + Seq::new(j as nat + 1, |x: int| own_flag));
            assert(is_peer@ =~= old(is_peer)@ + Seq::new(j as nat + 1, |x: int| peer_flag));
            match vbits {
                Some(b) => {
                    assert(bits@ =~= old(bits)@ + b@.take(j as int + 1));
                },
                None => {
                    assert(bits@ =~= old(bits)@ + Seq::new(j as nat + 1, |x: int| false));
                },
            }
        }
        j = j + 1;
    }
    proof {
        match vbits {
            Some(b) => {
                assert(b@.take(width as int) =~= b@);
            },
            None => {},
        }
    }
}


/// What input setup hands back for the transport and OT layers: the clear
/// labels to send, the pairs to hand the OT sender, and the choice bits to
/// hand the OT receiver.
#[derive(Debug)]
pub struct SetupOutput {
    pub msg: SetupMsg,
    pub offer: OtOffer,
    pub choices: Vec<bool>,
}


/// What a successful input setup establishes: the session moved to the
/// sent-setup phase holding the label set and the per-wire roles and bits
/// derived from the declaration, and the returned messages are exactly
/// the clear labels, OT offer and OT choices those arrays dictate.
pub open spec fn setup_established(
    pre: Session,
    post: Session,
    full: FullLabelSet,
    own: Seq<InputValue>,
    peer: Seq<usize>,
    clear: Seq<InputValue>,
    blind: Seq<usize>,
    out: SetupOutput,
) -> bool {
    let n = pre.circ.input_len as int;
    let cg = pre.circ.input_groups@;
    &&& post.phase == Phase::SetupSent
    &&& post.circ == pre.circ
    &&& post.full == Some(full)
    &&& post.is_own@.len() == n
    &&& post.is_peer@.len() == n
    &&& post.bits@.len() == n
    &&& forall|x: int|
        0 <= x < own.len() ==> marked_own(cg, post.is_own@, post.is_peer@, post.bits@, #[trigger] own[x])
    &&& forall|x: int|
        0 <= x < clear.len() ==> marked_clear(cg, post.is_own@, post.is_peer@, post.bits@, #[trigger] clear[x])
    &&& forall|x: int|
        0 <= x < peer.len() ==> marked_peer(cg, post.is_own@, post.is_peer@, post.bits@, (#[trigger] peer[x]) as int)
    &&& forall|x: int|
        0 <= x < blind.len() ==> marked_blind(cg, post.is_own@, post.is_peer@, post.bits@, (#[trigger] blind[x]) as int)
    &&& out.msg.labels@ == setup_labels(full, post.is_peer@, post.bits@, n)
    &&& out.offer.pairs@ == filtered(post.is_peer@, full.pairs@, n)
    &&& out.choices@ == filtered(post.is_own@, post.bits@, n)
}

proof fn lemma_occ_nonneg(s: Seq<usize>, g: int)
    ensures
        occ(s, g) >= 0,
    decreases s.len(),
{
    if s.len() > 0 {
        lemma_occ_nonneg(s.drop_last(), g);
    }
}

proof fn lemma_occ_vals_nonneg(s: Seq<InputValue>, g: int)
    ensures
        occ_vals(s, g) >= 0,
    decreases s.len(),
{
    if s.len() > 0 {
        lemma_occ_vals_nonneg(s.drop_last(), g);
    }
}

proof fn lemma_occ_at(s: Seq<usize>, g: int, i: int)
    requires
        0 <= i < s.len(),
        s[i] == g,
    ensures
        occ(s, g) >= 1,
{
    lemma_occ_take_step(s, g, i);
    lemma_occ_take_mono(s, g, i + 1, s.len() as int);
    lemma_occ_nonneg(s.take(i), g);
    assert(s.take(s.len() as int) =~= s);
}

/// One role's protocol engine: circuit, phase tag, and the material each
/// completed phase leaves behind. Transitions consume the prior phase;
/// an operation against the wrong phase is rejected without side effects.
pub struct Session {
    pub circ: Circuit,
    pub phase: Phase,
    pub full: Option<FullLabelSet>,
    pub is_own: Vec<bool>,
    pub is_peer: Vec<bool>,
    pub bits: Vec<bool>,
    pub active: Vec<u64>,
    pub own_pairs: Vec<LabelPair>,
    pub own_pair_commit: Vec<u8>,
    pub peer_pair_commit: Vec<u8>,
    pub evaluated: Vec<u64>,
    pub decoded: Vec<bool>,
    pub check_nonce: u64,
    pub peer_check_digest: Vec<u8>,
}

/// Phases at which input setup has begun, so label material is held.
pub open spec fn has_setup_state(p: Phase) -> bool {
    match p {
        Phase::SetupSent | Phase::Setup | Phase::GarbleSent | Phase::Executed | Phase::Committed
            | Phase::Revealed | Phase::Verified => true,
        _ => false,
    }
}

/// Phases at which the active label set is assembled.
pub open spec fn has_active(p: Phase) -> bool {
    match p {
        Phase::Setup | Phase::GarbleSent | Phase::Executed | Phase::Committed | Phase::Revealed
            | Phase::Verified => true,
        _ => false,
    }
}

/// Phases at which the party has garbled its circuit.
pub open spec fn has_garbling(p: Phase) -> bool {
    match p {
        Phase::GarbleSent | Phase::Executed | Phase::Committed | Phase::Revealed
            | Phase::Verified => true,
        _ => false,
    }
}

/// Phases at which the unverified decoded output is held.
pub open spec fn has_output(p: Phase) -> bool {
    match p {
        Phase::Executed | Phase::Committed | Phase::Revealed | Phase::Verified => true,
        _ => false,
    }
}

/// The party's own full label set, defined at phases with setup state.
pub open spec fn full_of(s: Session) -> FullLabelSet {
    match s.full {
        Some(f) => f,
        None => arbitrary(),
    }
}

pub open spec fn full_ok(s: Session) -> bool {
    match s.full {
        Some(f) => wf_full(f) && f.pairs@.len() == s.circ.input_len,
        None => false,
    }
}

/// What holds of a session at every phase: the circuit is well shaped and
/// every phase's material has the lengths the circuit dictates.
pub open spec fn inv(s: Session) -> bool {
    &&& wf_circuit(s.circ)
    &&& has_setup_state(s.phase) ==> full_ok(s) && s.is_own@.len() == s.circ.input_len
        && s.is_peer@.len() == s.circ.input_len && s.bits@.len() == s.circ.input_len
    &&& has_active(s.phase) ==> s.active@.len() == s.circ.input_len
    &&& has_garbling(s.phase) ==> s.own_pairs@.len() == s.circ.output_wires@.len()
    &&& has_output(s.phase) ==> s.decoded@.len() == s.circ.output_wires@.len()
        && s.evaluated@.len() == s.circ.output_wires@.len()
}

/// The fields input setup establishes are untouched.
pub open spec fn same_setup(a: Session, b: Session) -> bool {
    &&& a.circ == b.circ
    &&& a.full == b.full
    &&& a.is_own@ == b.is_own@
    &&& a.is_peer@ == b.is_peer@
    &&& a.bits@ == b.bits@
    &&& a.active@ == b.active@
}

/// The fields garbling establishes are untouched.
pub open spec fn same_garbling(a: Session, b: Session) -> bool {
    &&& a.own_pairs@ == b.own_pairs@
    &&& a.own_pair_commit@ == b.own_pair_commit@
}

/// The fields execution establishes are untouched.
pub open spec fn same_output(a: Session, b: Session) -> bool {
    &&& a.evaluated@ == b.evaluated@
    &&& a.decoded@ == b.decoded@
    &&& a.peer_pair_commit@ == b.peer_pair_commit@
}

impl Session {
    /// A fresh session over a shared circuit.
    pub fn new(circ: Circuit) -> (r: Session)
        requires
            wf_circuit(circ),
        ensures
            inv(r),
            r.phase == Phase::Initialized,
            r.circ == circ,
    {
        Session {
            circ,
            phase: Phase::Initialized,
            full: None,
            is_own: Vec::new(),
            is_peer: Vec::new(),
            bits: Vec::new(),
            active: Vec::new(),
            own_pairs: Vec::new(),
            own_pair_commit: Vec::new(),
            peer_pair_commit: Vec::new(),
            evaluated: Vec::new(),
            decoded: Vec::new(),
            check_nonce: 0,
            peer_check_digest: Vec::new(),
        }
    }

    /// Abort the session: the channel closed, the task was cancelled, or
    /// the caller gives up. No label material is retained and no later
    /// operation succeeds; retrying needs a fresh session.
    pub fn abort(&mut self)
        ensures
            final(self).phase == Phase::Aborted,
            final(self).full is None,
            final(self).circ == old(self).circ,
            inv(*old(self)) ==> inv(*final(self)),
    {
        self.phase = Phase::Aborted;
        self.full = None;
    }

    /// Declare this party's inputs and start setup: validate the
    /// declaration against the circuit before any secret material moves,
    /// derive per-wire roles and known bits, and produce the clear-label
    /// message, the OT offer for the peer's wires, and this party's OT
    /// choice bits.
    #[verifier::rlimit(60)]
    #[verifier::spinoff_prover]
    pub fn setup_inputs(
        &mut self,
        full: FullLabelSet,
        own: Vec<InputValue>,
        peer_groups: Vec<usize>,
        cleartext: Vec<InputValue>,
        blind: Vec<usize>,
    ) -> (r: Result<SetupOutput, DeapError>)
        requires
            inv(*old(self)),
            wf_full(full),
        ensures
            inv(*final(self)),
            old(self).phase != Phase::Initialized ==> (r matches Err(e) && e
                == DeapError::SequencingError && *final(self) == *old(self)),
            old(self).phase == Phase::Initialized ==> {
                let okc = setup_ok(old(self).circ, full, own@, peer_groups@, cleartext@, blind@);
                &&& !okc ==> (r matches Err(e) && e == DeapError::ConfigMismatch && final(self).phase == Phase::Aborted && final(self).circ == old(self).circ && final(self).full is None)
                &&& okc ==> (r matches Ok(out) && setup_established(
                    *old(self),
                    *final(self),
                    full,
                    own@,
                    peer_groups@,
                    cleartext@,
                    blind@,
                    out,
                ))
            },
    {
        if self.phase != Phase::Initialized {
            return Err(DeapError::SequencingError);
        }
        if !check_decl(&self.circ, &own, &peer_groups, &cleartext, &blind) {
            self.phase = Phase::Aborted;
            self.full = None;
            return Err(DeapError::ConfigMismatch);
        }
        if full.len() != self.circ.input_len {
            self.phase = Phase::Aborted;
            self.full = None;
            return Err(DeapError::ConfigMismatch);
        }
        let ghost cg = self.circ.input_groups@;
        let ng = self.circ.input_groups.len();
        let mut is_own: Vec<bool> = Vec::new();
        let mut is_peer: Vec<bool> = Vec::new();
        let mut bits: Vec<bool> = Vec::new();
        let mut g: usize = 0;
        while g < ng
            invariant
                *self == *old(self),
                old(self).phase == Phase::Initialized,
                inv(*old(self)),
                valid_decl(old(self).circ, own@, peer_groups@, cleartext@, blind@),
                cg == old(self).circ.input_groups@,
                ng == cg.len(),
                g <= ng,
                is_own@.len() == group_offset(cg, g as int),
                is_peer@.len() == group_offset(cg, g as int),
                bits@.len() == group_offset(cg, g as int),
                forall|x: int|
                    0 <= x < own@.len() && (own@[x].group as int) < g as int ==> marked_own(
                        cg,
                        is_own@,
                        is_peer@,
                        bits@,
                        #[trigger] own@[x],
                    ),
                forall|x: int|
                    0 <= x < cleartext@.len() && (cleartext@[x].group as int) < g as int
                        ==> marked_clear(cg, is_own@, is_peer@, bits@, #[trigger] cleartext@[x]),
                forall|x: int|
                    0 <= x < peer_groups@.len() && (peer_groups@[x] as int) < g as int
                        ==> marked_peer(
                        cg,
                        is_own@,
                        is_peer@,
                        bits@,
                        (#[trigger] peer_groups@[x]) as int,
                    ),
                forall|x: int|
                    0 <= x < blind@.len() && (blind@[x] as int) < g as int ==> marked_blind(
                        cg,
                        is_own@,
                        is_peer@,
                        bits@,
                        (#[trigger] blind@[x]) as int,
                    ),
            decreases ng - g,
        {
            proof {
                lemma_sum_take_step(cg, g as int);
                lemma_sum_nonneg(cg.take(g as int));
            }
            let width = self.circ.input_groups[g];
            let mut role: usize = 3;
            let mut vidx: usize = 0;
            match find_val(&own, g) {
                Some(i) => {
                    role = 0;
                    vidx = i;
                },
                None => {
                    match find_val(&cleartext, g) {
                        Some(i) => {
                            role = 1;
                            vidx = i;
                        },
                        None => {
                            if find_idx(&peer_groups, g) {
                                role = 2;
                            }
                        },
                    }
                },
            }
            let ghost pre_own = is_own@;
            let ghost pre_peer = is_peer@;
            let ghost pre_bits = bits@;
            if role == 0 {
                push_group(&mut is_own, &mut is_peer, &mut bits, width, true, false, Some(&own[vidx].bits));
            } else if role == 1 {
                push_group(&mut is_own, &mut is_peer, &mut bits, width, false, false, Some(&cleartext[vidx].bits));
            } else if role == 2 {
                push_group(&mut is_own, &mut is_peer, &mut bits, width, false, true, None);
            } else {
                push_group(&mut is_own, &mut is_peer, &mut bits, width, false, false, None);
            }
            proof {
                let gi = g as int;
                let off = group_offset(cg, gi);
                let wd = width as int;
                assert(off == pre_own.len());
                assert forall|w: int| 0 <= w < off implies is_own@[w] == pre_own[w] && is_peer@[w]
                    == pre_peer[w] && bits@[w] == pre_bits[w] by {}
                assert(is_own@.len() == off + wd);
                assert(is_peer@.len() == off + wd);
                assert(bits@.len() == off + wd);
                if role == 0 {
                    assert forall|j: int| #![trigger is_own@[off + j]] 0 <= j < wd implies is_own@[off + j] == true && is_peer@[
                        off + j
                    ] == false && bits@[off + j] == own@[vidx as int].bits@[j] by {
                        assert((pre_own + Seq::new(width as nat, |q: int| true))[off + j] == true);
                        assert((pre_peer + Seq::new(width as nat, |q: int| false))[off + j]
                            == false);
                        assert((pre_bits + own@[vidx as int].bits@)[off + j] == own@[vidx
                            as int].bits@[j]);
                    }
                } else if role == 1 {
                    assert forall|j: int| #![trigger is_own@[off + j]] 0 <= j < wd implies is_own@[off + j] == false && is_peer@[
                        off + j
                    ] == false && bits@[off + j] == cleartext@[vidx as int].bits@[j] by {
                        assert((pre_own + Seq::new(width as nat, |q: int| false))[off + j]
                            == false);
                        assert((pre_peer + Seq::new(width as nat, |q: int| false))[off + j]
                            == false);
                        assert((pre_bits + cleartext@[vidx as int].bits@)[off + j] == cleartext@[
                            vidx as int
                        ].bits@[j]);
                    }
                } else if role == 2 {
                    assert forall|j: int| #![trigger is_own@[off + j]] 0 <= j < wd implies is_own@[off + j] == false && is_peer@[
                        off + j
                    ] == true && bits@[off + j] == false by {
                        assert((pre_own + Seq::new(width as nat, |q: int| false))[off + j]
                            == false);
                        assert((pre_peer + Seq::new(width as nat, |q: int| true))[off + j] == true);
                        assert((pre_bits + Seq::new(width as nat, |q: int| false))[off + j]
                            == false);
                    }
                } else {
                    assert forall|j: int| #![trigger is_own@[off + j]] 0 <= j < wd implies is_own@[off + j] == false && is_peer@[
                        off + j
                    ] == false && bits@[off + j] == false by {
                        assert((pre_own + Seq::new(width as nat, |q: int| false))[off + j]
                            == false);
                        assert((pre_peer + Seq::new(width as nat, |q: int| false))[off + j]
                            == false);
                        assert((pre_bits + Seq::new(width as nat, |q: int| false))[off + j]
                            == false);
                    }
                }
                assert forall|x: int|
                    0 <= x < own@.len() && (own@[x].group as int) < gi + 1 implies marked_own(
                    cg,
                    is_own@,
                    is_peer@,
                    bits@,
                    own@[x],
                ) by {
                    let gx = own@[x].group as int;
                    let v = own@[x];
                    if gx < gi {
                        lemma_sum_take_step(cg, gx);
                        lemma_sum_take_mono(cg, gx + 1, gi);
                        lemma_sum_nonneg(cg.take(gx));
                        assert(marked_own(cg, pre_own, pre_peer, pre_bits, v));
                        assert(group_offset(cg, gx) + v.bits@.len() <= off);
                        assert forall|j: int| #![trigger is_own@[group_offset(cg, v.group as int) + j]] 0 <= j < v.bits@.len() implies is_own@[group_offset(
                            cg,
                            gx,
                        ) + j] == true && is_peer@[group_offset(cg, gx) + j] == false && bits@[
                            group_offset(cg, gx) + j
                        ] == v.bits@[j] by {
                            let bv = v.bits@[j];
                            assert(pre_own[group_offset(cg, gx) + j] == true);
                        }
                    } else {
                        lemma_occ_vals_at(own@, gi, x);
                        lemma_occ_vals_nonneg(own@.take(x), gi);
                        lemma_occ_vals_nonneg(cleartext@, gi);
                        lemma_occ_nonneg(peer_groups@, gi);
                        lemma_occ_nonneg(blind@, gi);
                        if role == 0 {
                            if x != vidx as int {
                                if x < vidx as int {
                                    lemma_occ_vals_unique(own@, gi, x, vidx as int);
                                } else {
                                    lemma_occ_vals_unique(own@, gi, vidx as int, x);
                                }
                                assert(false);
                            }
                            assert(v.bits@.len() == wd);
                            assert(group_offset(cg, v.group as int) == off);
                            assert forall|j: int|
                                #![trigger is_own@[group_offset(cg, v.group as int) + j]]
                            0 <= j < v.bits@.len()
                                implies is_own@[group_offset(cg, v.group as int) + j] == true
                                && is_peer@[group_offset(cg, v.group as int) + j] == false
                                && bits@[group_offset(cg, v.group as int) + j] == v.bits@[j] by {
                                assert(is_own@[off + j] == true);
                                assert(bits@[off + j] == own@[vidx as int].bits@[j]);
                            }
                        } else {
                            lemma_occ_vals_nonneg(own@.take(x), gi);
                            assert(false);
                        }
                    }
                    assert(marked_own(cg, is_own@, is_peer@, bits@, v));
                }
                assert forall|x: int|
                    0 <= x < cleartext@.len() && (cleartext@[x].group as int) < gi + 1
                    implies marked_clear(cg, is_own@, is_peer@, bits@, cleartext@[x]) by {
                    let gx = cleartext@[x].group as int;
                    let v = cleartext@[x];
                    if gx < gi {
                        lemma_sum_take_step(cg, gx);
                        lemma_sum_take_mono(cg, gx + 1, gi);
                        lemma_sum_nonneg(cg.take(gx));
                        assert(marked_clear(cg, pre_own, pre_peer, pre_bits, v));
                        assert(group_offset(cg, gx) + v.bits@.len() <= off);
                        assert forall|j: int| #![trigger is_own@[group_offset(cg, v.group as int) + j]] 0 <= j < v.bits@.len() implies is_own@[group_offset(
                            cg,
                            gx,
                        ) + j] == false && is_peer@[group_offset(cg, gx) + j] == false && bits@[
                            group_offset(cg, gx) + j
                        ] == v.bits@[j] by {
                            let bv = v.bits@[j];
                            assert(pre_peer[group_offset(cg, gx) + j] == false);
                        }
                    } else {
                        lemma_occ_vals_at(cleartext@, gi, x);
                        lemma_occ_vals_nonneg(cleartext@.take(x), gi);
                        lemma_occ_vals_nonneg(own@, gi);
                        lemma_occ_nonneg(peer_groups@, gi);
                        lemma_occ_nonneg(blind@, gi);
                        if role == 1 {
                            if x != vidx as int {
                                if x < vidx as int {
                                    lemma_occ_vals_unique(cleartext@, gi, x, vidx as int);
                                } else {
                                    lemma_occ_vals_unique(cleartext@, gi, vidx as int, x);
                                }
                                assert(false);
                            }
                            assert(v.bits@.len() == wd);
                            assert(group_offset(cg, v.group as int) == off);
                            assert forall|j: int|
                                #![trigger is_own@[group_offset(cg, v.group as int) + j]]
                            0 <= j < v.bits@.len()
                                implies is_own@[group_offset(cg, v.group as int) + j] == false
                                && is_peer@[group_offset(cg, v.group as int) + j] == false
                                && bits@[group_offset(cg, v.group as int) + j] == v.bits@[j] by {
                                assert(is_own@[off + j] == false);
                                assert(bits@[off + j] == cleartext@[vidx as int].bits@[j]);
                            }
                        } else if role == 0 {
                            assert(occ_vals(own@, gi) > 0);
                            assert(false);
                        } else {
                            lemma_occ_vals_nonneg(cleartext@.take(x), gi);
                            assert(false);
                        }
                    }
                    assert(marked_clear(cg, is_own@, is_peer@, bits@, v));
                }
                assert forall|x: int|
                    0 <= x < peer_groups@.len() && (peer_groups@[x] as int) < gi + 1
                    implies marked_peer(cg, is_own@, is_peer@, bits@, peer_groups@[x] as int) by {
                    let gx = peer_groups@[x] as int;
                    if gx < gi {
                        lemma_sum_take_step(cg, gx);
                        lemma_sum_take_mono(cg, gx + 1, gi);
                        lemma_sum_nonneg(cg.take(gx));
                        assert(marked_peer(cg, pre_own, pre_peer, pre_bits, gx));
                        assert(group_offset(cg, gx) + cg[gx] <= off);
                        assert forall|j: int| #![trigger is_own@[group_offset(cg, gx) + j]] 0 <= j < cg[gx] implies is_own@[group_offset(cg, gx)
                            + j] == false && is_peer@[group_offset(cg, gx) + j] == true && bits@[
                            group_offset(cg, gx) + j
                        ] == false by {
                            assert(pre_peer[group_offset(cg, gx) + j] == true);
                        }
                    } else {
                        lemma_occ_at(peer_groups@, gi, x);
                        lemma_occ_nonneg(peer_groups@.take(x), gi);
                        lemma_occ_vals_nonneg(own@, gi);
                        lemma_occ_vals_nonneg(cleartext@, gi);
                        lemma_occ_nonneg(blind@, gi);
                        assert(role == 2);
                        assert(cg[gx] == wd);
                    }
                }
                assert forall|x: int|
                    0 <= x < blind@.len() && (blind@[x] as int) < gi + 1 implies marked_blind(
                    cg,
                    is_own@,
                    is_peer@,
                    bits@,
                    blind@[x] as int,
                ) by {
                    let gx = blind@[x] as int;
                    if gx < gi {
                        lemma_sum_take_step(cg, gx);
                        lemma_sum_take_mono(cg, gx + 1, gi);
                        lemma_sum_nonneg(cg.take(gx));
                        assert(marked_blind(cg, pre_own, pre_peer, pre_bits, gx));
                        assert(group_offset(cg, gx) + cg[gx] <= off);
                        assert forall|j: int| #![trigger is_own@[group_offset(cg, gx) + j]] 0 <= j < cg[gx] implies is_own@[group_offset(cg, gx)
                            + j] == false && is_peer@[group_offset(cg, gx) + j] == false && bits@[
                            group_offset(cg, gx) + j
                        ] == false by {
                            assert(pre_bits[group_offset(cg, gx) + j] == false);
                        }
                    } else {
                        lemma_occ_at(blind@, gi, x);
                        lemma_occ_nonneg(blind@.take(x), gi);
                        lemma_occ_vals_nonneg(own@, gi);
                        lemma_occ_vals_nonneg(cleartext@, gi);
                        lemma_occ_nonneg(peer_groups@, gi);
                        assert(role == 3);
                        assert(cg[gx] == wd);
                    }
                }
            }
            g = g + 1;
        }
        proof {
            assert(cg.take(ng as int) =~= cg);
        }
        let n = self.circ.input_len;
        let mut msg_labels: Vec<u64> = Vec::new();
        let mut w: usize = 0;
        while w < n
            invariant
                w <= n,
                n as int == self.circ.input_len as int,
                is_peer@.len() == n,
                bits@.len() == n,
                full.pairs@.len() == n,
                msg_labels@.len() == w,
                forall|x: int|
                    0 <= x < w as int ==> msg_labels@[x] == setup_labels(
                        full,
                        is_peer@,
                        bits@,
                        n as int,
                    )[x],
            decreases n - w,
        {
            if is_peer[w] {
                msg_labels.push(0);
            } else {
                msg_labels.push(sel_label(full.pairs[w], bits[w]));
            }
            w = w + 1;
        }
        proof {
            assert(msg_labels@ =~= setup_labels(full, is_peer@, bits@, n as int));
        }
        let mut offer_pairs: Vec<LabelPair> = Vec::new();
        let mut w2: usize = 0;
        while w2 < n
            invariant
                w2 <= n,
                is_peer@.len() == n,
                full.pairs@.len() == n,
                offer_pairs@ == filtered(is_peer@, full.pairs@, w2 as int),
            decreases n - w2,
        {
            if is_peer[w2] {
                offer_pairs.push(full.pairs[w2]);
            }
            w2 = w2 + 1;
        }
        let mut choices: Vec<bool> = Vec::new();
        let mut w3: usize = 0;
        while w3 < n
            invariant
                w3 <= n,
                is_own@.len() == n,
                bits@.len() == n,
                choices@ == filtered(is_own@, bits@, w3 as int),
            decreases n - w3,
        {
            if is_own[w3] {
                choices.push(bits[w3]);
            }
            w3 = w3 + 1;
        }
        self.full = Some(full);
        self.is_own = is_own;
        self.is_peer = is_peer;
        self.bits = bits;
        self.phase = Phase::SetupSent;
        Ok(SetupOutput { msg: SetupMsg { labels: msg_labels }, offer: OtOffer { pairs: offer_pairs }, choices })
    }

    /// Combine the peer's clear labels and the OT-delivered labels into
    /// the active label set, completing input setup.
    pub fn finish_setup(&mut self, peer_msg: SetupMsg, ot_labels: Vec<u64>) -> (r: Result<
        (),
        DeapError,
    >)
        requires
            inv(*old(self)),
        ensures
            inv(*final(self)),
            old(self).phase != Phase::SetupSent ==> (r matches Err(e) && e
                == DeapError::SequencingError && *final(self) == *old(self)),
            old(self).phase == Phase::SetupSent ==> {
                let good = peer_msg.labels@.len() == old(self).circ.input_len && ot_labels@.len()
                    == count_true(old(self).is_own@, old(self).circ.input_len as int);
                &&& good ==> (r matches Ok(u) && final(self).phase == Phase::Setup
                    && final(self).active@ == assemble(
                    old(self).is_own@,
                    peer_msg.labels@,
                    ot_labels@,
                    old(self).circ.input_len as int,
                ) && final(self).circ == old(self).circ && final(self).full == old(self).full
                    && final(self).is_own@ == old(self).is_own@ && final(self).is_peer@ == old(self).is_peer@ && final(self).bits@ == old(self).bits@)
                &&& !good ==> (r matches Err(e) && e == DeapError::TransferError && final(self).phase == Phase::Aborted)
            },
    {
        if self.phase != Phase::SetupSent {
            return Err(DeapError::SequencingError);
        }
        let n = self.circ.input_len;
        if peer_msg.labels.len() != n {
            self.phase = Phase::Aborted;
            self.full = None;
            return Err(DeapError::TransferError);
        }
        let mut active: Vec<u64> = Vec::new();
        let mut w: usize = 0;
        let mut j: usize = 0;
        let ghost m = self.is_own@;
        while w < n
            invariant
                *self == *old(self),
                old(self).phase == Phase::SetupSent,
                inv(*old(self)),
                w <= n,
                n == self.circ.input_len,
                self.is_own@ == m,
                m.len() == n,
                peer_msg.labels@.len() == n,
                j as int == count_true(m, w as int),
                j <= ot_labels@.len(),
                active@.len() == w,
                forall|x: int|
                    0 <= x < w as int ==> active@[x] == (if m[x] {
                        ot_labels@[count_true(m, x)]
                    } else {
                        peer_msg.labels@[x]
                    }),
            decreases n - w,
        {
            proof {
                lemma_count_true_bounds(m, w as int);
            }
            if self.is_own[w] {
                if j >= ot_labels.len() {
                    self.phase = Phase::Aborted;
                    self.full = None;
                    proof {
                        lemma_count_true_mono(m, w as int, n as int);
                        lemma_count_true_bounds(m, n as int);
                    }
                    return Err(DeapError::TransferError);
                }
                active.push(ot_labels[j]);
                j = j + 1;
            } else {
                active.push(peer_msg.labels[w]);
            }
            w = w + 1;
        }
        if j != ot_labels.len() {
            self.phase = Phase::Aborted;
            self.full = None;
            return Err(DeapError::TransferError);
        }
        proof {
            assert(active@ =~= assemble(m, peer_msg.labels@, ot_labels@, n as int));
        }
        self.active = active;
        self.phase = Phase::Setup;
        Ok(())
    }

    /// Garble the shared circuit with this party's label set and commit to
    /// the output label pairs under the given session nonce. The returned
    /// message carries the tables, decode bits and pair commitment to the
    /// peer; the pairs themselves never leave the party.
    pub fn execute(&mut self, pair_nonce: u64) -> (r: Result<GarbleMsg, DeapError>)
        requires
            inv(*old(self)),
        ensures
            inv(*final(self)),
            old(self).phase != Phase::Setup ==> (r matches Err(e) && e
                == DeapError::SequencingError && *final(self) == *old(self)),
            old(self).phase == Phase::Setup ==> (r matches Ok(msg) && {
                let c = old(self).circ;
                let f = full_of(*old(self));
                &&& deep(msg.gc.tables@) == garble_tables(c, f)
                &&& msg.decode_bits@ == decode_bits_of(c, f)
                &&& msg.pair_commit@ == commit_of(pairs_bytes(output_pairs(c, f)), pair_nonce)
                &&& final(self).phase == Phase::GarbleSent
                &&& final(self).own_pairs@ == output_pairs(c, f)
                &&& final(self).own_pair_commit@ == msg.pair_commit@
                &&& final(self).circ == old(self).circ
                &&& final(self).full == old(self).full
                &&& final(self).is_own@ == old(self).is_own@
                &&& final(self).is_peer@ == old(self).is_peer@
                &&& final(self).bits@ == old(self).bits@
                &&& final(self).active@ == old(self).active@
            }),
    {
        if self.phase != Phase::Setup {
            return Err(DeapError::SequencingError);
        }
        let (gc, pairs, dbits) = match &self.full {
            Some(f) => garble(&self.circ, f),
            None => {
                proof {
                    assert(false);
                }
                return Err(DeapError::SequencingError);
            },
        };
        let enc = encode_pairs(&pairs);
        let pair_commit = commit_bytes(&enc, pair_nonce);
        let commit_copy = copy_bytes(&pair_commit);
        self.own_pairs = pairs;
        self.own_pair_commit = commit_copy;
        self.phase = Phase::GarbleSent;
        Ok(GarbleMsg { gc, decode_bits: dbits, pair_commit })
    }

    /// Evaluate the peer's garbled circuit with the assembled active
    /// labels and decode the result, holding the still-unverified output.
    pub fn finish_execute(&mut self, peer: GarbleMsg) -> (r: Result<(), DeapError>)
        requires
            inv(*old(self)),
        ensures
            inv(*final(self)),
            old(self).phase != Phase::GarbleSent ==> (r matches Err(e) && e
                == DeapError::SequencingError && *final(self) == *old(self)),
            old(self).phase == Phase::GarbleSent ==> {
                let c = old(self).circ;
                let good = wf_gc_shape(deep(peer.gc.tables@), c) && peer.decode_bits@.len()
                    == c.output_wires@.len();
                &&& good ==> (r matches Ok(u) && {
                    &&& final(self).phase == Phase::Executed
                    &&& final(self).evaluated@ == eval_output_labels(
                        c,
                        deep(peer.gc.tables@),
                        old(self).active@,
                    )
                    &&& final(self).decoded@ == decode_spec(
                        final(self).evaluated@,
                        peer.decode_bits@,
                    )
                    &&& final(self).peer_pair_commit@ == peer.pair_commit@
                    &&& same_setup(*final(self), *old(self))
                    &&& same_garbling(*final(self), *old(self))
                })
                &&& !good ==> (r matches Err(e) && e == DeapError::ChannelError && final(self).phase == Phase::Aborted)
            },
    {
        if self.phase != Phase::GarbleSent {
            return Err(DeapError::SequencingError);
        }
        let labels = match evaluate(&self.circ, &peer.gc, &self.active) {
            Ok(l) => l,
            Err(e) => {
                self.phase = Phase::Aborted;
                self.full = None;
                return Err(DeapError::ChannelError);
            },
        };
        if peer.decode_bits.len() != labels.len() {
            self.phase = Phase::Aborted;
            self.full = None;
            return Err(DeapError::ChannelError);
        }
        let bits = match decode(&labels, &peer.decode_bits) {
            Ok(b) => b,
            Err(e) => {
                self.phase = Phase::Aborted;
                self.full = None;
                return Err(DeapError::ChannelError);
            },
        };
        self.evaluated = labels;
        self.decoded = bits;
        self.peer_pair_commit = peer.pair_commit;
        self.phase = Phase::Executed;
        Ok(())
    }

    /// Commit to this party's equality-check value. Both parties' check
    /// commitments travel before either reveal, so neither can shape its
    /// reveal after seeing the other's.
    pub fn commit_check(&mut self, nonce: u64) -> (r: Result<CheckCommit, DeapError>)
        requires
            inv(*old(self)),
        ensures
            inv(*final(self)),
            old(self).phase != Phase::Executed ==> (r matches Err(e) && e
                == DeapError::SequencingError && *final(self) == *old(self)),
            old(self).phase == Phase::Executed ==> (r matches Ok(msg) && {
                &&& msg.digest@ == commit_of(
                    check_payload(
                        old(self).decoded@,
                        old(self).evaluated@,
                        old(self).own_pair_commit@,
                        old(self).peer_pair_commit@,
                    ),
                    nonce,
                )
                &&& final(self).phase == Phase::Committed
                &&& final(self).check_nonce == nonce
                &&& same_setup(*final(self), *old(self))
                &&& same_garbling(*final(self), *old(self))
                &&& same_output(*final(self), *old(self))
            }),
    {
        if self.phase != Phase::Executed {
            return Err(DeapError::SequencingError);
        }
        let payload = make_check_payload(
            &self.decoded,
            &self.evaluated,
            &self.own_pair_commit,
            &self.peer_pair_commit,
        );
        let digest = commit_bytes(&payload, nonce);
        self.check_nonce = nonce;
        self.phase = Phase::Committed;
        Ok(CheckCommit { digest })
    }

    /// Record the peer's check commitment and reveal this party's check
    /// value: decoded bits, evaluated active output labels, and the nonce.
    /// Only active labels leave the party; the unused label of every
    /// output pair stays private.
    pub fn reveal_check(&mut self, peer_commit: CheckCommit) -> (r: Result<CheckReveal, DeapError>)
        requires
            inv(*old(self)),
        ensures
            inv(*final(self)),
            old(self).phase != Phase::Committed ==> (r matches Err(e) && e
                == DeapError::SequencingError && *final(self) == *old(self)),
            old(self).phase == Phase::Committed ==> (r matches Ok(msg) && {
                &&& msg.bits@ == old(self).decoded@
                &&& msg.labels@ == old(self).evaluated@
                &&& msg.nonce == old(self).check_nonce
                &&& final(self).phase == Phase::Revealed
                &&& final(self).peer_check_digest@ == peer_commit.digest@
                &&& final(self).check_nonce == old(self).check_nonce
                &&& same_setup(*final(self), *old(self))
                &&& same_garbling(*final(self), *old(self))
                &&& same_output(*final(self), *old(self))
            }),
    {
        if self.phase != Phase::Committed {
            return Err(DeapError::SequencingError);
        }
        let bits = copy_bits(&self.decoded);
        let labels = copy_labels(&self.evaluated);
        self.peer_check_digest = peer_commit.digest;
        self.phase = Phase::Revealed;
        Ok(CheckReveal { bits, labels, nonce: self.check_nonce })
    }

    /// Check the peer's reveal against its earlier commitment and against
    /// this party's own garbling and decoded output. Any mismatch aborts
    /// the session with an authenticity error and no output is released;
    /// on success the decoded output is certified and returned.
    pub fn verify(&mut self, reveal: CheckReveal) -> (r: Result<Vec<bool>, DeapError>)
        requires
            inv(*old(self)),
        ensures
            inv(*final(self)),
            old(self).phase != Phase::Revealed ==> (r matches Err(e) && e
                == DeapError::SequencingError && *final(self) == *old(self)),
            old(self).phase == Phase::Revealed ==> {
                let acc = check_accepts(
                    reveal.bits@,
                    reveal.labels@,
                    reveal.nonce,
                    old(self).peer_check_digest@,
                    old(self).peer_pair_commit@,
                    old(self).own_pair_commit@,
                    old(self).decoded@,
                    old(self).own_pairs@,
                );
                &&& acc ==> (r matches Ok(out) && out@ == old(self).decoded@ && final(self).phase
                    == Phase::Verified && same_setup(*final(self), *old(self)) && same_garbling(
                    *final(self),
                    *old(self),
                ) && same_output(*final(self), *old(self)))
                &&& !acc ==> (r matches Err(e) && e == DeapError::AuthenticityError && final(self).phase == Phase::Aborted)
            },
    {
        if self.phase != Phase::Revealed {
            return Err(DeapError::SequencingError);
        }
        let m = self.own_pairs.len();
        let mut ok = reveal.bits.len() == m && reveal.labels.len() == m;
        let payload = make_check_payload(
            &reveal.bits,
            &reveal.labels,
            &self.peer_pair_commit,
            &self.own_pair_commit,
        );
        let expected = commit_bytes(&payload, reveal.nonce);
        if !bytes_eq(&expected, &self.peer_check_digest) {
            ok = false;
        }
        if !bools_eq(&reveal.bits, &self.decoded) {
            ok = false;
        }
        if ok {
            let mut i: usize = 0;
            while i < m
                invariant
                    *self == *old(self),
                    old(self).phase == Phase::Revealed,
                    inv(*old(self)),
                    ok,
                    reveal.bits@ == old(self).decoded@,
                    old(self).peer_check_digest@ == commit_of(
                        check_payload(
                            reveal.bits@,
                            reveal.labels@,
                            old(self).peer_pair_commit@,
                            old(self).own_pair_commit@,
                        ),
                        reveal.nonce,
                    ),
                    i <= m,
                    m == self.own_pairs@.len(),
                    reveal.bits@.len() == m,
                    reveal.labels@.len() == m,
                    forall|x: int|
                        0 <= x < i as int ==> reveal.labels@[x] == sel(
                            self.own_pairs@[x],
                            reveal.bits@[x],
                        ),
                decreases m - i,
            {
                if reveal.labels[i] != sel_label(self.own_pairs[i], reveal.bits[i]) {
                    ok = false;
                    proof {
                        assert(!check_accepts(
                            reveal.bits@,
                            reveal.labels@,
                            reveal.nonce,
                            self.peer_check_digest@,
                            self.peer_pair_commit@,
                            self.own_pair_commit@,
                            self.decoded@,
                            self.own_pairs@,
                        ));
                    }
                    self.phase = Phase::Aborted;
                    self.full = None;
                    return Err(DeapError::AuthenticityError);
                }
                i = i + 1;
            }
        }
        if !ok {
            self.phase = Phase::Aborted;
            self.full = None;
            return Err(DeapError::AuthenticityError);
        }
        let out = copy_bits(&self.decoded);
        self.phase = Phase::Verified;
        Ok(out)
    }
}

} // verus!
