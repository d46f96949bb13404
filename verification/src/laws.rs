use vstd::prelude::*;

use crate::circuit::{eval, wf_circuit, Circuit};
use crate::commit::commit_of;
use crate::garble::{
    decode_bits_of, decode_spec, eval_output_labels, garble_tables, lemma_decode_honest,
    lemma_wire_pairs_len, lemma_wire_pairs_wf, output_pairs, wire_pairs,
};
use crate::label::{active_for, lemma_labels_distinct, sel, wf_full, FullLabelSet};
use crate::session::{
    assemble, check_accepts, check_payload, combine, count_true, filtered, lemma_filtered_index,
    lemma_filtered_len, setup_labels,
};

verus! {

/// What an honest run of the ideal oblivious transfer delivers for the
/// receiver-owned wires: the label the receiver's bit selects from each
/// offered pair, in wire order.
pub open spec fn ot_honest(f: FullLabelSet, mask: Seq<bool>, bits: Seq<bool>, n: int) -> Seq<u64> {
    Seq::new(
        count_true(mask, n) as nat,
        |j: int| sel(filtered(mask, f.pairs@, n)[j], filtered(mask, bits, n)[j]),
    )
}

/// Two declarations fit one session: no wire is claimed by both parties,
/// and the bits of wires owned by neither (cleartext and blind wires) are
/// the same public values on both sides.
pub open spec fn complementary(
    own_s: Seq<bool>,
    bits_s: Seq<bool>,
    own_p: Seq<bool>,
    bits_p: Seq<bool>,
    n: int,
) -> bool {
    &&& forall|w: int| 0 <= w < n ==> !((#[trigger] own_s[w]) && own_p[w])
    &&& forall|w: int| 0 <= w < n ==> (!(#[trigger] own_s[w]) && !own_p[w]) ==> bits_s[w] == bits_p[w]
}

/// Honest input setup assembles exactly the peer label set's active labels
/// for the session's combined input bits: the oblivious transfer delivers
/// the labels of this party's own bits, and the peer's clear-label message
/// covers every other wire.
pub proof fn lemma_assemble_honest(
    f_peer: FullLabelSet,
    own_s: Seq<bool>,
    bits_s: Seq<bool>,
    own_p: Seq<bool>,
    bits_p: Seq<bool>,
    n: int,
)
    requires
        n >= 0,
        own_s.len() == n,
        bits_s.len() == n,
        own_p.len() == n,
        bits_p.len() == n,
        f_peer.pairs@.len() == n,
        complementary(own_s, bits_s, own_p, bits_p, n),
    ensures
        assemble(
            own_s,
            setup_labels(f_peer, own_s, bits_p, n),
            ot_honest(f_peer, own_s, bits_s, n),
            n,
        ) == active_for(f_peer, combine(own_s, bits_s, own_p, bits_p, n)),
{
    let msg = setup_labels(f_peer, own_s, bits_p, n);
    let ot = ot_honest(f_peer, own_s, bits_s, n);
    let v = combine(own_s, bits_s, own_p, bits_p, n);
    let lhs = assemble(own_s, msg, ot, n);
    let rhs = active_for(f_peer, v);
    assert forall|w: int| 0 <= w < n implies lhs[w] == rhs[w] by {
        if own_s[w] {
            lemma_filtered_index(own_s, f_peer.pairs@, n, w);
            lemma_filtered_index(own_s, bits_s, n, w);
            lemma_filtered_len(own_s, f_peer.pairs@, n);
        }
    }
    assert(lhs =~= rhs);
}

/// Honest dual execution agrees: for any circuit and any honest pair of
/// complementary input declarations, both parties decode the same output,
/// equal to the circuit's clear evaluation of the combined inputs, and
/// each party's equality check accepts the other's honest reveal, for any
/// choice of commitment nonces.
pub proof fn lemma_honest_dual_execution(
    c: Circuit,
    f_l: FullLabelSet,
    f_f: FullLabelSet,
    own_l: Seq<bool>,
    bits_l: Seq<bool>,
    own_f: Seq<bool>,
    bits_f: Seq<bool>,
    cp_l: Seq<u8>,
    cp_f: Seq<u8>,
    nonce_l: u64,
    nonce_f: u64,
)
    requires
        wf_circuit(c),
        wf_full(f_l),
        wf_full(f_f),
        f_l.pairs@.len() == c.input_len,
        f_f.pairs@.len() == c.input_len,
        own_l.len() == c.input_len,
        bits_l.len() == c.input_len,
        own_f.len() == c.input_len,
        bits_f.len() == c.input_len,
        complementary(own_l, bits_l, own_f, bits_f, c.input_len as int),
    ensures
        ({
            let n = c.input_len as int;
            let v = combine(own_l, bits_l, own_f, bits_f, n);
            let active_l = assemble(
                own_l,
                setup_labels(f_f, own_l, bits_f, n),
                ot_honest(f_f, own_l, bits_l, n),
                n,
            );
            let active_f = assemble(
                own_f,
                setup_labels(f_l, own_f, bits_l, n),
                ot_honest(f_l, own_f, bits_f, n),
                n,
            );
            let lab_l = eval_output_labels(c, garble_tables(c, f_f), active_l);
            let lab_f = eval_output_labels(c, garble_tables(c, f_l), active_f);
            let out_l = decode_spec(lab_l, decode_bits_of(c, f_f));
            let out_f = decode_spec(lab_f, decode_bits_of(c, f_l));
            &&& out_l == eval(c, v)
            &&& out_f == eval(c, v)
            &&& out_l == out_f
            &&& check_accepts(
                out_f,
                lab_f,
                nonce_f,
                commit_of(check_payload(out_f, lab_f, cp_f, cp_l), nonce_f),
                cp_f,
                cp_l,
                out_l,
                output_pairs(c, f_l),
            )
            &&& check_accepts(
                out_l,
                lab_l,
                nonce_l,
                commit_of(check_payload(out_l, lab_l, cp_l, cp_f), nonce_l),
                cp_l,
                cp_f,
                out_f,
                output_pairs(c, f_f),
            )
        }),
{
    let n = c.input_len as int;
    let v = combine(own_l, bits_l, own_f, bits_f, n);
    let v2 = combine(own_f, bits_f, own_l, bits_l, n);
    assert(v2 =~= v);
    lemma_assemble_honest(f_f, own_l, bits_l, own_f, bits_f, n);
    lemma_assemble_honest(f_l, own_f, bits_f, own_l, bits_l, n);
    lemma_decode_honest(c, f_f, v);
    lemma_decode_honest(c, f_l, v);
    let lab_l = eval_output_labels(c, garble_tables(c, f_f), active_for(f_f, v));
    let lab_f = eval_output_labels(c, garble_tables(c, f_l), active_for(f_l, v));
    assert forall|i: int| 0 <= i < c.output_wires@.len() implies #[trigger] lab_f[i] == sel(
        output_pairs(c, f_l)[i],
        eval(c, v)[i],
    ) by {
        assert(lab_f[i] == Seq::new(
            c.output_wires@.len(),
            |q: int| sel(output_pairs(c, f_l)[q], eval(c, v)[q]),
        )[i]);
    }
    assert forall|i: int| 0 <= i < c.output_wires@.len() implies #[trigger] lab_l[i] == sel(
        output_pairs(c, f_f)[i],
        eval(c, v)[i],
    ) by {
        assert(lab_l[i] == Seq::new(
            c.output_wires@.len(),
            |q: int| sel(output_pairs(c, f_f)[q], eval(c, v)[q]),
        )[i]);
    }
}

/// No false accept: a verifier accepts an equality-check reveal only when
/// the reveal opens the commitment digest the verifier recorded, reports
/// exactly the verifier's own decoded output, and carries, wire by wire,
/// exactly the label the verifier's own garbling assigns to that output.
/// Altering any of those values before sending is rejected; forging an
/// acceptable reveal would take a digest collision or a label of the
/// verifier's garbling that honest evaluation never exposed.
pub proof fn lemma_no_false_accept(
    reveal_bits: Seq<bool>,
    reveal_labels: Seq<u64>,
    reveal_nonce: u64,
    peer_digest: Seq<u8>,
    peer_pair_commit: Seq<u8>,
    own_pair_commit: Seq<u8>,
    decoded: Seq<bool>,
    own_pairs: Seq<crate::label::LabelPair>,
)
    requires
        check_accepts(
            reveal_bits,
            reveal_labels,
            reveal_nonce,
            peer_digest,
            peer_pair_commit,
            own_pair_commit,
            decoded,
            own_pairs,
        ),
    ensures
        reveal_bits == decoded,
        forall|i: int|
            0 <= i < own_pairs.len() ==> #[trigger] reveal_labels[i] == sel(
                own_pairs[i],
                reveal_bits[i],
            ),
        peer_digest == commit_of(
            check_payload(reveal_bits, reveal_labels, peer_pair_commit, own_pair_commit),
            reveal_nonce,
        ),
{
}

/// The equality-check reveal exposes active labels only: in an honest
/// session each revealed label is the garbler's label for the decoded
/// bit of its wire, and differs from the unused label of that wire's
/// pair. Beyond these labels the check transcript holds only decoded
/// bits, a nonce and opaque digests.
pub proof fn lemma_reveal_active_only(c: Circuit, f_peer: FullLabelSet, v: Seq<bool>, i: int)
    requires
        wf_circuit(c),
        wf_full(f_peer),
        f_peer.pairs@.len() == c.input_len,
        v.len() == c.input_len,
        0 <= i < c.output_wires@.len(),
    ensures
        ({
            let labels = eval_output_labels(c, garble_tables(c, f_peer), active_for(f_peer, v));
            let bits = decode_spec(labels, decode_bits_of(c, f_peer));
            &&& labels[i] == sel(output_pairs(c, f_peer)[i], bits[i])
            &&& labels[i] != sel(output_pairs(c, f_peer)[i], !bits[i])
        }),
{
    lemma_decode_honest(c, f_peer, v);
    let labels = eval_output_labels(c, garble_tables(c, f_peer), active_for(f_peer, v));
    let bits = decode_spec(labels, decode_bits_of(c, f_peer));
    assert(labels[i] == Seq::new(
        c.output_wires@.len(),
        |q: int| sel(output_pairs(c, f_peer)[q], eval(c, v)[q]),
    )[i]);
    let p = output_pairs(c, f_peer)[i];
    lemma_wire_pairs_wf(c, f_peer, c.gates@.len());
    lemma_wire_pairs_len(c, f_peer, c.gates@.len());
    assert(p == wire_pairs(c, f_peer)[c.output_wires@[i] as int]);
    lemma_labels_distinct(p, f_peer.delta, bits[i]);
}

} // verus!
