use deap::circuit::{Circuit, Gate};
use deap::deap::mock_deap_pair;
use deap::error::DeapError;
use deap::garble::{decode, evaluate, garble};
use deap::label::FullLabelSet;
use deap::session::{ot_transfer, InputValue};

struct Rng(u64);

impl Rng {
    fn next(&mut self) -> u64 {
        self.0 ^= self.0 << 13;
        self.0 ^= self.0 >> 7;
        self.0 ^= self.0 << 17;
        self.0
    }
}

fn gen_labels(rng: &mut Rng, n: usize) -> FullLabelSet {
    let delta = rng.next() | 1;
    let zeros: Vec<u64> = (0..n).map(|_| rng.next()).collect();
    FullLabelSet::new(delta, zeros).unwrap()
}

/// Ripple-carry adder over two n-bit inputs, little-endian, sum mod 2^n.
fn adder_circuit(n: usize) -> Circuit {
    let mut gates: Vec<Gate> = Vec::new();
    let mut outputs: Vec<usize> = Vec::new();
    let mut wire = 2 * n;
    let mut carry: Option<usize> = None;
    for i in 0..n {
        let a = i;
        let b = n + i;
        let axb = wire;
        gates.push(Gate::Xor { a, b });
        wire += 1;
        match carry {
            None => {
                outputs.push(axb);
                if n > 1 {
                    let c = wire;
                    gates.push(Gate::And { a, b });
                    wire += 1;
                    carry = Some(c);
                }
            }
            Some(c) => {
                let s = wire;
                gates.push(Gate::Xor { a: axb, b: c });
                wire += 1;
                outputs.push(s);
                if i + 1 < n {
                    let t1 = wire;
                    gates.push(Gate::And { a, b });
                    wire += 1;
                    let t2 = wire;
                    gates.push(Gate::And { a: axb, b: c });
                    wire += 1;
                    let nc = wire;
                    gates.push(Gate::Xor { a: t1, b: t2 });
                    wire += 1;
                    carry = Some(nc);
                }
            }
        }
    }
    Circuit::new(vec![n, n], gates, outputs).unwrap()
}

fn u64_bits(x: u64, n: usize) -> Vec<bool> {
    (0..n).map(|i| (x >> i) & 1 == 1).collect()
}

fn bits_u64(bits: &[bool]) -> u64 {
    let mut x = 0u64;
    for (i, b) in bits.iter().enumerate() {
        if *b {
            x |= 1 << i;
        }
    }
    x
}

enum Tamper {
    Honest,
    FollowerGc,
    FollowerPairCommit,
}

fn run_session(
    circ: &Circuit,
    x_l: u64,
    x_f: u64,
    n: usize,
    tamper: Tamper,
) -> (Result<Vec<bool>, DeapError>, Result<Vec<bool>, DeapError>) {
    let mut rng = Rng(0x2545F4914F6CDD1D);
    let (mut leader, mut follower) = mock_deap_pair(circ);
    let fl = gen_labels(&mut rng, circ.input_len());
    let ff = gen_labels(&mut rng, circ.input_len());
    let li = InputValue { group: 0, bits: u64_bits(x_l, n) };
    let fi = InputValue { group: 1, bits: u64_bits(x_f, n) };
    let lout = leader.setup_inputs(fl, vec![li], vec![1], vec![], vec![]).unwrap();
    let fout = follower.setup_inputs(ff, vec![fi], vec![0], vec![], vec![]).unwrap();
    let l_ot = ot_transfer(&fout.offer, &lout.choices).unwrap();
    let f_ot = ot_transfer(&lout.offer, &fout.choices).unwrap();
    leader.finish_setup(fout.msg, l_ot).unwrap();
    follower.finish_setup(lout.msg, f_ot).unwrap();
    let l_g = leader.execute(11).unwrap();
    let mut f_g = follower.execute(22).unwrap();
    match tamper {
        Tamper::Honest => {}
        Tamper::FollowerGc => {
            let t = f_g
                .gc
                .tables
                .iter_mut()
                .find(|t| t.len() == 4)
                .expect("an AND table");
            for row in t.iter_mut() {
                *row ^= 1;
            }
        }
        Tamper::FollowerPairCommit => {
            f_g.pair_commit[0] ^= 1;
        }
    }
    leader.finish_execute(f_g).unwrap();
    follower.finish_execute(l_g).unwrap();
    let l_c = leader.commit_check(33).unwrap();
    let f_c = follower.commit_check(44).unwrap();
    let l_r = leader.reveal_check(f_c).unwrap();
    let f_r = follower.reveal_check(l_c).unwrap();
    let l_out = leader.verify(f_r);
    let f_out = follower.verify(l_r);
    (l_out, f_out)
}

#[test]
fn test_deap() {
    let circ = adder_circuit(64);
    let (l_out, f_out) = run_session(&circ, 1, 2, 64, Tamper::Honest);
    let l_out = l_out.unwrap();
    let f_out = f_out.unwrap();
    assert_eq!(bits_u64(&l_out), 3);
    assert_eq!(l_out, f_out);
}

#[test]
fn adder_overflow_wraps() {
    let circ = adder_circuit(8);
    let (l_out, f_out) = run_session(&circ, 200, 100, 8, Tamper::Honest);
    let l_out = l_out.unwrap();
    assert_eq!(bits_u64(&l_out), (200 + 100) % 256);
    assert_eq!(l_out, f_out.unwrap());
}

#[test]
fn outputs_match_clear_evaluation() {
    let circ = adder_circuit(16);
    let mut inputs = u64_bits(12345, 16);
    inputs.extend(u64_bits(54321, 16));
    let clear = circ.evaluate_bits(&inputs).unwrap();
    let (l_out, _) = run_session(&circ, 12345, 54321, 16, Tamper::Honest);
    assert_eq!(l_out.unwrap(), clear);
}

#[test]
fn tampered_garbled_circuit_fails_both() {
    let circ = adder_circuit(64);
    let (l_out, f_out) = run_session(&circ, 1, 2, 64, Tamper::FollowerGc);
    assert_eq!(l_out.unwrap_err(), DeapError::AuthenticityError);
    assert_eq!(f_out.unwrap_err(), DeapError::AuthenticityError);
}

#[test]
fn tampered_pair_commitment_fails_both() {
    let circ = adder_circuit(64);
    let (l_out, f_out) = run_session(&circ, 1, 2, 64, Tamper::FollowerPairCommit);
    assert_eq!(l_out.unwrap_err(), DeapError::AuthenticityError);
    assert_eq!(f_out.unwrap_err(), DeapError::AuthenticityError);
}

#[test]
fn reveal_exposes_active_labels_only() {
    // The follower's reveal must carry, per output wire, the label the
    // leader's garbling assigns to the decoded bit, never the other one.
    let circ = adder_circuit(8);
    let mut rng = Rng(7);
    let (mut leader, mut follower) = mock_deap_pair(&circ);
    let fl = gen_labels(&mut rng, circ.input_len());
    let ff = gen_labels(&mut rng, circ.input_len());
    let li = InputValue { group: 0, bits: u64_bits(5, 8) };
    let fi = InputValue { group: 1, bits: u64_bits(9, 8) };
    let lout = leader.setup_inputs(fl, vec![li], vec![1], vec![], vec![]).unwrap();
    let fout = follower.setup_inputs(ff, vec![fi], vec![0], vec![], vec![]).unwrap();
    let l_ot = ot_transfer(&fout.offer, &lout.choices).unwrap();
    let f_ot = ot_transfer(&lout.offer, &fout.choices).unwrap();
    leader.finish_setup(fout.msg, l_ot).unwrap();
    follower.finish_setup(lout.msg, f_ot).unwrap();
    let l_g = leader.execute(11).unwrap();
    let f_g = follower.execute(22).unwrap();
    leader.finish_execute(f_g).unwrap();
    follower.finish_execute(l_g).unwrap();
    let l_c = leader.commit_check(33).unwrap();
    let f_c = follower.commit_check(44).unwrap();
    let _l_r = leader.reveal_check(f_c).unwrap();
    let f_r = follower.reveal_check(l_c).unwrap();
    for (i, pair) in leader.session.own_pairs.iter().enumerate() {
        let active = if f_r.bits[i] { pair.one } else { pair.zero };
        let unused = if f_r.bits[i] { pair.zero } else { pair.one };
        assert_eq!(f_r.labels[i], active);
        assert_ne!(f_r.labels[i], unused);
    }
}

#[test]
fn execute_before_setup_rejected() {
    let circ = adder_circuit(8);
    let (mut leader, mut follower) = mock_deap_pair(&circ);
    assert_eq!(leader.execute(1).unwrap_err(), DeapError::SequencingError);
    assert_eq!(follower.execute(1).unwrap_err(), DeapError::SequencingError);
}

#[test]
fn verify_before_execute_rejected() {
    let circ = adder_circuit(8);
    let mut rng = Rng(3);
    let (mut leader, mut follower) = mock_deap_pair(&circ);
    let fl = gen_labels(&mut rng, circ.input_len());
    let ff = gen_labels(&mut rng, circ.input_len());
    let li = InputValue { group: 0, bits: u64_bits(1, 8) };
    let fi = InputValue { group: 1, bits: u64_bits(2, 8) };
    let lout = leader.setup_inputs(fl, vec![li], vec![1], vec![], vec![]).unwrap();
    let fout = follower.setup_inputs(ff, vec![fi], vec![0], vec![], vec![]).unwrap();
    let l_ot = ot_transfer(&fout.offer, &lout.choices).unwrap();
    let f_ot = ot_transfer(&lout.offer, &fout.choices).unwrap();
    leader.finish_setup(fout.msg, l_ot).unwrap();
    follower.finish_setup(lout.msg, f_ot).unwrap();
    let reveal = deap::session::CheckReveal { bits: vec![], labels: vec![], nonce: 0 };
    assert_eq!(leader.verify(reveal).unwrap_err(), DeapError::SequencingError);
    let reveal = deap::session::CheckReveal { bits: vec![], labels: vec![], nonce: 0 };
    assert_eq!(follower.verify(reveal).unwrap_err(), DeapError::SequencingError);
}

#[test]
fn dropped_channel_aborts_session() {
    // Channel drop after the garbled-circuit exchange but before the
    // commitment exchange: both sides abort and nothing is resumable.
    let circ = adder_circuit(8);
    let mut rng = Rng(5);
    let (mut leader, mut follower) = mock_deap_pair(&circ);
    let fl = gen_labels(&mut rng, circ.input_len());
    let ff = gen_labels(&mut rng, circ.input_len());
    let li = InputValue { group: 0, bits: u64_bits(1, 8) };
    let fi = InputValue { group: 1, bits: u64_bits(2, 8) };
    let lout = leader.setup_inputs(fl, vec![li], vec![1], vec![], vec![]).unwrap();
    let fout = follower.setup_inputs(ff, vec![fi], vec![0], vec![], vec![]).unwrap();
    let l_ot = ot_transfer(&fout.offer, &lout.choices).unwrap();
    let f_ot = ot_transfer(&lout.offer, &fout.choices).unwrap();
    leader.finish_setup(fout.msg, l_ot).unwrap();
    follower.finish_setup(lout.msg, f_ot).unwrap();
    let l_g = leader.execute(11).unwrap();
    let f_g = follower.execute(22).unwrap();
    leader.finish_execute(f_g).unwrap();
    follower.finish_execute(l_g).unwrap();
    // the channel closes here
    leader.abort();
    follower.abort();
    assert_eq!(leader.commit_check(1).unwrap_err(), DeapError::SequencingError);
    assert_eq!(follower.commit_check(1).unwrap_err(), DeapError::SequencingError);
    assert_eq!(leader.execute(1).unwrap_err(), DeapError::SequencingError);
    assert!(leader.session.full.is_none());
    assert!(follower.session.full.is_none());
}

#[test]
fn mismatched_declaration_rejected() {
    // Declared peer groups that do not match the circuit's shape are a
    // fatal configuration error before any transfer.
    let circ = adder_circuit(8);
    let mut rng = Rng(9);
    let (mut leader, _) = mock_deap_pair(&circ);
    let fl = gen_labels(&mut rng, circ.input_len());
    // wrong width for group 0
    let li = InputValue { group: 0, bits: u64_bits(1, 4) };
    let err = leader.setup_inputs(fl, vec![li], vec![1], vec![], vec![]).unwrap_err();
    assert_eq!(err, DeapError::ConfigMismatch);
}

#[test]
fn unclaimed_group_rejected() {
    let circ = adder_circuit(8);
    let mut rng = Rng(10);
    let (mut leader, _) = mock_deap_pair(&circ);
    let fl = gen_labels(&mut rng, circ.input_len());
    let li = InputValue { group: 0, bits: u64_bits(1, 8) };
    // group 1 claimed by nobody
    let err = leader.setup_inputs(fl, vec![li], vec![], vec![], vec![]).unwrap_err();
    assert_eq!(err, DeapError::ConfigMismatch);
}

#[test]
fn wrong_ot_delivery_aborts_with_transfer_error() {
    let circ = adder_circuit(8);
    let mut rng = Rng(11);
    let (mut leader, mut follower) = mock_deap_pair(&circ);
    let fl = gen_labels(&mut rng, circ.input_len());
    let ff = gen_labels(&mut rng, circ.input_len());
    let li = InputValue { group: 0, bits: u64_bits(1, 8) };
    let fi = InputValue { group: 1, bits: u64_bits(2, 8) };
    let _lout = leader.setup_inputs(fl, vec![li], vec![1], vec![], vec![]).unwrap();
    let fout = follower.setup_inputs(ff, vec![fi], vec![0], vec![], vec![]).unwrap();
    // deliver too few labels
    let err = leader.finish_setup(fout.msg, vec![1, 2, 3]).unwrap_err();
    assert_eq!(err, DeapError::TransferError);
    // the session is dead
    assert_eq!(leader.execute(1).unwrap_err(), DeapError::SequencingError);
}

#[test]
fn malformed_garbled_circuit_aborts_with_channel_error() {
    let circ = adder_circuit(8);
    let mut rng = Rng(12);
    let (mut leader, mut follower) = mock_deap_pair(&circ);
    let fl = gen_labels(&mut rng, circ.input_len());
    let ff = gen_labels(&mut rng, circ.input_len());
    let li = InputValue { group: 0, bits: u64_bits(1, 8) };
    let fi = InputValue { group: 1, bits: u64_bits(2, 8) };
    let lout = leader.setup_inputs(fl, vec![li], vec![1], vec![], vec![]).unwrap();
    let fout = follower.setup_inputs(ff, vec![fi], vec![0], vec![], vec![]).unwrap();
    let l_ot = ot_transfer(&fout.offer, &lout.choices).unwrap();
    let f_ot = ot_transfer(&lout.offer, &fout.choices).unwrap();
    leader.finish_setup(fout.msg, l_ot).unwrap();
    follower.finish_setup(lout.msg, f_ot).unwrap();
    let _l_g = leader.execute(11).unwrap();
    let mut f_g = follower.execute(22).unwrap();
    f_g.gc.tables.pop();
    let err = leader.finish_execute(f_g).unwrap_err();
    assert_eq!(err, DeapError::ChannelError);
}

#[test]
fn garble_evaluate_decode_round_trip() {
    // One XOR and one AND over three input bits, checked against the
    // clear evaluation on every input combination.
    let gates = vec![Gate::Xor { a: 0, b: 1 }, Gate::And { a: 3, b: 2 }];
    let circ = Circuit::new(vec![3], gates, vec![3, 4]).unwrap();
    let mut rng = Rng(42);
    for x in 0..8u64 {
        let f = gen_labels(&mut rng, 3);
        let inputs = u64_bits(x, 3);
        let clear = circ.evaluate_bits(&inputs).unwrap();
        let (gc, _pairs, dbits) = garble(&circ, &f);
        let active: Vec<u64> = (0..3)
            .map(|i| {
                if inputs[i] {
                    f.pairs[i].one
                } else {
                    f.pairs[i].zero
                }
            })
            .collect();
        let labels = evaluate(&circ, &gc, &active).unwrap();
        let decoded = decode(&labels, &dbits).unwrap();
        assert_eq!(decoded, clear);
    }
}

#[test]
fn ot_transfer_selects_by_choice_bit() {
    let mut rng = Rng(77);
    let f = gen_labels(&mut rng, 4);
    let offer = deap::session::OtOffer { pairs: f.pairs.clone() };
    let choices = vec![true, false, true, true];
    let out = ot_transfer(&offer, &choices).unwrap();
    for i in 0..4 {
        let expect = if choices[i] { f.pairs[i].one } else { f.pairs[i].zero };
        assert_eq!(out[i], expect);
    }
    let err = ot_transfer(&offer, &vec![true]).unwrap_err();
    assert_eq!(err, DeapError::TransferError);
}

#[test]
fn even_offset_rejected() {
    let err = FullLabelSet::new(42, vec![1, 2, 3]).unwrap_err();
    assert_eq!(err, DeapError::ConfigMismatch);
}

#[test]
fn bad_circuit_shape_rejected() {
    // gate reads a wire that does not exist yet
    let gates = vec![Gate::Xor { a: 0, b: 5 }];
    let err = Circuit::new(vec![2], gates, vec![2]).unwrap_err();
    assert_eq!(err, DeapError::ConfigMismatch);
    // output wire out of range
    let err = Circuit::new(vec![2], vec![], vec![7]).unwrap_err();
    assert_eq!(err, DeapError::ConfigMismatch);
}

#[test]
fn cleartext_and_blind_groups_flow() {
    // group 0: leader's, group 1: follower's, group 2: public cleartext,
    // group 3: blind (no value, fixed false). Circuit outputs one bit per
    // group wire so the assignment is visible in the result.
    let gates: Vec<Gate> = Vec::new();
    let circ = Circuit::new(vec![1, 1, 1, 1], gates, vec![0, 1, 2, 3]).unwrap();
    let mut rng = Rng(13);
    let (mut leader, mut follower) = mock_deap_pair(&circ);
    let fl = gen_labels(&mut rng, 4);
    let ff = gen_labels(&mut rng, 4);
    let li = InputValue { group: 0, bits: vec![true] };
    let fi = InputValue { group: 1, bits: vec![false] };
    let clear = InputValue { group: 2, bits: vec![true] };
    let clear2 = InputValue { group: 2, bits: vec![true] };
    let lout = leader
        .setup_inputs(fl, vec![li], vec![1], vec![clear], vec![3])
        .unwrap();
    let fout = follower
        .setup_inputs(ff, vec![fi], vec![0], vec![clear2], vec![3])
        .unwrap();
    let l_ot = ot_transfer(&fout.offer, &lout.choices).unwrap();
    let f_ot = ot_transfer(&lout.offer, &fout.choices).unwrap();
    leader.finish_setup(fout.msg, l_ot).unwrap();
    follower.finish_setup(lout.msg, f_ot).unwrap();
    let l_g = leader.execute(1).unwrap();
    let f_g = follower.execute(2).unwrap();
    leader.finish_execute(f_g).unwrap();
    follower.finish_execute(l_g).unwrap();
    let l_c = leader.commit_check(3).unwrap();
    let f_c = follower.commit_check(4).unwrap();
    let l_r = leader.reveal_check(f_c).unwrap();
    let f_r = follower.reveal_check(l_c).unwrap();
    let l_out = leader.verify(f_r).unwrap();
    let f_out = follower.verify(l_r).unwrap();
    assert_eq!(l_out, vec![true, false, true, false]);
    assert_eq!(l_out, f_out);
}

#[test]
fn consumed_states_are_not_reusable() {
    // Every transition consumes its phase: repeating a completed step is
    // rejected as a sequencing error.
    let circ = adder_circuit(8);
    let mut rng = Rng(21);
    let (mut leader, mut follower) = mock_deap_pair(&circ);
    let fl = gen_labels(&mut rng, circ.input_len());
    let fl2 = gen_labels(&mut rng, circ.input_len());
    let ff = gen_labels(&mut rng, circ.input_len());
    let li = InputValue { group: 0, bits: u64_bits(1, 8) };
    let li2 = InputValue { group: 0, bits: u64_bits(1, 8) };
    let fi = InputValue { group: 1, bits: u64_bits(2, 8) };
    let lout = leader.setup_inputs(fl, vec![li], vec![1], vec![], vec![]).unwrap();
    let err = leader
        .setup_inputs(fl2, vec![li2], vec![1], vec![], vec![])
        .unwrap_err();
    assert_eq!(err, DeapError::SequencingError);
    let fout = follower.setup_inputs(ff, vec![fi], vec![0], vec![], vec![]).unwrap();
    let l_ot = ot_transfer(&fout.offer, &lout.choices).unwrap();
    let f_ot = ot_transfer(&lout.offer, &fout.choices).unwrap();
    leader.finish_setup(fout.msg, l_ot).unwrap();
    follower.finish_setup(lout.msg, f_ot).unwrap();
    let l_g = leader.execute(1).unwrap();
    assert_eq!(leader.execute(1).unwrap_err(), DeapError::SequencingError);
    let f_g = follower.execute(2).unwrap();
    leader.finish_execute(f_g).unwrap();
    follower.finish_execute(l_g).unwrap();
    let l_c = leader.commit_check(3).unwrap();
    assert_eq!(leader.commit_check(3).unwrap_err(), DeapError::SequencingError);
    let f_c = follower.commit_check(4).unwrap();
    let l_r = leader.reveal_check(f_c).unwrap();
    let f_r = follower.reveal_check(l_c).unwrap();
    let l_out = leader.verify(f_r).unwrap();
    let f_out = follower.verify(l_r).unwrap();
    assert_eq!(bits_u64(&l_out), 3);
    assert_eq!(l_out, f_out);
    // terminal: even a verified session accepts no further operation
    assert_eq!(leader.commit_check(9).unwrap_err(), DeapError::SequencingError);
}
