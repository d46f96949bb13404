use vstd::prelude::*;

use crate::circuit::{same_circuit, wf_circuit, Circuit};
use crate::commit::{commit_of, pairs_bytes};
use crate::error::DeapError;
use crate::garble::{
    decode_bits_of, decode_spec, deep, eval_output_labels, garble_tables, output_pairs,
    wf_gc_shape,
};
use crate::label::{wf_full, FullLabelSet};
use crate::session::{
    assemble, check_accepts, check_payload, count_true, full_of, inv, same_garbling, same_output,
    same_setup, setup_established, setup_ok, CheckCommit, CheckReveal, GarbleMsg, InputValue,
    Phase, Session, SetupMsg, SetupOutput,
};

verus! {

/// The leader role of the protocol: the party whose verified output is
/// protected even against a malicious peer, which can at worst force an
/// abort. It drives the same symmetric phase sequence as the follower.
pub struct DEAPLeader {
    pub session: Session,
}

impl DEAPLeader {
    /// A fresh DEAPLeaderWORD over a shared circuit.
    pub fn new(circ: Circuit) -> (r: DEAPLeader)
        requires
            wf_circuit(circ),
        ensures
            inv(r.session),
            r.session.phase == Phase::Initialized,
            r.session.circ == circ,
    {
        DEAPLeader { session: Session::new(circ) }
    }

    /// Declare inputs and start setup; see `Session::setup_inputs`.
    pub fn setup_inputs(
        &mut self,
        full: FullLabelSet,
        own: Vec<InputValue>,
        peer_groups: Vec<usize>,
        cleartext: Vec<InputValue>,
        blind: Vec<usize>,
    ) -> (r: Result<SetupOutput, DeapError>)
        requires
            inv(old(self).session),
            wf_full(full),
        ensures
            inv(final(self).session),
            old(self).session.phase != Phase::Initialized ==> (r matches Err(e) && e
                == DeapError::SequencingError && *final(self) == *old(self)),
            old(self).session.phase == Phase::Initialized ==> {
                let okc = setup_ok(
                    old(self).session.circ,
                    full,
                    own@,
                    peer_groups@,
                    cleartext@,
                    blind@,
                );
                &&& !okc ==> (r matches Err(e) && e == DeapError::ConfigMismatch && final(self).session.phase == Phase::Aborted && final(self).session.circ == old(self).session.circ && final(self).session.full is None)
                &&& okc ==> (r matches Ok(out) && setup_established(
                    old(self).session,
                    final(self).session,
                    full,
                    own@,
                    peer_groups@,
                    cleartext@,
                    blind@,
                    out,
                ))
            },
    {
        self.session.setup_inputs(full, own, peer_groups, cleartext, blind)
    }

    /// Complete input setup; see `Session::finish_setup`.
    pub fn finish_setup(&mut self, peer_msg: SetupMsg, ot_labels: Vec<u64>) -> (r: Result<
        (),
        DeapError,
    >)
        requires
            inv(old(self).session),
        ensures
            inv(final(self).session),
            old(self).session.phase != Phase::SetupSent ==> (r matches Err(e) && e
                == DeapError::SequencingError && *final(self) == *old(self)),
            old(self).session.phase == Phase::SetupSent ==> {
                let good = peer_msg.labels@.len() == old(self).session.circ.input_len
                    && ot_labels@.len() == count_true(
                    old(self).session.is_own@,
                    old(self).session.circ.input_len as int,
                );
                &&& good ==> (r matches Ok(u) && final(self).session.phase == Phase::Setup && final(self).session.active@ == assemble(
                    old(self).session.is_own@,
                    peer_msg.labels@,
                    ot_labels@,
                    old(self).session.circ.input_len as int,
                ) && final(self).session.circ == old(self).session.circ && final(self).session.full
                    == old(self).session.full && final(self).session.is_own@ == old(self).session.is_own@ && final(self).session.bits@ == old(self).session.bits@)
                &&& !good ==> (r matches Err(e) && e == DeapError::TransferError && final(self).session.phase == Phase::Aborted)
            },
    {
        self.session.finish_setup(peer_msg, ot_labels)
    }

    /// Garble and commit; see `Session::execute`.
    pub fn execute(&mut self, pair_nonce: u64) -> (r: Result<GarbleMsg, DeapError>)
        requires
            inv(old(self).session),
        ensures
            inv(final(self).session),
            old(self).session.phase != Phase::Setup ==> (r matches Err(e) && e
                == DeapError::SequencingError && *final(self) == *old(self)),
            old(self).session.phase == Phase::Setup ==> (r matches Ok(msg) && {
                let c = old(self).session.circ;
                let f = full_of(old(self).session);
                &&& deep(msg.gc.tables@) == garble_tables(c, f)
                &&& msg.decode_bits@ == decode_bits_of(c, f)
                &&& msg.pair_commit@ == commit_of(pairs_bytes(output_pairs(c, f)), pair_nonce)
                &&& final(self).session.phase == Phase::GarbleSent
                &&& final(self).session.own_pairs@ == output_pairs(c, f)
                &&& final(self).session.own_pair_commit@ == msg.pair_commit@
                &&& final(self).session.circ == old(self).session.circ
                &&& final(self).session.full == old(self).session.full
                &&& final(self).session.active@ == old(self).session.active@
            }),
    {
        self.session.execute(pair_nonce)
    }

    /// Evaluate the peer's garbling; see `Session::finish_execute`.
    pub fn finish_execute(&mut self, peer: GarbleMsg) -> (r: Result<(), DeapError>)
        requires
            inv(old(self).session),
        ensures
            inv(final(self).session),
            old(self).session.phase != Phase::GarbleSent ==> (r matches Err(e) && e
                == DeapError::SequencingError && *final(self) == *old(self)),
            old(self).session.phase == Phase::GarbleSent ==> {
                let c = old(self).session.circ;
                let good = wf_gc_shape(deep(peer.gc.tables@), c) && peer.decode_bits@.len()
                    == c.output_wires@.len();
                &&& good ==> (r matches Ok(u) && {
                    &&& final(self).session.phase == Phase::Executed
                    &&& final(self).session.evaluated@ == eval_output_labels(
                        c,
                        deep(peer.gc.tables@),
                        old(self).session.active@,
                    )
                    &&& final(self).session.decoded@ == decode_spec(
                        final(self).session.evaluated@,
                        peer.decode_bits@,
                    )
                    &&& final(self).session.peer_pair_commit@ == peer.pair_commit@
                    &&& same_setup(final(self).session, old(self).session)
                    &&& same_garbling(final(self).session, old(self).session)
                })
                &&& !good ==> (r matches Err(e) && e == DeapError::ChannelError && final(self).session.phase == Phase::Aborted)
            },
    {
        self.session.finish_execute(peer)
    }

    /// Commit to the equality-check value; see `Session::commit_check`.
    pub fn commit_check(&mut self, nonce: u64) -> (r: Result<CheckCommit, DeapError>)
        requires
            inv(old(self).session),
        ensures
            inv(final(self).session),
            old(self).session.phase != Phase::Executed ==> (r matches Err(e) && e
                == DeapError::SequencingError && *final(self) == *old(self)),
            old(self).session.phase == Phase::Executed ==> (r matches Ok(msg) && {
                &&& msg.digest@ == commit_of(
                    check_payload(
                        old(self).session.decoded@,
                        old(self).session.evaluated@,
                        old(self).session.own_pair_commit@,
                        old(self).session.peer_pair_commit@,
                    ),
                    nonce,
                )
                &&& final(self).session.phase == Phase::Committed
                &&& final(self).session.check_nonce == nonce
                &&& same_setup(final(self).session, old(self).session)
                &&& same_garbling(final(self).session, old(self).session)
                &&& same_output(final(self).session, old(self).session)
            }),
    {
        self.session.commit_check(nonce)
    }

    /// Record the peer's commitment and reveal; see `Session::reveal_check`.
    pub fn reveal_check(&mut self, peer_commit: CheckCommit) -> (r: Result<CheckReveal, DeapError>)
        requires
            inv(old(self).session),
        ensures
            inv(final(self).session),
            old(self).session.phase != Phase::Committed ==> (r matches Err(e) && e
                == DeapError::SequencingError && *final(self) == *old(self)),
            old(self).session.phase == Phase::Committed ==> (r matches Ok(msg) && {
                &&& msg.bits@ == old(self).session.decoded@
                &&& msg.labels@ == old(self).session.evaluated@
                &&& msg.nonce == old(self).session.check_nonce
                &&& final(self).session.phase == Phase::Revealed
                &&& final(self).session.peer_check_digest@ == peer_commit.digest@
                &&& same_setup(final(self).session, old(self).session)
                &&& same_garbling(final(self).session, old(self).session)
                &&& same_output(final(self).session, old(self).session)
            }),
    {
        self.session.reveal_check(peer_commit)
    }

    /// Check the peer's reveal and release the output; see
    /// `Session::verify`.
    pub fn verify(&mut self, reveal: CheckReveal) -> (r: Result<Vec<bool>, DeapError>)
        requires
            inv(old(self).session),
        ensures
            inv(final(self).session),
            old(self).session.phase != Phase::Revealed ==> (r matches Err(e) && e
                == DeapError::SequencingError && *final(self) == *old(self)),
            old(self).session.phase == Phase::Revealed ==> {
                let acc = check_accepts(
                    reveal.bits@,
                    reveal.labels@,
                    reveal.nonce,
                    old(self).session.peer_check_digest@,
                    old(self).session.peer_pair_commit@,
                    old(self).session.own_pair_commit@,
                    old(self).session.decoded@,
                    old(self).session.own_pairs@,
                );
                &&& acc ==> (r matches Ok(out) && out@ == old(self).session.decoded@ && final(self).session.phase == Phase::Verified)
                &&& !acc ==> (r matches Err(e) && e == DeapError::AuthenticityError && final(self).session.phase == Phase::Aborted)
            },
    {
        self.session.verify(reveal)
    }

    /// Abort the session; see `Session::abort`.
    pub fn abort(&mut self)
        ensures
            final(self).session.phase == Phase::Aborted,
            final(self).session.full is None,
            inv(old(self).session) ==> inv(final(self).session),
    {
        self.session.abort()
    }
}

/// The follower role of the protocol: it runs the same phase sequence and
/// the same equality check as the leader, under the complementary trust
/// assumption of dual execution's asymmetric privacy.
pub struct DEAPFollower {
    pub session: Session,
}

impl DEAPFollower {
    /// A fresh DEAPFollowerWORD over a shared circuit.
    pub fn new(circ: Circuit) -> (r: DEAPFollower)
        requires
            wf_circuit(circ),
        ensures
            inv(r.session),
            r.session.phase == Phase::Initialized,
            r.session.circ == circ,
    {
        DEAPFollower { session: Session::new(circ) }
    }

    /// Declare inputs and start setup; see `Session::setup_inputs`.
    pub fn setup_inputs(
        &mut self,
        full: FullLabelSet,
        own: Vec<InputValue>,
        peer_groups: Vec<usize>,
        cleartext: Vec<InputValue>,
        blind: Vec<usize>,
    ) -> (r: Result<SetupOutput, DeapError>)
        requires
            inv(old(self).session),
            wf_full(full),
        ensures
            inv(final(self).session),
            old(self).session.phase != Phase::Initialized ==> (r matches Err(e) && e
                == DeapError::SequencingError && *final(self) == *old(self)),
            old(self).session.phase == Phase::Initialized ==> {
                let okc = setup_ok(
                    old(self).session.circ,
                    full,
                    own@,
                    peer_groups@,
                    cleartext@,
                    blind@,
                );
                &&& !okc ==> (r matches Err(e) && e == DeapError::ConfigMismatch && final(self).session.phase == Phase::Aborted && final(self).session.circ == old(self).session.circ && final(self).session.full is None)
                &&& okc ==> (r matches Ok(out) && setup_established(
                    old(self).session,
                    final(self).session,
                    full,
                    own@,
                    peer_groups@,
                    cleartext@,
                    blind@,
                    out,
                ))
            },
    {
        self.session.setup_inputs(full, own, peer_groups, cleartext, blind)
    }

    /// Complete input setup; see `Session::finish_setup`.
    pub fn finish_setup(&mut self, peer_msg: SetupMsg, ot_labels: Vec<u64>) -> (r: Result<
        (),
        DeapError,
    >)
        requires
            inv(old(self).session),
        ensures
            inv(final(self).session),
            old(self).session.phase != Phase::SetupSent ==> (r matches Err(e) && e
                == DeapError::SequencingError && *final(self) == *old(self)),
            old(self).session.phase == Phase::SetupSent ==> {
                let good = peer_msg.labels@.len() == old(self).session.circ.input_len
                    && ot_labels@.len() == count_true(
                    old(self).session.is_own@,
                    old(self).session.circ.input_len as int,
                );
                &&& good ==> (r matches Ok(u) && final(self).session.phase == Phase::Setup && final(self).session.active@ == assemble(
                    old(self).session.is_own@,
                    peer_msg.labels@,
                    ot_labels@,
                    old(self).session.circ.input_len as int,
                ) && final(self).session.circ == old(self).session.circ && final(self).session.full
                    == old(self).session.full && final(self).session.is_own@ == old(self).session.is_own@ && final(self).session.bits@ == old(self).session.bits@)
                &&& !good ==> (r matches Err(e) && e == DeapError::TransferError && final(self).session.phase == Phase::Aborted)
            },
    {
        self.session.finish_setup(peer_msg, ot_labels)
    }

    /// Garble and commit; see `Session::execute`.
    pub fn execute(&mut self, pair_nonce: u64) -> (r: Result<GarbleMsg, DeapError>)
        requires
            inv(old(self).session),
        ensures
            inv(final(self).session),
            old(self).session.phase != Phase::Setup ==> (r matches Err(e) && e
                == DeapError::SequencingError && *final(self) == *old(self)),
            old(self).session.phase == Phase::Setup ==> (r matches Ok(msg) && {
                let c = old(self).session.circ;
                let f = full_of(old(self).session);
                &&& deep(msg.gc.tables@) == garble_tables(c, f)
                &&& msg.decode_bits@ == decode_bits_of(c, f)
                &&& msg.pair_commit@ == commit_of(pairs_bytes(output_pairs(c, f)), pair_nonce)
                &&& final(self).session.phase == Phase::GarbleSent
                &&& final(self).session.own_pairs@ == output_pairs(c, f)
                &&& final(self).session.own_pair_commit@ == msg.pair_commit@
                &&& final(self).session.circ == old(self).session.circ
                &&& final(self).session.full == old(self).session.full
                &&& final(self).session.active@ == old(self).session.active@
            }),
    {
        self.session.execute(pair_nonce)
    }

    /// Evaluate the peer's garbling; see `Session::finish_execute`.
    pub fn finish_execute(&mut self, peer: GarbleMsg) -> (r: Result<(), DeapError>)
        requires
            inv(old(self).session),
        ensures
            inv(final(self).session),
            old(self).session.phase != Phase::GarbleSent ==> (r matches Err(e) && e
                == DeapError::SequencingError && *final(self) == *old(self)),
            old(self).session.phase == Phase::GarbleSent ==> {
                let c = old(self).session.circ;
                let good = wf_gc_shape(deep(peer.gc.tables@), c) && peer.decode_bits@.len()
                    == c.output_wires@.len();
                &&& good ==> (r matches Ok(u) && {
                    &&& final(self).session.phase == Phase::Executed
                    &&& final(self).session.evaluated@ == eval_output_labels(
                        c,
                        deep(peer.gc.tables@),
                        old(self).session.active@,
                    )
                    &&& final(self).session.decoded@ == decode_spec(
                        final(self).session.evaluated@,
                        peer.decode_bits@,
                    )
                    &&& final(self).session.peer_pair_commit@ == peer.pair_commit@
                    &&& same_setup(final(self).session, old(self).session)
                    &&& same_garbling(final(self).session, old(self).session)
                })
                &&& !good ==> (r matches Err(e) && e == DeapError::ChannelError && final(self).session.phase == Phase::Aborted)
            },
    {
        self.session.finish_execute(peer)
    }

    /// Commit to the equality-check value; see `Session::commit_check`.
    pub fn commit_check(&mut self, nonce: u64) -> (r: Result<CheckCommit, DeapError>)
        requires
            inv(old(self).session),
        ensures
            inv(final(self).session),
            old(self).session.phase != Phase::Executed ==> (r matches Err(e) && e
                == DeapError::SequencingError && *final(self) == *old(self)),
            old(self).session.phase == Phase::Executed ==> (r matches Ok(msg) && {
                &&& msg.digest@ == commit_of(
                    check_payload(
                        old(self).session.decoded@,
                        old(self).session.evaluated@,
                        old(self).session.own_pair_commit@,
                        old(self).session.peer_pair_commit@,
                    ),
                    nonce,
                )
                &&& final(self).session.phase == Phase::Committed
                &&& final(self).session.check_nonce == nonce
                &&& same_setup(final(self).session, old(self).session)
                &&& same_garbling(final(self).session, old(self).session)
                &&& same_output(final(self).session, old(self).session)
            }),
    {
        self.session.commit_check(nonce)
    }

    /// Record the peer's commitment and reveal; see `Session::reveal_check`.
    pub fn reveal_check(&mut self, peer_commit: CheckCommit) -> (r: Result<CheckReveal, DeapError>)
        requires
            inv(old(self).session),
        ensures
            inv(final(self).session),
            old(self).session.phase != Phase::Committed ==> (r matches Err(e) && e
                == DeapError::SequencingError && *final(self) == *old(self)),
            old(self).session.phase == Phase::Committed ==> (r matches Ok(msg) && {
                &&& msg.bits@ == old(self).session.decoded@
                &&& msg.labels@ == old(self).session.evaluated@
                &&& msg.nonce == old(self).session.check_nonce
                &&& final(self).session.phase == Phase::Revealed
                &&& final(self).session.peer_check_digest@ == peer_commit.digest@
                &&& same_setup(final(self).session, old(self).session)
                &&& same_garbling(final(self).session, old(self).session)
                &&& same_output(final(self).session, old(self).session)
            }),
    {
        self.session.reveal_check(peer_commit)
    }

    /// Check the peer's reveal and release the output; see
    /// `Session::verify`.
    pub fn verify(&mut self, reveal: CheckReveal) -> (r: Result<Vec<bool>, DeapError>)
        requires
            inv(old(self).session),
        ensures
            inv(final(self).session),
            old(self).session.phase != Phase::Revealed ==> (r matches Err(e) && e
                == DeapError::SequencingError && *final(self) == *old(self)),
            old(self).session.phase == Phase::Revealed ==> {
                let acc = check_accepts(
                    reveal.bits@,
                    reveal.labels@,
                    reveal.nonce,
                    old(self).session.peer_check_digest@,
                    old(self).session.peer_pair_commit@,
                    old(self).session.own_pair_commit@,
                    old(self).session.decoded@,
                    old(self).session.own_pairs@,
                );
                &&& acc ==> (r matches Ok(out) && out@ == old(self).session.decoded@ && final(self).session.phase == Phase::Verified)
                &&& !acc ==> (r matches Err(e) && e == DeapError::AuthenticityError && final(self).session.phase == Phase::Aborted)
            },
    {
        self.session.verify(reveal)
    }

    /// Abort the session; see `Session::abort`.
    pub fn abort(&mut self)
        ensures
            final(self).session.phase == Phase::Aborted,
            final(self).session.full is None,
            inv(old(self).session) ==> inv(final(self).session),
    {
        self.session.abort()
    }
}

/// A connected leader/follower pair over one circuit, for in-process
/// sessions: both roles hold the same topology and start initialized. The
/// caller plays the channel, passing each role's messages to the other.
pub fn mock_deap_pair(circ: &Circuit) -> (r: (DEAPLeader, DEAPFollower))
    requires
        wf_circuit(*circ),
    ensures
        inv(r.0.session),
        inv(r.1.session),
        r.0.session.phase == Phase::Initialized,
        r.1.session.phase == Phase::Initialized,
        same_circuit(r.0.session.circ, *circ),
        same_circuit(r.1.session.circ, *circ),
{
    (DEAPLeader::new(circ.duplicate()), DEAPFollower::new(circ.duplicate()))
}

} // verus!
