//! Dual Execution with Asymmetric Privacy (DEAP) over boolean garbled
//! circuits: two mutually-distrusting parties jointly compute a function
//! over private inputs, each garbling the shared circuit and evaluating
//! the peer's garbling, with a commit/reveal equality check that gates
//! release of the decoded output.
//!
//! - [`circuit`]: boolean circuits and their clear evaluation, the
//!   reference semantics every protocol output is held to.
//! - [`label`]: wire labels, free-XOR label pairs and full label sets.
//! - [`commit`]: byte encodings, digests, commitments and per-gate pads.
//! - [`garble`]: garbling, evaluation and decoding, with the proof that
//!   evaluating an honest garbling yields the garbler's labels for the
//!   circuit's clear values.
//! - [`session`]: the protocol engine — input setup over cleartext and
//!   oblivious-transfer label delivery, dual garble/evaluate, and the
//!   commit/reveal equality check — as one phase-tagged state machine.
//! - [`deap`]: the leader and follower roles over that engine.
//! - [`laws`]: the protocol-level theorems — honest sessions agree with
//!   the circuit, acceptance pins the peer's reveal, reveals expose
//!   active labels only.
//! - [`error`], [`config`], [`prover_state`]: errors, notary
//!   configuration, and prover state markers.

pub mod circuit;
pub mod commit;
pub mod config;
pub mod deap;
pub mod error;
pub mod garble;
pub mod label;
pub mod laws;
pub mod prover_state;
pub mod session;
