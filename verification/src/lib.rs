//! Coordinator core for a multi-party trusted-setup ceremony.
//!
//! Untrusted contributors and verifiers jointly build an append-only chain of
//! cryptographic contributions over successive rounds. This crate holds the
//! trust anchor of that process: the round/queue/chunk-lock state machine that
//! decides who may contribute when, enforces the contribute-then-verify
//! ordering, advances rounds, and recovers cleanly when a participant
//! disappears mid-round. The cryptographic computation itself, artifact
//! storage, and the network layer are external collaborators; the core only
//! tracks state, hands out typed errors, and reports which artifact locators
//! become invalid on a drop.

pub mod coordinator;
pub mod environment;
pub mod participant;
pub mod testing;
