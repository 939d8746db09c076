//! The core of a permissioned, Byzantine-fault-tolerant consensus engine
//! that orders blocks in a chain: leader election, votes and certificates
//! under a stake threshold, and the state machine of one node.
//!
//! Every numbered view has one leader, who proposes a leaf on top of a
//! certified leaf. Replicas sign votes over the canonical bytes of what they
//! vote on; the leader of the next view gathers the votes until their stake
//! reaches the threshold and a certificate forms. Three certified leaves of
//! views in a row decide the oldest of them.
//!
//! - [`data`], [`vote`], [`message`], [`certificate`]: what is voted on and
//!   what travels.
//! - [`signature_key`], [`election`]: what a signature scheme and an
//!   election have to offer; [`stake`] and [`static_committee`]: an
//!   election with fixed stake.
//! - [`exchange`]: signing, checking and gathering votes for one committee.
//! - [`chain`], [`consensus`]: the leaves a node knows and what the node
//!   does when something happens.
//! - [`safety`]: what holds of every run of a node and of every two
//!   certificates; [`agreement`]: why what the nodes decide is one chain.
//! - [`bytes`], [`wire`]: canonical bytes.

pub mod agreement;
pub mod bytes;
pub mod certificate;
pub mod chain;
pub mod consensus;
pub mod data;
pub mod election;
pub mod exchange;
pub mod message;
pub mod safety;
pub mod signature_key;
pub mod stake;
pub mod static_committee;
pub mod vote;
pub mod wire;
