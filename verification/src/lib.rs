//! Group key agreement engine for end-to-end encrypted group messaging.
//!
//! The crate holds the protocol core: arithmetic on the flattened binary
//! tree ([`treemath`]), the ratchet tree of member keys ([`ratchet_tree`]),
//! the per-epoch key schedule ([`key_schedule`]), the secret tree of one-time
//! message keys ([`secret_tree`]) with a bounded store of past epochs
//! ([`message_secrets`]), message framing ([`framing`]) and its wire format
//! ([`wire`]), and the stage/merge state machine that moves a group from one
//! epoch to the next ([`group`], with the transition spelled out over plain
//! values in [`transition`]). What holds of the engine as a whole is stated
//! and proved in [`laws`].
//!
//! Cryptographic primitives come from the `openmls_rust_crypto` provider and
//! are reached through the contracts in [`crypto`], which are stated, not
//! proved.

pub mod bytes;
pub mod client;
pub mod crypto;
pub mod errors;
pub mod framing;
pub mod group;
pub mod key_package;
pub mod key_schedule;
pub mod laws;
pub mod message_secrets;
pub mod proposals;
pub mod ratchet_tree;
pub mod secret_tree;
pub mod transition;
pub mod treemath;
pub mod welcome;
pub mod wire;
