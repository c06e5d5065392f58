//! Core of a two-way bridge between a GRANDPA-finalised chain and Ethereum.
//!
//! The library holds the rules that the bridge's proofs and its beacon light
//! client rest on, each stated as a contract over plain values: bit and byte
//! layouts, SSZ Merkle branches, trie node formats, pre-commit selection, the
//! light-client state machine and the relayer's era bookkeeping.
//!
//! Every statement that a circuit proves is a function here: it takes what
//! the prover knows, tells whether a proof exists, and returns what the proof
//! exposes. Digests and signature checks come from cryptographic crates and
//! are known to the contracts by name only.

pub mod bits;
pub mod consts;
pub mod field;
pub mod hashing;
pub mod signature;
pub mod common;
pub mod targets;
pub mod beacon;
pub mod merkle;
pub mod light_client;
pub mod validator_set_hash;
pub mod block_finality;
pub mod storage_inclusion;
pub mod relayer;
pub mod historical_proxy;
