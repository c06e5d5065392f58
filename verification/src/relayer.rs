//! What the relayer decides between its calls to the two chains.

pub mod block_listener;
pub mod message_sender;
pub mod replay_back;
