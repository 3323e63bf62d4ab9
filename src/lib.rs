//! A proof-of-work mining engine: the nonce search, the choice of a reward
//! pool and of epoch resets, the packing of instructions into fee-paid
//! transaction chunks, and the round-level decisions of a mining session.
pub mod chunk;
pub mod coord;
pub mod keys;
pub mod search;
pub mod session;
