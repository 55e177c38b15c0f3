//! Decision logic of a Proof-of-Model miner.
//!
//! A miner walks pseudo-randomly over the weights of a language model, and wins when the value at
//! the end of the walk is at most the network's target.
pub mod bytes;
pub mod devfund;
pub mod download;
pub mod emu64;
pub mod endpoint;
pub mod install;
pub mod ios;
pub mod journal;
pub mod layout;
pub mod metal_worker;
pub mod mining_loop;
pub mod mining_worker;
pub mod order;
pub mod paths;
pub mod pom_gpu;
pub mod pom_gpu_metal;
pub mod registry;
pub mod tensors;
pub mod text;
pub mod walk;
