//! The decision-making core of a framework for programs that run as many
//! processes spread over many machines.
//!
//! Everything in this crate computes on plain values. Sockets, file
//! descriptors, processes and threads belong to the programs around it, which
//! hand in what happened and carry out what comes back.

pub mod args;
pub mod bridge;
pub mod cargo;
pub mod channel;
pub mod console;
pub mod deploy;
pub mod descriptors;
pub mod envs;
pub mod error;
pub mod event;
pub mod exit;
pub mod fabric;
pub mod format;
pub mod harness;
pub mod heap;
pub mod hex;
pub mod kube;
pub mod launch;
pub mod master;
pub mod mesh;
pub mod monitor;
pub mod msg;
pub mod net;
pub mod owning;
pub mod pid;
pub mod pool;
pub mod rand_stream;
pub mod resources;
pub mod session;
pub mod startup;
pub mod style;
pub mod text;
pub mod transfer;
pub mod units;
pub mod wait;
