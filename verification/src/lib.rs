//! The decision logic of a distributed self-play collector for banqi (dark chess).
//!
//! A collector asks a scheduler for work, plays games with the network that it was handed, and
//! uploads what it recorded. This crate holds the part of that which computes and decides: the
//! binary layout of training records, the plan that follows from a scheduler's reply, the
//! lock-step bookkeeping of batched self-play, and the checks on configuration and cached weights.
//! Files, sockets, threads and the game engine stay outside; they hand in plain values.
//!
//! Single-precision numbers appear here as their bit patterns (see [`episode::F32Bits`]).

pub mod batch;
pub mod batched;
pub mod bits;
pub mod codec;
pub mod codec_error;
pub mod collector;
pub mod config;
pub mod episode;
pub mod features;
pub mod finalize;
pub mod frames;
pub mod integrity;
pub mod meminfo;
pub mod messages;
pub mod nnue_codec;
pub mod outcome;
pub mod paths;
pub mod reading;
pub mod reanalysis;
pub mod reanalysis_payload;
pub mod records;
pub mod recovery;
pub mod registry;
pub mod rule_opponents;
pub mod search;
pub mod soundness;
pub mod task;
pub mod text;
pub mod upload;
pub mod wire;
