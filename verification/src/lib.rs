//! Host control library for the medius mouse-passthrough box: the verified core.
//!
//! The wire-level decisions of the host side live here: option and lock encodings, the
//! rewrite/transform validation and table room, the desired-state record that keepalive and
//! reconnect re-assert and the frames that re-send it, the catch-table collapse and the frames that move the box between tables,
//! event routing, the input edge decoder, reply correlation, the handshake and rescan verdicts, the
//! restart and keepalive decisions, the firmware-update chunk plan, the clip encoder, and the
//! movement pacer's accumulator, tick grid and metrics.

pub mod bytes;
pub mod keyed;
pub mod text;

pub mod opcode;
pub mod types;
pub mod error;
pub mod config;
pub mod counters;

pub mod catch;
pub mod catch_table;
pub mod catch_registry;
pub mod route;
pub mod input;

pub mod lockrow;
pub mod lockrules;
pub mod rewrite;
pub mod transform;
pub mod rules;
pub mod room;
pub mod reconcile;
pub mod replay;

pub mod raw;
pub mod clip;
pub mod update;
pub mod flash;

pub mod discover;
pub mod connect;
pub mod correlation;
pub mod restart;
pub mod keepalive;

pub mod pacer;
pub mod clock;
pub mod metrics;
pub mod mock;
pub mod mock_update;
