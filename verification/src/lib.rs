//! A best-effort-made-reliable message transport over datagrams: per-peer
//! sequencing, acknowledgment-bitfield tracking, timeout-based retransmission
//! bookkeeping, wire framing, peer liveness, and a small chat relay policy.
//!
//! Everything here is pure bookkeeping over plain values: the caller owns the
//! socket and the clock and hands in received bytes and timestamps.

pub mod acks;
pub mod byte_ops;
pub mod codec;
pub mod connections;
pub mod dispatch;
pub mod outbound;
pub mod params;
pub mod pending;
pub mod sequencer;
pub mod str_ops;
pub mod table;
pub mod types;
