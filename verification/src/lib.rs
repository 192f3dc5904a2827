//! Verified core of a rocket-test flight computer (FC).
//!
//! The FC sits between a remote control server and a fleet of data-acquisition
//! boards.  This crate holds the decision logic of that runtime, proved with
//! Verus: the data model and vehicle state, the sensor-ingest and
//! unit-conversion path with its valve-state estimator, the switchboard's
//! liveness and handshake tracking, the command router, the sequence pool with
//! its single-abort discipline, the operator-message state machine, the
//! telemetry forwarder's cadence, and the wire codec for every frame the
//! computer reads or writes.
//!
//! Physical quantities are carried as fixed-point integers in thousandths of
//! the underlying unit (millivolts, milliamps, milli-psi, and so on).  The
//! unverified shell around this crate converts raw readings to and from that
//! representation at the edges and performs all socket I/O.
use vstd::prelude::*;

pub mod codec;
pub mod comm;
pub mod forwarding;
pub mod ingest;
pub mod kv;
pub mod machine;
pub mod sequences;
pub mod state;
pub mod switchboard;

verus! {

/// TCP port the control server listens on.
pub const SERVO_PORT: u16 = 5025;

/// UDP port the FC binds for board ingress.
pub const BOARD_INGRESS_PORT: u16 = 4573;

/// UDP port boards listen on for actuation commands and heartbeats.
pub const SAM_PORT: u16 = 8378;

/// UDP port the server receives telemetry snapshots on.
pub const TELEMETRY_PORT: u16 = 7201;

/// Period between outbound heartbeats, in milliseconds.
pub const HEARTBEAT_PERIOD_MS: u64 = 50;

/// Milliseconds of board silence after which the board is declared dead.
pub const TIME_TIL_DEATH_MS: u64 = 50;

/// Size of the buffer a control message is serialized into.
pub const COMMAND_MESSAGE_BUFFER_SIZE: usize = 1024;

/// The flight computer's own board identifier, sent in handshake replies.
pub fn fc_board_id() -> (r: String)
    ensures
        r@ == "flight-01"@,
{
    String::from_str("flight-01")
}

} // verus!
