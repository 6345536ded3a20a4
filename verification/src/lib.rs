//! An adaptive transport protocol over UDP: the packet format, priority
//! scheduling, connections and streams, congestion control, retransmission,
//! network emulation, the server's handling of packets, the client's command
//! language, the protocol state machines and the per-path result reports.
use vstd::prelude::*;

pub mod packet;
pub mod text;
pub mod scheduler;
pub mod lifecycle;
pub mod connection;
pub mod congestion;
pub mod metrics;
pub mod features;
pub mod emulator;
pub mod sender;
pub mod server;
pub mod client;
pub mod mp_report;
pub mod multipath;
pub mod experiment;
pub mod telemetry;

