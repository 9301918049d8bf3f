//! Shared types, the wire format of the messages exchanged between the
//! simulator (the leader) and the intercepted applications (the followers),
//! and the decision logic of the deterministic network time simulator.

pub mod addr;
pub mod addrmap;
pub mod bytes;
pub mod config;
pub mod cstr;
pub mod gml;
pub mod leader;
pub mod message;
pub mod scheduler;
pub mod timestamp;
pub mod topology;

pub use addr::{Ipv4AddrC, Ipv6AddrC};
pub use config::{last_failure, Config, ConfigError, Process, Removal, TomlValue};
pub use cstr::validate_cstr_contents;
pub use leader::{Leader, LeaderError, Phase, Step};
pub use message::{deserialize_rust, serialize_rust, Buffer, Message};
pub use scheduler::{sent_matches, Reply, Scheduler, State};
pub use timestamp::TimestampActions;
pub use topology::{Link, LinkAddresses, NetworkTopology, TopologyError};

use vstd::prelude::*;

verus! {

/// The fixed size of the buffer used for IPC messages via Posix Message Queues.
pub const SIZE_BUFFER: usize = 27;

} // verus!
