//! Control core of a single-node process supervisor that steers loopback
//! load balancing between old and new versions of its children.
pub mod accounting;
pub mod auth;
pub mod config;
pub mod control;
pub mod events;
pub mod health;
pub mod housekeeping;
pub mod identity;
pub mod invariants;
pub mod ipvs;
pub mod launch;
pub mod laws;
pub mod limiter;
pub mod model;
pub mod naming;
pub mod ports;
pub mod preservation;
pub mod process;
pub mod search;
pub mod state;
pub mod steady;
pub mod supervisor;
pub mod text;
pub mod unique;
pub mod validation;

pub use crate::control::{ClientRequest, ClientResponse};
pub use crate::events::{get_entire_log, log_event, EventLog, LogEvent, ProcessStatus};
pub use crate::limiter::{rate_limit, RateLimiter};
pub use crate::ports::{allocate_port, release_port};
pub use crate::naming::get_counter;
pub use crate::state::GlobalState;
