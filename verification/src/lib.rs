//! Client-side codecs and grouping logic for Dresden's public transport
//! (VVO/DVB) web services.
//!
//! The heart of the crate is a pair of wire codecs — the `/Date(...)/`
//! timestamp encoding and the pipe-delimited point-record encoding — together
//! with the place-kind classifier, the transport-mode classifier for line
//! names, and the grouping of route segments under slug keys. Each of these
//! carries a contract stating exactly what it parses, prints or groups.

pub mod common;
pub mod digits;
pub mod error;
pub mod find;
pub mod line;
pub mod lines;
pub mod monitor;
pub mod poi;
pub mod point;
pub mod route;
pub mod route_changes;
pub mod slug;
pub mod station;
pub mod text;
pub mod time;
pub mod trip;
pub mod util;

pub use crate::common::{DvbResponse, Mot};
pub use crate::error::ParseError;
pub use crate::time::DvbTime;
