//! A single trip and its stops.

use vstd::prelude::*;

use crate::time::DvbTime;

verus! {

/// The platform a trip calls at.
#[derive(Debug)]
pub struct Platform {
    pub name: String,
    pub kind: String,
}

/// Where a stop lies on the trip relative to the vehicle.
#[derive(Clone, Copy, Debug, PartialEq, Eq, Structural)]
pub enum Position {
    Previous,
    Current,
    Next,
}

/// One stop of a trip.
#[derive(Debug)]
pub struct Stop {
    pub id: String,
    pub name: String,
    pub place: String,
    pub platform: Platform,
    pub latitude: i64,
    pub longitude: i64,
    pub position: Position,
    pub scheduled_time: Option<bool>,
    pub time: DvbTime,
}

/// A trip: its stops in order.
#[derive(Debug)]
pub struct Trip {
    pub stops: Vec<Stop>,
}

/// Parameters of a trip-details query.
#[derive(Debug)]
pub struct Params<'a> {
    /// The trip to query.
    pub tripid: &'a str,
    /// The time for which to fetch trip details.
    pub time: DvbTime,
    /// The stop the trip is viewed from.
    pub stopid: &'a str,
    /// Whether to include map data.
    pub mapdata: Option<bool>,
}

} // verus!
