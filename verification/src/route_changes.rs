//! Route changes and service disruptions.

use vstd::prelude::*;

use crate::common::Mot;
use crate::time::DvbTime;

verus! {

/// When a change is in force.
#[derive(Debug)]
pub struct ValidityPeriod {
    pub begin: Option<DvbTime>,
    pub end: Option<DvbTime>,
}

/// One announced change or disruption.
#[derive(Debug)]
pub struct Change {
    pub id: Option<String>,
    pub title: Option<String>,
    pub description: Option<String>,
    pub kind: Option<String>,
    pub trip_request_include: Option<bool>,
    pub publish_date: Option<DvbTime>,
    pub line_ids: Vec<String>,
    pub validity_periods: Vec<ValidityPeriod>,
}

/// A service banner shown alongside changes.
#[derive(Debug)]
pub struct Banner {
    pub title: Option<String>,
    pub description: Option<String>,
    pub kind: Option<String>,
    pub modified_time: Option<DvbTime>,
    pub trip_request_include: Option<bool>,
}

/// A line's network and number.
#[derive(Debug)]
pub struct Diva {
    pub number: Option<String>,
    pub network: Option<String>,
}

/// A line affected by changes.
#[derive(Debug)]
pub struct Line {
    pub id: Option<String>,
    pub name: Option<String>,
    pub mot: Option<Mot>,
    pub transportation_company: Option<String>,
    pub divas: Vec<Diva>,
}

/// The change listing: changes, banners and affected lines.
#[derive(Debug)]
pub struct RouteChanges {
    pub changes: Vec<Change>,
    pub banners: Vec<Banner>,
    pub lines: Vec<Line>,
}

/// The lines affected by changes.
#[derive(Debug)]
pub struct RouteChangeLines {
    pub lines: Vec<Line>,
}

/// Parameters of a change query.
#[derive(Debug, Default)]
pub struct Params<'a> {
    /// Include short-term changes.
    pub shortterm: Option<bool>,
    /// Provider filter.
    pub provider: Option<&'a str>,
    /// Response format.
    pub format: Option<&'a str>,
}

/// Parameters of an affected-lines query.
#[derive(Debug, Default)]
pub struct LinesParams<'a> {
    /// Provider filter.
    pub provider: Option<&'a str>,
    /// Response format.
    pub format: Option<&'a str>,
}

} // verus!
