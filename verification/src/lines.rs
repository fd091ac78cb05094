//! Lines serving a stop: trams, buses and their directions.

use vstd::prelude::*;

use crate::common::Mot;

verus! {

/// How a mode of transport presents itself.
#[derive(Debug)]
pub struct Mode {
    pub title: String,
    pub name: String,
    pub icon_url: Option<String>,
}

/// A line's network and number.
#[derive(Debug)]
pub struct Diva {
    pub network: String,
    pub number: Option<String>,
}

/// The lines serving a stop.
#[derive(Debug)]
pub struct Lines {
    pub lines: Vec<Line>,
}

/// One line: its name, mode, current changes and directions.
#[derive(Debug)]
pub struct Line {
    pub name: String,
    pub mot: Mot,
    pub mode: Option<Mode>,
    pub changes: Vec<String>,
    pub diva: Diva,
    pub directions: Vec<Direction>,
}

/// One direction of a line and its timetables.
#[derive(Debug)]
pub struct Direction {
    pub name: String,
    pub time_tables: Vec<TimeTable>,
}

/// A timetable's identifier and name.
#[derive(Debug)]
pub struct TimeTable {
    pub id: String,
    pub name: String,
}

} // verus!
