//! The departure monitor: upcoming departures at a stop.

use vstd::prelude::*;

use crate::common::{ArrivalState, Mot};
use crate::text::str_eq;
use crate::time::DvbTime;

verus! {

/// One upcoming departure.
#[derive(Debug)]
pub struct Departure {
    pub id: String,
    pub line_name: String,
    pub direction: String,
    pub mot: Mot,
    pub real_time: Option<DvbTime>,
    pub state: Option<ArrivalState>,
    pub route_changes: Option<Vec<String>>,
}

/// The monitor's answer: the stop's name and place, and its departures.
#[derive(Debug)]
pub struct DepartureMonitor {
    pub name: Option<String>,
    pub place: Option<String>,
    pub departures: Option<Vec<Departure>>,
}

impl DepartureMonitor {
    /// The first departure of the line named `line_name`, or nothing when
    /// no departure of that line is listed (or none are listed at all).
    #[verifier::loop_isolation(false)]
    pub fn next_line<'a>(&'a self, line_name: &str) -> (r: Option<&'a Departure>)
        ensures
            match self.departures {
                Some(ref deps) => match r {
                    Some(d) => exists|i: int|
                        0 <= i < deps@.len() && *d == deps@[i] && (#[trigger] deps@[i]).line_name@
                            == line_name@ && (forall|j: int|
                            0 <= j < i ==> (#[trigger] deps@[j]).line_name@ != line_name@),
                    None => forall|i: int|
                        0 <= i < deps@.len() ==> (#[trigger] deps@[i]).line_name@ != line_name@,
                },
                None => r is None,
            },
    {
        match &self.departures {
            Some(deps) => {
                let n = deps.len();
                let mut i: usize = 0;
                while i < n
                    invariant
                        0 <= i <= n == deps@.len(),
                        forall|j: int|
                            0 <= j < i ==> (#[trigger] deps@[j]).line_name@ != line_name@,
                    decreases n - i,
                {
                    if str_eq(deps[i].line_name.as_str(), line_name) {
                        return Some(&deps[i]);
                    }
                    i = i + 1;
                }
                None
            },
            None => None,
        }
    }
}

/// Parameters of a departure-monitor query.
#[derive(Debug, Default)]
pub struct Params<'a> {
    /// The stop to monitor.
    pub stopid: &'a str,
    /// Maximum number of departures to return.
    pub limit: Option<u32>,
    /// Time for the departure query.
    pub time: Option<&'a str>,
    /// If true, time is interpreted as arrival time.
    pub isarrival: Option<bool>,
    /// Include short-term changes.
    pub shorttermchanges: Option<bool>,
    /// Filter by mode of transport.
    pub mot: Option<&'a [Mot]>,
}

} // verus!
