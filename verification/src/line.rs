//! Classification of line names into transport modes.
//!
//! A purely numeric name is classified by its number range; anything else
//! runs through a fixed sequence of pattern checks — on-call services
//! first, then replacement buses and trams, trains, the cable cars known
//! by name, ferries, city trains, and finally the regional-bus fallback
//! for any name holding a non-digit.

use vstd::prelude::*;

use crate::digits::is_digit;
use crate::text::{contains_sub, find_sub, str_eq};

verus! {

/// The mode of transport a line name stands for.
#[derive(Eq, PartialEq, Debug, Hash, Clone, Structural)]
pub enum TransportMode {
    Tram,
    Bus,
    Regionalbus,
    Cablecar,
    Ferry,
    Train,
    CityTrain,
    OnCallBus,
    Unknown,
}

/// A line: its display name and the mode classified from it.
#[derive(Eq, PartialEq, Debug, Hash, Clone)]
pub struct Line {
    pub identifier: String,
    pub mode: TransportMode,
}

/// A replacement-bus name: `E`, then `V` and a digit one to nine, or a
/// digit six to nine and another digit.
pub open spec fn bus_pattern(s: Seq<char>) -> bool {
    s.len() >= 3 && s[0] == 'E' && ((s[1] == 'V' && '1' <= s[2] && s[2] <= '9') || ('6' <= s[1]
        && s[1] <= '9' && is_digit(s[2])))
}

/// A replacement-tram name: `E` then a digit one to nine.
pub open spec fn tram_pattern(s: Seq<char>) -> bool {
    s.len() >= 2 && s[0] == 'E' && '1' <= s[1] && s[1] <= '9'
}

/// A train name: one of the known two-letter openings, or `U` and a digit.
pub open spec fn train_pattern(s: Seq<char>) -> bool {
    s.len() >= 2 && ((s[0] == 'R' && s[1] == 'E') || (s[0] == 'I' && s[1] == 'C') || (s[0] == 'T'
        && s[1] == 'L') || (s[0] == 'R' && s[1] == 'B') || (s[0] == 'S' && s[1] == 'B') || (s[0]
        == 'S' && s[1] == 'E') || (s[0] == 'U' && is_digit(s[1])))
}

/// Whether any character of `s` is not a digit.
pub open spec fn has_non_digit(s: Seq<char>) -> bool {
    exists|i: int| 0 <= i < s.len() && !is_digit(#[trigger] s[i])
}

/// The mode of a name that is not a plain number in the routed ranges:
/// the pattern checks in their fixed order.
pub open spec fn text_mode_of(s: Seq<char>) -> TransportMode {
    if contains_sub(s, "alita"@) {
        TransportMode::OnCallBus
    } else if bus_pattern(s) {
        TransportMode::Bus
    } else if tram_pattern(s) {
        TransportMode::Tram
    } else if train_pattern(s) {
        TransportMode::Train
    } else if s == "E"@ {
        TransportMode::Tram
    } else if s == "Seil-/Schwebebahn"@ || s == "SWB"@ {
        TransportMode::Cablecar
    } else if s.len() >= 1 && s[0] == 'F' {
        TransportMode::Ferry
    } else if s.len() >= 1 && s[0] == 'S' {
        TransportMode::CityTrain
    } else if has_non_digit(s) {
        TransportMode::Regionalbus
    } else {
        TransportMode::Unknown
    }
}

/// The mode of any line name: trams up to sixty, buses up to
/// ninety-nine, regional buses up to a thousand, and the pattern checks
/// for everything else.
pub open spec fn mode_of(s: Seq<char>) -> TransportMode {
    match crate::digits::parse_u32_spec(s) {
        Some(v) => if v <= 60 {
            TransportMode::Tram
        } else if v <= 99 {
            TransportMode::Bus
        } else if v <= 1000 {
            TransportMode::Regionalbus
        } else {
            text_mode_of(s)
        },
        None => text_mode_of(s),
    }
}

/// Classifies a line name, exactly as [`mode_of`] states.
pub fn classify_mode(s: &str) -> (m: TransportMode)
    ensures
        m == mode_of(s@),
{
    match crate::digits::parse_u32(s) {
        Some(v) => {
            if v <= 60 {
                return TransportMode::Tram;
            }
            if v <= 99 {
                return TransportMode::Bus;
            }
            if v <= 1000 {
                return TransportMode::Regionalbus;
            }
            classify_text_mode(s)
        },
        None => classify_text_mode(s),
    }
}

fn classify_text_mode(s: &str) -> (m: TransportMode)
    ensures
        m == text_mode_of(s@),
{
    let n = s.unicode_len();
    if find_sub(s, "alita") {
        return TransportMode::OnCallBus;
    }
    if n >= 3 && s.get_char(0) == 'E' {
        let c1 = s.get_char(1);
        let c2 = s.get_char(2);
        if (c1 == 'V' && '1' <= c2 && c2 <= '9') || ('6' <= c1 && c1 <= '9' && '0' <= c2 && c2
            <= '9') {
            return TransportMode::Bus;
        }
    }
    if n >= 2 && s.get_char(0) == 'E' {
        let c1 = s.get_char(1);
        if '1' <= c1 && c1 <= '9' {
            return TransportMode::Tram;
        }
    }
    if n >= 2 {
        let c0 = s.get_char(0);
        let c1 = s.get_char(1);
        if (c0 == 'R' && c1 == 'E') || (c0 == 'I' && c1 == 'C') || (c0 == 'T' && c1 == 'L') || (c0
            == 'R' && c1 == 'B') || (c0 == 'S' && c1 == 'B') || (c0 == 'S' && c1 == 'E') || (c0
            == 'U' && '0' <= c1 && c1 <= '9') {
            return TransportMode::Train;
        }
    }
    if str_eq(s, "E") {
        return TransportMode::Tram;
    }
    if str_eq(s, "Seil-/Schwebebahn") || str_eq(s, "SWB") {
        return TransportMode::Cablecar;
    }
    if n >= 1 && s.get_char(0) == 'F' {
        return TransportMode::Ferry;
    }
    if n >= 1 && s.get_char(0) == 'S' {
        return TransportMode::CityTrain;
    }
    let all_dig = crate::digits::check_all_digits(s, 0, n);
    proof {
        assert(s@.subrange(0, n as int) =~= s@);
    }
    if all_dig {
        proof {
            assert(!has_non_digit(s@));
        }
        TransportMode::Unknown
    } else {
        proof {
            assert(has_non_digit(s@));
        }
        TransportMode::Regionalbus
    }
}

/// A departure drawn from the widget monitor's row format: the line, the
/// direction, and the wait in whole seconds.
#[derive(Eq, PartialEq, Debug)]
pub struct Departure {
    pub line: Line,
    pub direction: String,
    pub eta_seconds: u64,
}

impl Departure {
    /// A departure from a monitor row's parts: the line name, the
    /// direction, and the wait in whole minutes. Answers nothing when the
    /// wait in seconds does not fit the field.
    pub fn from_parts(line_name: &str, direction: &str, minutes: u64) -> (r: Option<Departure>)
        ensures
            match r {
                Some(d) => minutes * 60 <= u64::MAX && d.line.identifier@ == line_name@
                    && d.line.mode == mode_of(line_name@) && d.direction@ == direction@
                    && d.eta_seconds == minutes * 60,
                None => minutes * 60 > u64::MAX,
            },
    {
        if minutes > u64::MAX / 60 {
            proof {
                assert(minutes * 60 > u64::MAX) by (nonlinear_arith)
                    requires
                        minutes > u64::MAX / 60,
                        u64::MAX == (u64::MAX / 60) * 60 + u64::MAX % 60,
                        u64::MAX % 60 < 60,
                ;
            }
            return None;
        }
        proof {
            assert(minutes * 60 <= u64::MAX) by (nonlinear_arith)
                requires
                    minutes <= u64::MAX / 60,
                    u64::MAX == (u64::MAX / 60) * 60 + u64::MAX % 60,
                    u64::MAX % 60 >= 0,
            ;
        }
        Some(
            Departure {
                line: Line { identifier: line_name.to_owned(), mode: classify_mode(line_name) },
                direction: direction.to_owned(),
                eta_seconds: minutes * 60,
            },
        )
    }
}

impl From<&str> for Line {
    /// Classifies `s` and keeps it as the identifier.
    fn from(s: &str) -> (r: Line)
        ensures
            r.identifier@ == s@,
            r.mode == mode_of(s@),
    {
        Line { identifier: s.to_owned(), mode: classify_mode(s) }
    }
}

// A `Line` holds owned text, which spec code cannot build from a borrowed
// name, so `from` carries its contract directly and the trait-level spec
// stays disabled.
impl vstd::std_specs::convert::FromSpecImpl<&str> for Line {
    open spec fn obeys_from_spec() -> bool {
        false
    }

    open spec fn from_spec(s: &str) -> Line {
        vstd::pervasive::arbitrary()
    }
}

impl From<&str> for TransportMode {
    /// Classifies `s` as [`mode_of`] states.
    fn from(s: &str) -> (r: TransportMode) {
        classify_mode(s)
    }
}

impl vstd::std_specs::convert::FromSpecImpl<&str> for TransportMode {
    open spec fn obeys_from_spec() -> bool {
        true
    }

    open spec fn from_spec(s: &str) -> TransportMode {
        mode_of(s@)
    }
}

} // verus!
