//! Classification of place identifiers into their kind.
//!
//! An identifier whose colon-split form has at least four parts is cut down
//! to those four, rejoined, and its first part looked up in a fixed table;
//! any other identifier — and any unknown first part — silently falls back
//! to the stop kind and keeps the identifier untouched. The asymmetry
//! between the rejoined and the untouched form is an upstream quirk that is
//! preserved exactly.

use vstd::prelude::*;

use crate::text::{split_on, split_str, str_eq};

verus! {

/// The kind of a located place.
#[derive(Clone, Copy, Debug, PartialEq, Eq, Hash, Structural)]
pub enum PoiType {
    Stop,
    Address,
    Coords,
    Poi,
}

/// A classified place identifier: the identifier to store and its kind.
#[derive(Clone, Debug, PartialEq, Eq, Hash)]
pub struct PoiId {
    pub id: String,
    pub kind: PoiType,
}

/// The first four colon-separated parts rejoined with colons.
pub open spec fn join_colon4(ps: Seq<Seq<char>>) -> Seq<char> {
    ps[0] + seq![':'] + ps[1] + seq![':'] + ps[2] + seq![':'] + ps[3]
}

/// The identifier that classification stores: the four-part canonical form
/// when the table matches, the original identifier otherwise.
pub open spec fn classified_id(id: Seq<char>) -> Seq<char> {
    let ps = split_on(id, ':');
    if ps.len() >= 4 && (ps[0] == "streetID"@ || ps[0] == "coord"@ || ps[0] == "poiID"@) {
        join_colon4(ps)
    } else {
        id
    }
}

/// The kind that classification assigns.
pub open spec fn classified_kind(id: Seq<char>) -> PoiType {
    let ps = split_on(id, ':');
    if ps.len() >= 4 {
        if ps[0] == "streetID"@ {
            PoiType::Address
        } else if ps[0] == "coord"@ {
            PoiType::Coords
        } else if ps[0] == "poiID"@ {
            PoiType::Poi
        } else {
            PoiType::Stop
        }
    } else {
        PoiType::Stop
    }
}

impl PoiId {
    /// Classifies an identifier, exactly as [`classified_id`] and
    /// [`classified_kind`] state. Classification never fails: the unknown
    /// case is a deliberate, silent fallback to the stop kind.
    pub fn from_str(id: &str) -> (r: PoiId)
        ensures
            r.id@ == classified_id(id@),
            r.kind == classified_kind(id@),
    {
        let parts = split_str(id, ':');
        if parts.len() >= 4 {
            let kind = if str_eq(parts[0].as_str(), "streetID") {
                Some(PoiType::Address)
            } else if str_eq(parts[0].as_str(), "coord") {
                Some(PoiType::Coords)
            } else if str_eq(parts[0].as_str(), "poiID") {
                Some(PoiType::Poi)
            } else {
                None
            };
            proof {
                assert(parts.deep_view()[0] == parts@[0]@);
            }
            match kind {
                Some(k) => {
                    let mut joined = String::new();
                    joined.append(parts[0].as_str());
                    joined.append(":");
                    joined.append(parts[1].as_str());
                    joined.append(":");
                    joined.append(parts[2].as_str());
                    joined.append(":");
                    joined.append(parts[3].as_str());
                    proof {
                        reveal_strlit(":");
                        assert(":"@ =~= seq![':']);
                        let ps = split_on(id@, ':');
                        assert(parts.deep_view()[1] == parts@[1]@);
                        assert(parts.deep_view()[2] == parts@[2]@);
                        assert(parts.deep_view()[3] == parts@[3]@);
                        assert(joined@ =~= join_colon4(ps));
                    }
                    return PoiId { id: joined, kind: k };
                },
                None => {
                    return PoiId { id: id.to_owned(), kind: PoiType::Stop };
                },
            }
        }
        PoiId { id: id.to_owned(), kind: PoiType::Stop }
    }
}

} // verus!
