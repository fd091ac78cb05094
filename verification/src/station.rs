//! The station-search endpoint: its request URL and the grouping of its
//! result rows by city.
//!
//! The endpoint answers rows of station name, city and stop identifier;
//! callers want them keyed by city, with every row kept in answer order
//! under its city. The multimap that holds the grouping comes from the
//! `multimap` crate and is used through trusted wrappers.

use vstd::prelude::*;

use multimap::MultiMap;

use crate::digits::{append_dec_u64, dec_rep};

verus! {

/// API URL for stations.
pub const URL: &'static str = "http://widgets.vvo-online.de/abfahrtsmonitor/Haltestelle.do";

/// A station query: the station name to search, the city, and the result
/// limit.
#[derive(Debug)]
pub struct Station<'a> {
    pub station: &'a str,
    pub city: &'a str,
    pub lim: u32,
}

/// The query URL the endpoint expects for this search.
pub open spec fn url_rep(station: Seq<char>, city: Seq<char>, lim: nat) -> Seq<char> {
    "http://widgets.vvo-online.de/abfahrtsmonitor/Haltestelle.do"@ + "?ort="@ + city + "&hst="@
        + station + "&lim="@ + dec_rep(lim)
}

impl<'a> Station<'a> {
    /// A new search for `name`, in Dresden, with the default limit of
    /// three results.
    pub fn new(name: &'a str) -> (r: Station<'a>)
        ensures
            r.station@ == name@,
            r.city@ == "Dresden"@,
            r.lim == 3,
    {
        Station { station: name, city: "Dresden", lim: 3 }
    }

    /// The same search in another city.
    pub fn city(self, city: &'a str) -> (r: Station<'a>)
        ensures
            r.station@ == self.station@,
            r.city@ == city@,
            r.lim == self.lim,
    {
        Station { city, ..self }
    }

    /// The URL this search queries, exactly as [`url_rep`] states.
    pub fn url(&self) -> (r: String)
        ensures
            r@ == url_rep(self.station@, self.city@, self.lim as nat),
    {
        let mut out = String::new();
        out.append("http://widgets.vvo-online.de/abfahrtsmonitor/Haltestelle.do");
        out.append("?ort=");
        out.append(self.city);
        out.append("&hst=");
        out.append(self.station);
        out.append("&lim=");
        append_dec_u64(&mut out, self.lim as u64);
        proof {
            assert(out@ =~= url_rep(self.station@, self.city@, self.lim as nat));
        }
        out
    }
}

#[verifier::external_type_specification]
#[verifier::external_body]
#[verifier::reject_recursive_types(K)]
#[verifier::reject_recursive_types(V)]
#[verifier::reject_recursive_types(S)]
pub struct ExMultiMap<K, V, S>(MultiMap<K, V, S>);

/// What a station multimap holds: for each city, the station name and
/// stop identifier of every row filed under it, in insertion order.
pub uninterp spec fn station_map_entries(m: MultiMap<String, (String, String)>) -> Map<
    Seq<char>,
    Seq<(Seq<char>, Seq<char>)>,
>;

/// Relies on `multimap::MultiMap::new`: a fresh multimap holds nothing.
#[verifier::external_body]
fn station_map_new() -> (m: MultiMap<String, (String, String)>)
    ensures
        forall|k: Seq<char>| !(#[trigger] station_map_entries(m).dom().contains(k)),
{
    MultiMap::new()
}

/// Relies on `multimap::MultiMap::insert`: the value is pushed onto the
/// vector held under the key, a missing key starting from the empty
/// vector.
#[verifier::external_body]
fn station_map_insert(m: &mut MultiMap<String, (String, String)>, k: String, v: (String, String))
    ensures
        station_map_entries(*final(m)) == ({
            let prev = station_map_entries(*old(m));
            let row = if prev.dom().contains(k@) {
                prev[k@]
            } else {
                Seq::<(Seq<char>, Seq<char>)>::empty()
            };
            prev.insert(k@, row.push((v.0@, v.1@)))
        }),
{
    m.insert(k, v);
}

/// The rows of a result list as character sequences: station name, city,
/// stop identifier.
pub open spec fn rows_view(rows: Seq<(String, String, String)>) -> Seq<
    (Seq<char>, Seq<char>, Seq<char>),
> {
    Seq::new(rows.len(), |i: int| (rows[i].0@, rows[i].1@, rows[i].2@))
}

/// The grouping of rows by city, each city holding its rows' station
/// names and identifiers in row order.
pub open spec fn grouped_rows(rows: Seq<(Seq<char>, Seq<char>, Seq<char>)>) -> Map<
    Seq<char>,
    Seq<(Seq<char>, Seq<char>)>,
>
    decreases rows.len(),
{
    if rows.len() == 0 {
        Map::empty()
    } else {
        let prev = grouped_rows(rows.drop_last());
        let r = rows.last();
        let row = if prev.dom().contains(r.1) {
            prev[r.1]
        } else {
            Seq::<(Seq<char>, Seq<char>)>::empty()
        };
        prev.insert(r.1, row.push((r.0, r.2)))
    }
}

/// Groups result rows — station name, city, stop identifier — into a
/// multimap keyed by city, exactly as [`grouped_rows`] states: no row is
/// dropped, and each city's rows keep their order.
pub fn station_results(rows: &Vec<(String, String, String)>) -> (m: MultiMap<
    String,
    (String, String),
>)
    ensures
        station_map_entries(m) == grouped_rows(rows_view(rows@)),
{
    let mut m = station_map_new();
    let n = rows.len();
    let mut i: usize = 0;
    proof {
        assert(rows_view(rows@.subrange(0, 0)) =~= Seq::<(Seq<char>, Seq<char>, Seq<char>)>::empty());
        assert(station_map_entries(m) =~~= grouped_rows(rows_view(rows@.subrange(0, 0))));
    }
    while i < n
        invariant
            0 <= i <= n == rows@.len(),
            station_map_entries(m) =~~= grouped_rows(rows_view(rows@.subrange(0, i as int))),
        decreases n - i,
    {
        let station = rows[i].0.clone();
        let city = rows[i].1.clone();
        let id = rows[i].2.clone();
        station_map_insert(&mut m, city, (station, id));
        proof {
            let p = rows_view(rows@.subrange(0, i as int));
            let p1 = rows_view(rows@.subrange(0, i as int + 1));
            assert(p1.drop_last() =~= p);
            assert(p1.last() == (rows@[i as int].0@, rows@[i as int].1@, rows@[i as int].2@));
            assert(station_map_entries(m) =~~= grouped_rows(p1));
        }
        i = i + 1;
    }
    proof {
        assert(rows@.subrange(0, n as int) =~= rows@);
    }
    m
}

} // verus!
