//! The pipe-delimited point-record encoding.
//!
//! A record line is split on `|`; the identifier, city, name and the two
//! coordinates sit at fixed positions, and the identifier's leading part
//! classifies the record's kind. Encoding reassembles the six meaningful
//! fields around fixed structural placeholders — the empty second field and
//! the trailing `0||` — which the upstream grammar requires on every line.

use vstd::prelude::*;

use crate::digits::{
    dec_rep, dec_rep_int, is_digit, lemma_dec_rep_digits, lemma_dec_rep_val, parse_i64,
    parse_i64_spec,
};
use crate::error::ParseError;
use crate::poi::{classified_kind, PoiId, PoiType};
use crate::text::{lemma_split_head, lemma_split_single, split_on, split_str};

verus! {

/// A located, named place, as one result line of the upstream point
/// finder decodes.
#[derive(Debug)]
pub struct Point {
    pub id: String,
    pub city: String,
    pub name: String,
    pub coords: (i64, i64),
    pub kind: PoiType,
}

/// The mathematical content of a [`Point`]: its texts as character
/// sequences, its coordinates and its kind.
pub struct PointView {
    pub id: Seq<char>,
    pub city: Seq<char>,
    pub name: Seq<char>,
    pub x: i64,
    pub y: i64,
    pub kind: PoiType,
}

impl View for Point {
    type V = PointView;

    open spec fn view(&self) -> PointView {
        PointView {
            id: self.id@,
            city: self.city@,
            name: self.name@,
            x: self.coords.0,
            y: self.coords.1,
            kind: self.kind,
        }
    }
}

/// What decoding a record line yields: the fields at positions 0, 2, 3, 4
/// and 5 of the pipe-split line, the kind classified from the identifier,
/// a format error when fewer than six fields exist, and an integer error
/// when a coordinate does not read as a signed 64-bit number.
pub open spec fn parse_point(s: Seq<char>) -> Result<PointView, ParseError> {
    let ps = split_on(s, '|');
    if ps.len() < 6 {
        Err(ParseError::Format)
    } else {
        match (parse_i64_spec(ps[4]), parse_i64_spec(ps[5])) {
            (Some(x), Some(y)) => Ok(
                PointView {
                    id: ps[0],
                    city: ps[2],
                    name: ps[3],
                    x: x,
                    y: y,
                    kind: classified_kind(ps[0]),
                },
            ),
            _ => Err(ParseError::IntegerParse),
        }
    }
}

/// What encoding prints: the fields around the fixed placeholders, as
/// `{id}||{city}|{name}|{x}|{y}|0||`.
pub open spec fn render_point(v: PointView) -> Seq<char> {
    v.id + seq!['|', '|'] + v.city + seq!['|'] + v.name + seq!['|'] + dec_rep_int(v.x as int)
        + seq!['|'] + dec_rep_int(v.y as int) + seq!['|', '0', '|', '|']
}

impl Point {
    /// Decodes a record line, exactly as [`parse_point`] states.
    pub fn from_str(s: &str) -> (r: Result<Point, ParseError>)
        ensures
            match r {
                Ok(p) => parse_point(s@) == Ok::<PointView, ParseError>(p@),
                Err(e) => parse_point(s@) == Err::<PointView, ParseError>(e),
            },
    {
        let parts = split_str(s, '|');
        if parts.len() < 6 {
            return Err(ParseError::Format);
        }
        proof {
            assert(parts.deep_view()[0] == parts@[0]@);
            assert(parts.deep_view()[2] == parts@[2]@);
            assert(parts.deep_view()[3] == parts@[3]@);
            assert(parts.deep_view()[4] == parts@[4]@);
            assert(parts.deep_view()[5] == parts@[5]@);
        }
        let x = match parse_i64(parts[4].as_str()) {
            Some(v) => v,
            None => {
                return Err(ParseError::IntegerParse);
            },
        };
        let y = match parse_i64(parts[5].as_str()) {
            Some(v) => v,
            None => {
                return Err(ParseError::IntegerParse);
            },
        };
        let classified = PoiId::from_str(parts[0].as_str());
        let p = Point {
            id: parts[0].clone(),
            city: parts[2].clone(),
            name: parts[3].clone(),
            coords: (x, y),
            kind: classified.kind,
        };
        Ok(p)
    }

    /// Encodes this record as a line, exactly as [`render_point`] states.
    pub fn encode(&self) -> (r: String)
        ensures
            r@ == render_point(self@),
    {
        proof {
            reveal_strlit("||");
            reveal_strlit("|");
            reveal_strlit("|0||");
        }
        let mut out = String::new();
        out.append(self.id.as_str());
        out.append("||");
        out.append(self.city.as_str());
        out.append("|");
        out.append(self.name.as_str());
        out.append("|");
        crate::digits::append_dec_i64(&mut out, self.coords.0);
        out.append("|");
        crate::digits::append_dec_i64(&mut out, self.coords.1);
        out.append("|0||");
        proof {
            assert(out@ =~= render_point(self@));
        }
        out
    }
}

/// The one response format the point finder speaks.
#[derive(Clone, Copy, Debug, PartialEq, Eq, Structural)]
pub enum Format {
    Json,
}

impl Default for Format {
    fn default() -> (r: Self)
        ensures
            r == Format::Json,
    {
        Format::Json
    }
}

/// Parameters of a point-finder query.
#[derive(Debug)]
pub struct Config<'a> {
    pub query: &'a str,
    pub limit: Option<u32>,
    pub stops_only: bool,
    pub assigedstops: bool,
    pub dvb: bool,
    pub format: Format,
}

impl<'a> Default for Config<'a> {
    /// An empty query over the provider's own network, answered as JSON.
    fn default() -> (r: Self)
        ensures
            r.query@ == Seq::<char>::empty(),
            r.limit is None,
            !r.stops_only,
            !r.assigedstops,
            r.dvb,
            r.format == Format::Json,
    {
        proof {
            reveal_strlit("");
        }
        Config {
            query: "",
            limit: None,
            stops_only: false,
            assigedstops: false,
            dvb: true,
            format: Format::Json,
        }
    }
}

/// A point-finder answer: the decoded points and their status.
#[derive(Debug)]
pub struct Found {
    pub point_status: String,
    pub points: Vec<Point>,
}

/// No character of a decimal form is a pipe.
proof fn lemma_dec_rep_int_no_pipe(n: int)
    ensures
        forall|x: int|
            0 <= x < dec_rep_int(n).len() ==> #[trigger] dec_rep_int(n)[x] != '|',
{
    if n < 0 {
        lemma_dec_rep_digits((-n) as nat);
        assert forall|x: int|
            0 <= x < dec_rep_int(n).len() implies #[trigger] dec_rep_int(n)[x] != '|' by {
            if x == 0 {
                assert(dec_rep_int(n)[0] == '-');
            } else {
                assert(dec_rep_int(n)[x] == dec_rep((-n) as nat)[x - 1]);
                assert(is_digit(dec_rep((-n) as nat)[x - 1]));
            }
        }
    } else {
        lemma_dec_rep_digits(n as nat);
        assert forall|x: int|
            0 <= x < dec_rep_int(n).len() implies #[trigger] dec_rep_int(n)[x] != '|' by {
            assert(is_digit(dec_rep(n as nat)[x]));
        }
    }
}

/// The decimal form of a signed 64-bit value reads back as that value.
proof fn lemma_parse_dec_i64(n: i64)
    ensures
        parse_i64_spec(dec_rep_int(n as int)) == Some(n),
{
    if n < 0 {
        let m = (-(n as int)) as nat;
        lemma_dec_rep_digits(m);
        lemma_dec_rep_val(m);
        let s = dec_rep_int(n as int);
        assert(s == seq!['-'] + dec_rep(m));
        assert(s[0] == '-');
        assert(s.subrange(1, s.len() as int) =~= dec_rep(m));
        assert(m <= 0x8000_0000_0000_0000);
    } else {
        let m = n as nat;
        lemma_dec_rep_digits(m);
        lemma_dec_rep_val(m);
        let s = dec_rep_int(n as int);
        assert(s == dec_rep(m));
        assert(is_digit(s[0]));
        assert(s[0] != '-' && s[0] != '+');
        assert(m <= 0x7fff_ffff_ffff_ffff);
    }
}

/// Law: a record whose text fields are free of the field separator and
/// whose kind agrees with its identifier's classification decodes from its
/// own encoding unchanged — for every kind, stop, address, coordinate and
/// point of interest alike.
///
/// Fields other than the six meaningful ones are not preserved: encoding
/// never emits them, which is the format's own lossy edge.
pub proof fn lemma_point_round_trip(v: PointView)
    requires
        forall|x: int| 0 <= x < v.id.len() ==> #[trigger] v.id[x] != '|',
        forall|x: int| 0 <= x < v.city.len() ==> #[trigger] v.city[x] != '|',
        forall|x: int| 0 <= x < v.name.len() ==> #[trigger] v.name[x] != '|',
        classified_kind(v.id) == v.kind,
    ensures
        parse_point(render_point(v)) == Ok::<PointView, ParseError>(v),
{
    let s = render_point(v);
    let dx = dec_rep_int(v.x as int);
    let dy = dec_rep_int(v.y as int);
    lemma_dec_rep_int_no_pipe(v.x as int);
    lemma_dec_rep_int_no_pipe(v.y as int);
    let empty = Seq::<char>::empty();
    let zero = seq!['0'];
    // peel the nine fields off one separator at a time
    let t7 = empty;
    let t6 = zero + seq!['|'] + (empty + seq!['|'] + t7);
    let t5 = dy + seq!['|'] + t6;
    let t4 = dx + seq!['|'] + t5;
    let t3 = v.name + seq!['|'] + t4;
    let t2 = v.city + seq!['|'] + t3;
    let t1 = empty + seq!['|'] + t2;
    let t0 = v.id + seq!['|'] + t1;
    assert(s =~= t0);
    lemma_split_single(t7, '|');
    lemma_split_head(empty, '|', t7);
    lemma_split_head(zero, '|', empty + seq!['|'] + t7);
    lemma_split_head(dy, '|', t6);
    lemma_split_head(dx, '|', t5);
    lemma_split_head(v.name, '|', t4);
    lemma_split_head(v.city, '|', t3);
    lemma_split_head(empty, '|', t2);
    lemma_split_head(v.id, '|', t1);
    let ps = split_on(s, '|');
    assert(ps =~= seq![v.id, empty, v.city, v.name, dx, dy, zero, empty, empty]);
    assert(ps.len() == 9);
    assert(ps[0] == v.id);
    assert(ps[2] == v.city);
    assert(ps[3] == v.name);
    assert(ps[4] == dx);
    assert(ps[5] == dy);
    lemma_parse_dec_i64(v.x);
    lemma_parse_dec_i64(v.y);
}

} // verus!
