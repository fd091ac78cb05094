//! Grouping route segments under derived slug keys.
//!
//! A flat list of route segments is reshaped into a keyed association:
//! segments sharing a line name and direction form a bucket, each bucket is
//! ordered by the first departure time (stably — ties keep input order,
//! segments without departures come last), and each segment's key is the
//! slug of its line and direction, suffixed with its one-based position in
//! that order whenever the bucket has more than one member.

use vstd::prelude::*;

use crate::digits::{append_dec_u64, dec_rep};
use crate::slug::{slug, slug_of};
use crate::text::str_eq;
use crate::time::DvbTime;

verus! {

/// One leg of a journey, reduced to what grouping reads: the line name,
/// the direction, and the upcoming departures in rank order.
#[derive(Debug)]
pub struct RouteSegment {
    pub line: Option<String>,
    pub direction: Option<String>,
    pub departures: Vec<DvbTime>,
}

/// The mathematical content of a [`RouteSegment`].
pub struct SegmentView {
    pub line: Option<Seq<char>>,
    pub direction: Option<Seq<char>>,
    pub departures: Seq<DvbTime>,
}

impl View for RouteSegment {
    type V = SegmentView;

    open spec fn view(&self) -> SegmentView {
        SegmentView {
            line: match self.line {
                Some(ref l) => Some(l@),
                None => None,
            },
            direction: match self.direction {
                Some(ref d) => Some(d@),
                None => None,
            },
            departures: self.departures@,
        }
    }
}

/// The grouping failure: two segments derived the same key.
#[derive(Clone, Copy, Debug, PartialEq, Eq, Hash, Structural)]
pub enum GroupError {
    DuplicateKey,
}

/// A line's network and number.
#[derive(Debug)]
pub struct Diva {
    pub network: Option<String>,
    pub number: Option<String>,
}

/// One vehicle of a journey's chain of modes.
#[derive(Debug)]
pub struct MotChain {
    pub changes: Option<Vec<String>>,
    pub direction: Option<String>,
    pub diva: Option<Diva>,
    pub dl_id: Option<String>,
    pub name: Option<String>,
    pub operator_code: Option<String>,
    pub product_name: Option<String>,
    pub stateless_id: Option<String>,
    pub train_number: Option<String>,
    pub transportation_company: Option<String>,
    pub kind: Option<crate::common::Mot>,
}

/// The mode details of one partial route.
#[derive(Debug)]
pub struct Mot {
    pub changes: Vec<String>,
    pub direction: Option<String>,
    pub diva: Option<Diva>,
    pub dl_id: Option<String>,
    pub name: Option<String>,
    pub operator_code: Option<String>,
    pub product_name: Option<String>,
    pub stateless_id: Option<String>,
    pub train_number: Option<String>,
    pub transportation_company: Option<String>,
    pub kind: Option<String>,
}

/// The platform a stop is served from.
#[derive(Debug)]
pub struct Platform {
    pub name: Option<String>,
    pub kind: Option<String>,
}

/// One purchasable ticket for a route.
#[derive(Debug)]
pub struct Ticket {
    pub fare_zone_names: Option<String>,
    pub name: Option<String>,
    pub number_of_fare_zones: Option<String>,
    pub price: Option<String>,
    pub price_level: Option<u32>,
}

/// The line name, or the empty string when absent.
pub open spec fn seg_line(v: SegmentView) -> Seq<char> {
    match v.line {
        Some(l) => l,
        None => Seq::empty(),
    }
}

/// The direction, or the empty string when absent.
pub open spec fn seg_direction(v: SegmentView) -> Seq<char> {
    match v.direction {
        Some(d) => d,
        None => Seq::empty(),
    }
}

/// Whether two segments share a bucket: the same line name and the same
/// direction, an absent field counting as the empty string.
pub open spec fn same_bucket(a: SegmentView, b: SegmentView) -> bool {
    seg_line(a) == seg_line(b) && seg_direction(a) == seg_direction(b)
}

/// Whether the segment at `a` sorts before the one at `b`: by first
/// departure epoch, segments without departures last, ties and equal
/// epochs resolved by input position — a stable order.
pub open spec fn sorts_before(v: Seq<SegmentView>, a: int, b: int) -> bool {
    let da = v[a].departures;
    let db = v[b].departures;
    if da.len() > 0 && db.len() > 0 {
        da[0].epoch_seconds < db[0].epoch_seconds || (da[0].epoch_seconds
            == db[0].epoch_seconds && a < b)
    } else if da.len() > 0 {
        true
    } else if db.len() > 0 {
        false
    } else {
        a < b
    }
}

/// How many of the first `upto` segments share the bucket of segment `i`.
pub open spec fn bucket_count(v: Seq<SegmentView>, i: int, upto: int) -> int
    decreases upto when upto >= 0
{
    if upto <= 0 {
        0
    } else {
        bucket_count(v, i, upto - 1) + if same_bucket(v[upto - 1], v[i]) {
            1int
        } else {
            0int
        }
    }
}

/// How many of the first `upto` segments share the bucket of segment `i`
/// and sort before it.
pub open spec fn rank_count(v: Seq<SegmentView>, i: int, upto: int) -> int
    decreases upto when upto >= 0
{
    if upto <= 0 {
        0
    } else {
        rank_count(v, i, upto - 1) + if same_bucket(v[upto - 1], v[i]) && sorts_before(
            v,
            upto - 1,
            i,
        ) {
            1int
        } else {
            0int
        }
    }
}

/// The base key of a segment: the slug of its line name and direction
/// joined by a space.
pub open spec fn base_key(v: SegmentView) -> Seq<char> {
    slug_of(seg_line(v) + seq![' '] + seg_direction(v))
}

/// The key the grouping derives for segment `i`: the base key alone for a
/// bucket of one, else the base key with the segment's one-based position
/// in the bucket's departure order.
pub open spec fn derived_key(v: Seq<SegmentView>, i: int) -> Seq<char> {
    if bucket_count(v, i, v.len() as int) == 1 {
        base_key(v[i])
    } else {
        base_key(v[i]) + seq!['-'] + dec_rep((rank_count(v, i, v.len() as int) + 1) as nat)
    }
}

/// The views of a list of segments.
pub open spec fn seg_views(s: Seq<RouteSegment>) -> Seq<SegmentView> {
    Seq::new(s.len(), |i: int| s[i]@)
}

/// The departure order is transitive.
proof fn lemma_sorts_before_trans(v: Seq<SegmentView>, a: int, b: int, c: int)
    requires
        0 <= a < v.len(),
        0 <= b < v.len(),
        0 <= c < v.len(),
        sorts_before(v, a, b),
        sorts_before(v, b, c),
    ensures
        sorts_before(v, a, c),
{
}

/// Two segments of one bucket agree on how many segments that bucket
/// holds.
proof fn lemma_bucket_count_agrees(v: Seq<SegmentView>, i: int, j: int, upto: int)
    requires
        0 <= i < v.len(),
        0 <= j < v.len(),
        same_bucket(v[i], v[j]),
        0 <= upto <= v.len(),
    ensures
        bucket_count(v, i, upto) == bucket_count(v, j, upto),
    decreases upto,
{
    if upto > 0 {
        lemma_bucket_count_agrees(v, i, j, upto - 1);
    }
}

/// Counting more segments never counts fewer.
proof fn lemma_bucket_count_mono(v: Seq<SegmentView>, i: int, a: int, b: int)
    requires
        0 <= a <= b,
    ensures
        bucket_count(v, i, a) <= bucket_count(v, i, b),
    decreases b - a,
{
    if a < b {
        lemma_bucket_count_mono(v, i, a, b - 1);
    }
}

/// A bucket holding two distinct segments counts at least two members.
proof fn lemma_bucket_count_ge_two(v: Seq<SegmentView>, i: int, j: int)
    requires
        0 <= i < j < v.len(),
        same_bucket(v[i], v[j]),
    ensures
        bucket_count(v, i, v.len() as int) >= 2,
{
    assert(bucket_count(v, i, i + 1) == bucket_count(v, i, i) + 1);
    assert(bucket_count(v, i, i) >= 0) by {
        lemma_bucket_count_mono(v, i, 0, i);
    }
    lemma_bucket_count_mono(v, i, i + 1, j);
    assert(bucket_count(v, i, j + 1) == bucket_count(v, i, j) + 1);
    lemma_bucket_count_mono(v, i, j + 1, v.len() as int);
}

/// A segment sorting later in its bucket counts strictly more
/// predecessors: its rank exceeds the earlier segment's by at least one.
proof fn lemma_rank_count_shift(v: Seq<SegmentView>, a: int, b: int, upto: int)
    requires
        0 <= a < v.len(),
        0 <= b < v.len(),
        same_bucket(v[a], v[b]),
        sorts_before(v, a, b),
        0 <= upto <= v.len(),
    ensures
        rank_count(v, b, upto) >= rank_count(v, a, upto) + if a < upto {
            1int
        } else {
            0int
        },
    decreases upto,
{
    if upto > 0 {
        lemma_rank_count_shift(v, a, b, upto - 1);
        let k = upto - 1;
        if k == a {
            assert(!sorts_before(v, a, a));
        } else {
            if same_bucket(v[k], v[a]) && sorts_before(v, k, a) {
                lemma_sorts_before_trans(v, k, a, b);
            }
        }
    }
}

/// Printing distinct values gives distinct digit runs.
proof fn lemma_dec_rep_injective(a: nat, b: nat)
    requires
        a != b,
    ensures
        dec_rep(a) != dec_rep(b),
{
    crate::digits::lemma_dec_rep_val(a);
    crate::digits::lemma_dec_rep_val(b);
}

/// Law: a segment with no line name and no direction takes the empty
/// slug as its base key, so it groups like any other bucket: alone under
/// the empty key itself, with bucket-mates under the empty key and its
/// one-based suffix. Grouping never fails on such a segment for its own
/// sake — the one failure, a duplicate key, is characterised exactly by
/// [`group_routes`] and can strike any bucket alike.
pub proof fn lemma_missing_fields_group_under_empty_key(v: Seq<SegmentView>, i: int)
    requires
        0 <= i < v.len(),
        seg_line(v[i]) == Seq::<char>::empty(),
        seg_direction(v[i]) == Seq::<char>::empty(),
    ensures
        base_key(v[i]) == Seq::<char>::empty(),
        bucket_count(v, i, v.len() as int) == 1 ==> derived_key(v, i) == Seq::<char>::empty(),
        bucket_count(v, i, v.len() as int) != 1 ==> derived_key(v, i) == seq!['-'] + dec_rep(
            (rank_count(v, i, v.len() as int) + 1) as nat,
        ),
{
    let joined = seg_line(v[i]) + seq![' '] + seg_direction(v[i]);
    assert(joined =~= seq![' ']);
    let m = crate::slug::mapped(joined);
    assert(m.len() == 1);
    assert(!crate::slug::is_ascii_alnum(' '));
    assert(m[0] == '-');
    assert(m =~= seq!['-']);
    let c = crate::slug::collapsed(m);
    assert(c == m);
    assert(c[0] == '-');
    let t1 = crate::slug::trim_start(c);
    assert(c.subrange(1, c.len() as int) =~= Seq::<char>::empty());
    assert(t1 == crate::slug::trim_start(c.subrange(1, c.len() as int)));
    assert(crate::slug::trim_start(Seq::<char>::empty()) =~= Seq::<char>::empty());
    assert(t1 =~= Seq::<char>::empty());
    let t2 = crate::slug::trim_end(t1);
    assert(t2 =~= Seq::<char>::empty());
    assert(base_key(v[i]) =~= Seq::<char>::empty());
    if bucket_count(v, i, v.len() as int) != 1 {
        assert(derived_key(v, i) =~= seq!['-'] + dec_rep(
            (rank_count(v, i, v.len() as int) + 1) as nat,
        ));
    }
}

/// Law: two distinct segments of the same bucket always derive distinct
/// keys — the one-based suffixes taken from the bucket's departure order
/// never repeat. A duplicate key can therefore come only from two
/// different buckets whose slugs coincide.
pub proof fn lemma_same_bucket_keys_distinct(v: Seq<SegmentView>, i: int, j: int)
    requires
        0 <= i < j < v.len(),
        same_bucket(v[i], v[j]),
    ensures
        derived_key(v, i) != derived_key(v, j),
{
    let n = v.len() as int;
    lemma_bucket_count_ge_two(v, i, j);
    lemma_bucket_count_agrees(v, i, j, n);
    let base = base_key(v[i]);
    assert(base_key(v[j]) == base);
    let ri = rank_count(v, i, n);
    let rj = rank_count(v, j, n);
    assert(ri >= 0) by {
        lemma_rank_count_nonneg(v, i, n);
    }
    assert(rj >= 0) by {
        lemma_rank_count_nonneg(v, j, n);
    }
    if sorts_before(v, i, j) {
        lemma_rank_count_shift(v, i, j, n);
        assert(rj >= ri + 1);
    } else {
        assert(sorts_before(v, j, i));
        lemma_rank_count_shift(v, j, i, n);
        assert(ri >= rj + 1);
    }
    lemma_dec_rep_injective((ri + 1) as nat, (rj + 1) as nat);
    let ki = derived_key(v, i);
    let kj = derived_key(v, j);
    assert(ki == base + seq!['-'] + dec_rep((ri + 1) as nat));
    assert(kj == base + seq!['-'] + dec_rep((rj + 1) as nat));
    if ki == kj {
        let di = dec_rep((ri + 1) as nat);
        let dj = dec_rep((rj + 1) as nat);
        assert(ki.len() == base.len() + 1 + di.len());
        assert(kj.len() == base.len() + 1 + dj.len());
        assert(di.len() == dj.len());
        assert(di =~= dj) by {
            assert forall|x: int| 0 <= x < di.len() implies di[x] == dj[x] by {
                assert(di[x] == ki[base.len() + 1 + x]);
                assert(dj[x] == kj[base.len() + 1 + x]);
            }
        }
        assert(false);
    }
}

/// Ranks never count below zero.
proof fn lemma_rank_count_nonneg(v: Seq<SegmentView>, i: int, upto: int)
    requires
        0 <= upto <= v.len(),
    ensures
        rank_count(v, i, upto) >= 0,
    decreases upto,
{
    if upto > 0 {
        lemma_rank_count_nonneg(v, i, upto - 1);
    }
}

impl RouteSegment {
    /// A fresh segment with the same content.
    pub fn duplicate(&self) -> (r: RouteSegment)
        ensures
            r@ == self@,
    {
        let line = match &self.line {
            Some(l) => Some(l.clone()),
            None => None,
        };
        let direction = match &self.direction {
            Some(d) => Some(d.clone()),
            None => None,
        };
        let mut departures: Vec<DvbTime> = Vec::new();
        let n = self.departures.len();
        let mut i: usize = 0;
        while i < n
            invariant
                0 <= i <= n == self.departures@.len(),
                departures@ =~= self.departures@.subrange(0, i as int),
            decreases n - i,
        {
            departures.push(self.departures[i]);
            proof {
                assert(departures@ =~= self.departures@.subrange(0, i as int + 1));
            }
            i = i + 1;
        }
        proof {
            assert(departures@ =~= self.departures@);
        }
        RouteSegment { line, direction, departures }
    }
}

/// The text of an optional field, or the empty string when absent.
fn field_or_empty(o: &Option<String>) -> (r: &str)
    ensures
        match o {
            Some(s) => r@ == s@,
            None => r@ == Seq::<char>::empty(),
        },
{
    proof {
        reveal_strlit("");
    }
    match o {
        Some(s) => s.as_str(),
        None => "",
    }
}

/// Whether the segments at `a` and `b` share a bucket, decided exactly.
fn in_same_bucket(segs: &Vec<RouteSegment>, a: usize, b: usize) -> (r: bool)
    requires
        a < segs@.len(),
        b < segs@.len(),
    ensures
        r == same_bucket(seg_views(segs@)[a as int], seg_views(segs@)[b as int]),
{
    let la = field_or_empty(&segs[a].line);
    let lb = field_or_empty(&segs[b].line);
    let da = field_or_empty(&segs[a].direction);
    let db = field_or_empty(&segs[b].direction);
    let r = str_eq(la, lb) && str_eq(da, db);
    proof {
        assert(seg_views(segs@)[a as int] == segs@[a as int]@);
        assert(seg_views(segs@)[b as int] == segs@[b as int]@);
        assert(la@ == seg_line(segs@[a as int]@));
        assert(lb@ == seg_line(segs@[b as int]@));
        assert(da@ == seg_direction(segs@[a as int]@));
        assert(db@ == seg_direction(segs@[b as int]@));
    }
    r
}

/// Whether the segment at `a` sorts before the one at `b`, decided
/// exactly.
fn departs_before(segs: &Vec<RouteSegment>, a: usize, b: usize) -> (r: bool)
    requires
        a < segs@.len(),
        b < segs@.len(),
    ensures
        r == sorts_before(seg_views(segs@), a as int, b as int),
{
    proof {
        assert(seg_views(segs@)[a as int] == segs@[a as int]@);
        assert(seg_views(segs@)[b as int] == segs@[b as int]@);
    }
    let a_has = segs[a].departures.len() > 0;
    let b_has = segs[b].departures.len() > 0;
    if a_has && b_has {
        let ka = segs[a].departures[0].epoch_seconds;
        let kb = segs[b].departures[0].epoch_seconds;
        ka < kb || (ka == kb && a < b)
    } else if a_has {
        true
    } else if b_has {
        false
    } else {
        a < b
    }
}

/// The key derived for segment `i`, exactly as [`derived_key`] states.
fn key_for(segs: &Vec<RouteSegment>, i: usize) -> (r: String)
    requires
        i < segs@.len(),
    ensures
        r@ == derived_key(seg_views(segs@), i as int),
{
    let ghost v = seg_views(segs@);
    let n = segs.len();
    let mut size: usize = 0;
    let mut rank: usize = 0;
    let mut j: usize = 0;
    while j < n
        invariant
            0 <= j <= n == segs@.len(),
            i < segs@.len(),
            v == seg_views(segs@),
            size == bucket_count(v, i as int, j as int),
            rank == rank_count(v, i as int, j as int),
            size <= j,
            rank <= j,
            j > i ==> rank < j,
        decreases n - j,
    {
        if in_same_bucket(segs, j, i) {
            size = size + 1;
            if departs_before(segs, j, i) {
                proof {
                    assert(j != i) by {
                        if j == i {
                            assert(!sorts_before(v, i as int, i as int));
                        }
                    }
                }
                rank = rank + 1;
            }
        }
        j = j + 1;
    }
    proof {
        assert(rank < n);
    }
    let mut joined = String::new();
    joined.append(field_or_empty(&segs[i].line));
    proof {
        reveal_strlit(" ");
        assert(" "@ =~= seq![' ']);
    }
    joined.append(" ");
    joined.append(field_or_empty(&segs[i].direction));
    proof {
        assert(v[i as int] == segs@[i as int]@);
        assert(joined@ =~= seg_line(v[i as int]) + seq![' '] + seg_direction(v[i as int]));
    }
    let base = slug(joined.as_str());
    if size == 1 {
        proof {
            assert(base@ == derived_key(v, i as int));
        }
        return base;
    }
    let mut out = base;
    proof {
        reveal_strlit("-");
        assert("-"@ =~= seq!['-']);
    }
    out.append("-");
    append_dec_u64(&mut out, (rank as u64) + 1);
    proof {
        assert(out@ =~= derived_key(v, i as int));
    }
    out
}

/// Groups segments under their derived keys, one entry per input segment
/// and in input order.
///
/// On success every key is distinct and every entry holds the key derived
/// for its segment; the duplicate-key failure comes exactly when two
/// segments derive the same key, which distinct buckets can do after
/// slugging. No segment is ever dropped or merged.
pub fn group_routes(segs: &Vec<RouteSegment>) -> (r: Result<
    Vec<(String, RouteSegment)>,
    GroupError,
>)
    ensures
        match r {
            Ok(pairs) => {
                &&& pairs@.len() == segs@.len()
                &&& forall|i: int|
                    0 <= i < segs@.len() ==> (#[trigger] pairs@[i].1)@ == seg_views(segs@)[i]
                &&& forall|i: int|
                    0 <= i < segs@.len() ==> (#[trigger] pairs@[i].0)@ == derived_key(
                        seg_views(segs@),
                        i,
                    )
                &&& forall|i: int, j: int|
                    0 <= i < j < segs@.len() ==> #[trigger] derived_key(seg_views(segs@), i)
                        != #[trigger] derived_key(seg_views(segs@), j)
            },
            Err(e) => {
                &&& e == GroupError::DuplicateKey
                &&& exists|i: int, j: int|
                    0 <= i < j < segs@.len() && #[trigger] derived_key(seg_views(segs@), i)
                        == #[trigger] derived_key(seg_views(segs@), j)
            },
        },
{
    let ghost v = seg_views(segs@);
    let n = segs.len();
    let mut keys: Vec<String> = Vec::new();
    let mut i: usize = 0;
    while i < n
        invariant
            0 <= i <= n == segs@.len(),
            v == seg_views(segs@),
            keys@.len() == i,
            forall|k: int| 0 <= k < i ==> (#[trigger] keys@[k])@ == derived_key(v, k),
        decreases n - i,
    {
        let key = key_for(segs, i);
        keys.push(key);
        i = i + 1;
    }
    let mut i: usize = 0;
    while i < n
        invariant
            0 <= i <= n == segs@.len(),
            v == seg_views(segs@),
            keys@.len() == n,
            forall|k: int| 0 <= k < n ==> (#[trigger] keys@[k])@ == derived_key(v, k),
            forall|a: int, b: int|
                0 <= a < b < i ==> #[trigger] derived_key(v, a) != #[trigger] derived_key(v, b),
        decreases n - i,
    {
        let mut j: usize = 0;
        while j < i
            invariant
                0 <= j <= i < n == segs@.len(),
                v == seg_views(segs@),
                keys@.len() == n,
                forall|k: int| 0 <= k < n ==> (#[trigger] keys@[k])@ == derived_key(v, k),
                forall|b: int| 0 <= b < j ==> #[trigger] derived_key(v, b) != derived_key(
                    v,
                    i as int,
                ),
            decreases i - j,
        {
            if str_eq(keys[j].as_str(), keys[i].as_str()) {
                proof {
                    assert(derived_key(v, j as int) == derived_key(v, i as int));
                }
                return Err(GroupError::DuplicateKey);
            }
            j = j + 1;
        }
        i = i + 1;
    }
    let mut pairs: Vec<(String, RouteSegment)> = Vec::new();
    let mut i: usize = 0;
    while i < n
        invariant
            0 <= i <= n == segs@.len(),
            v == seg_views(segs@),
            keys@.len() == n,
            forall|k: int| 0 <= k < n ==> (#[trigger] keys@[k])@ == derived_key(v, k),
            forall|a: int, b: int|
                0 <= a < b < n ==> #[trigger] derived_key(v, a) != #[trigger] derived_key(v, b),
            pairs@.len() == i,
            forall|k: int| 0 <= k < i ==> (#[trigger] pairs@[k].1)@ == v[k],
            forall|k: int| 0 <= k < i ==> (#[trigger] pairs@[k].0)@ == derived_key(v, k),
        decreases n - i,
    {
        let key = keys[i].clone();
        let seg = segs[i].duplicate();
        proof {
            assert(seg@ == segs@[i as int]@);
            assert(v[i as int] == segs@[i as int]@);
        }
        pairs.push((key, seg));
        i = i + 1;
    }
    Ok(pairs)
}

} // verus!
