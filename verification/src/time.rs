//! The `/Date(<seconds-or-millis><sign><HH><MM>)/` timestamp encoding.
//!
//! A `DvbTime` is an exact point in time — seconds since the Unix epoch —
//! together with a fixed UTC offset in seconds. Decoding accepts either a
//! millisecond count (a digit run ending in `000`) or a plain second count,
//! an upstream quirk that is preserved, not corrected. Encoding always emits
//! the millisecond-padded, seconds-based form.

use vstd::prelude::*;

use crate::digits::{
    all_digits, append_dec_i64, append_pad2, dec_rep, dec_rep_int, digit_val, digits_val,
    digits_val_checked, is_digit, lemma_dec_rep_digits, lemma_dec_rep_val,
    lemma_digits_val_append, pad2, pow10,
};
use crate::error::ParseError;

verus! {

/// A point in time with a fixed UTC offset.
///
/// `epoch_seconds` counts whole seconds since the Unix epoch;
/// `offset_seconds` is the local-minus-UTC difference. Offsets decoded from
/// the wire lie within two-digit hour and minute fields and therefore within
/// about a hundred hours; offsets taken from the running machine's clock lie
/// strictly within one day.
///
/// `offset_negative` records the offset's wire sign. For a non-zero offset
/// it agrees with the sign of `offset_seconds` on every decoded value; its
/// point is the zero offset, where it keeps a `-0000` on the wire apart
/// from a `+0000`, so that re-encoding reproduces the sign bit for bit.
#[derive(Clone, Copy, Debug, PartialEq, Eq, Hash, Structural)]
pub struct DvbTime {
    pub epoch_seconds: i64,
    pub offset_seconds: i32,
    pub offset_negative: bool,
}

/// The six characters every encoded timestamp opens with.
pub open spec fn dvb_prefix() -> Seq<char> {
    seq!['/', 'D', 'a', 't', 'e', '(']
}

/// First position at or after `i` that does not hold a digit (or the end).
pub open spec fn digit_run_end(s: Seq<char>, i: int) -> int
    decreases s.len() - i when i <= s.len()
{
    if i < 0 || i >= s.len() {
        i
    } else if is_digit(s[i]) {
        digit_run_end(s, i + 1)
    } else {
        i
    }
}

/// Whether `s` opens with the timestamp grammar: the prefix, a digit run,
/// a sign, two two-digit fields and the closing `)/`. Characters after the
/// closing slash are tolerated, as the upstream format reader tolerates them.
pub open spec fn dvb_grammar_ok(s: Seq<char>) -> bool {
    let j = digit_run_end(s, 6);
    &&& s.len() >= 6
    &&& s.subrange(0, 6) == dvb_prefix()
    &&& j + 7 <= s.len()
    &&& (s[j] == '+' || s[j] == '-')
    &&& is_digit(s[j + 1])
    &&& is_digit(s[j + 2])
    &&& is_digit(s[j + 3])
    &&& is_digit(s[j + 4])
    &&& s[j + 5] == ')'
    &&& s[j + 6] == '/'
}

/// Whether a digit run ends in three zeros, marking it as milliseconds.
pub open spec fn ends_in_000(raw: Seq<char>) -> bool {
    &&& raw.len() >= 3
    &&& raw[raw.len() - 3] == '0'
    &&& raw[raw.len() - 2] == '0'
    &&& raw[raw.len() - 1] == '0'
}

/// What decoding yields on any input: the grammar mismatch error, the
/// integer error for an empty or overlarge digit run, or the decoded time.
/// A run ending in `000` is read as milliseconds and divided down; any other
/// run is read as whole seconds. The offset is `sign * (HH hours + MM
/// minutes)`, with no further range check — upstream leniency, preserved —
/// and the sign character itself is kept, so a `-0000` stays distinct from
/// a `+0000`.
pub open spec fn parse_dvb_time(s: Seq<char>) -> Result<DvbTime, ParseError> {
    if !dvb_grammar_ok(s) {
        Err(ParseError::Format)
    } else {
        let j = digit_run_end(s, 6);
        let raw = s.subrange(6, j);
        if raw.len() == 0 || digits_val(raw) > i64::MAX {
            Err(ParseError::IntegerParse)
        } else {
            let t0 = digits_val(raw) as int;
            let ts = if ends_in_000(raw) {
                t0 / 1000
            } else {
                t0
            };
            let hours = digits_val(s.subrange(j + 1, j + 3)) as int;
            let mins = digits_val(s.subrange(j + 3, j + 5)) as int;
            let mag = hours * 3600 + mins * 60;
            let off = if s[j] == '-' {
                -mag
            } else {
                mag
            };
            Ok(
                DvbTime {
                    epoch_seconds: ts as i64,
                    offset_seconds: off as i32,
                    offset_negative: s[j] == '-',
                },
            )
        }
    }
}

/// What encoding prints: the epoch seconds padded with `000`, the offset
/// sign, and the offset split into hours and minutes by floor division.
/// A negative offset prints `-`, a positive one `+`; a zero offset prints
/// the sign it was decoded with.
pub open spec fn render_dvb_time(t: DvbTime) -> Seq<char> {
    let off = t.offset_seconds as int;
    let sign: char = if off < 0 || (off == 0 && t.offset_negative) {
        '-'
    } else {
        '+'
    };
    let mag = if off < 0 {
        -off
    } else {
        off
    };
    let mins = mag / 60;
    let h = (mins / 60) as nat;
    let m = (mins % 60) as nat;
    dvb_prefix() + dec_rep_int(t.epoch_seconds as int) + seq!['0', '0', '0'] + seq![sign] + pad2(h)
        + pad2(m) + seq![')', '/']
}

impl DvbTime {
    /// Decodes the `/Date(...)/` form, exactly as [`parse_dvb_time`] states.
    pub fn from_str(s: &str) -> (r: Result<DvbTime, ParseError>)
        ensures
            r == parse_dvb_time(s@),
    {
        let n = s.unicode_len();
        if n < 6 {
            return Err(ParseError::Format);
        }
        let prefix_ok = s.get_char(0) == '/' && s.get_char(1) == 'D' && s.get_char(2) == 'a'
            && s.get_char(3) == 't' && s.get_char(4) == 'e' && s.get_char(5) == '(';
        proof {
            if prefix_ok {
                assert(s@.subrange(0, 6) =~= dvb_prefix());
            } else {
                if s@.subrange(0, 6) == dvb_prefix() {
                    assert(s@[0] == s@.subrange(0, 6)[0]);
                    assert(s@[1] == s@.subrange(0, 6)[1]);
                    assert(s@[2] == s@.subrange(0, 6)[2]);
                    assert(s@[3] == s@.subrange(0, 6)[3]);
                    assert(s@[4] == s@.subrange(0, 6)[4]);
                    assert(s@[5] == s@.subrange(0, 6)[5]);
                }
            }
        }
        if !prefix_ok {
            return Err(ParseError::Format);
        }
        let mut j: usize = 6;
        let mut hit_non_digit = false;
        while !hit_non_digit && j < n
            invariant
                6 <= j <= n == s@.len(),
                digit_run_end(s@, 6) == digit_run_end(s@, j as int),
                hit_non_digit ==> j < n && !is_digit(s@[j as int]),
            decreases n - j, if hit_non_digit { 0int } else { 1int },
        {
            let c = s.get_char(j);
            if '0' <= c && c <= '9' {
                j = j + 1;
            } else {
                hit_non_digit = true;
            }
        }
        proof {
            assert(digit_run_end(s@, 6) == j);
        }
        if n - j < 7 {
            return Err(ParseError::Format);
        }
        let sign = s.get_char(j);
        if !(sign == '+' || sign == '-') {
            return Err(ParseError::Format);
        }
        let c1 = s.get_char(j + 1);
        let c2 = s.get_char(j + 2);
        let c3 = s.get_char(j + 3);
        let c4 = s.get_char(j + 4);
        if !('0' <= c1 && c1 <= '9' && '0' <= c2 && c2 <= '9' && '0' <= c3 && c3 <= '9' && '0'
            <= c4 && c4 <= '9') {
            return Err(ParseError::Format);
        }
        if !(s.get_char(j + 5) == ')' && s.get_char(j + 6) == '/') {
            return Err(ParseError::Format);
        }
        assert(dvb_grammar_ok(s@));
        let ghost raw = s@.subrange(6, j as int);
        if j == 6 {
            return Err(ParseError::IntegerParse);
        }
        assert(forall|k: int| 6 <= k < j ==> is_digit(#[trigger] s@[k])) by {
            lemma_digit_run_prefix(s@, 6, j as int);
        }
        assert(all_digits(raw));
        let t0 = match digits_val_checked(s, 6, j, 0x7fff_ffff_ffff_ffffu64) {
            Some(v) => v as i64,
            None => {
                return Err(ParseError::IntegerParse);
            },
        };
        let millis = j >= 9 && s.get_char(j - 3) == '0' && s.get_char(j - 2) == '0' && s.get_char(
            j - 1,
        ) == '0';
        proof {
            assert(raw.len() == j - 6);
            assert(millis == ends_in_000(raw));
        }
        let ts: i64 = if millis {
            t0 / 1000
        } else {
            t0
        };
        let hours = two_digit_val(s, j + 1);
        let mins = two_digit_val(s, j + 3);
        let mag: i32 = (hours as i32) * 3600 + (mins as i32) * 60;
        let off: i32 = if sign == '-' {
            -mag
        } else {
            mag
        };
        Ok(DvbTime { epoch_seconds: ts, offset_seconds: off, offset_negative: sign == '-' })
    }

    /// Encodes into the `/Date(...)/` form, exactly as [`render_dvb_time`]
    /// states.
    pub fn encode(&self) -> (r: String)
        ensures
            r@ == render_dvb_time(*self),
    {
        proof {
            reveal_strlit("/Date(");
            reveal_strlit("000");
            reveal_strlit("+");
            reveal_strlit("-");
            reveal_strlit(")/");
        }
        let mut out = String::new();
        out.append("/Date(");
        proof {
            assert(out@ =~= dvb_prefix());
        }
        append_dec_i64(&mut out, self.epoch_seconds);
        out.append("000");
        let off: i64 = self.offset_seconds as i64;
        if off < 0 || (off == 0 && self.offset_negative) {
            out.append("-");
        } else {
            out.append("+");
        }
        let mag: i64 = if off < 0 {
            -off
        } else {
            off
        };
        let mins: i64 = mag / 60;
        let h: i64 = mins / 60;
        let m: i64 = mins % 60;
        append_pad2(&mut out, h as u64);
        append_pad2(&mut out, m as u64);
        out.append(")/");
        proof {
            assert(out@ =~= render_dvb_time(*self));
        }
        out
    }
}

/// Difference `a - b` clamped to the signed 64-bit range.
pub open spec fn sat_sub_i64(a: int, b: int) -> int {
    if a - b > i64::MAX {
        i64::MAX as int
    } else if a - b < i64::MIN {
        i64::MIN as int
    } else {
        a - b
    }
}

/// Sum `a + b` clamped to the signed 64-bit range.
pub open spec fn sat_add_i64(a: int, b: int) -> int {
    if a + b > i64::MAX {
        i64::MAX as int
    } else if a + b < i64::MIN {
        i64::MIN as int
    } else {
        a + b
    }
}

/// `m * 60` clamped to the signed 64-bit range.
pub open spec fn sat_mul_60(m: int) -> int {
    if m * 60 > i64::MAX {
        i64::MAX as int
    } else if m * 60 < i64::MIN {
        i64::MIN as int
    } else {
        m * 60
    }
}

/// Whole minutes from `now_epoch` until `then_epoch`, truncated toward
/// zero as `chrono`'s minute count truncates, over the clamped difference.
pub open spec fn minutes_until(now_epoch: int, then_epoch: int) -> int {
    let d = sat_sub_i64(then_epoch, now_epoch);
    if d >= 0 {
        d / 60
    } else {
        -((-d) / 60)
    }
}

/// Second of the local day — the epoch second shifted by the offset, taken
/// modulo one day (always non-negative).
pub open spec fn second_of_day(epoch: int, off: int) -> int {
    (epoch + off) % 86400
}

/// The `HH:MM:SS` clock reading of the local second of day.
pub open spec fn time_of_day_rep(epoch: int, off: int) -> Seq<char> {
    let sod = second_of_day(epoch, off);
    pad2((sod / 3600) as nat) + seq![':'] + pad2(((sod % 3600) / 60) as nat) + seq![':'] + pad2(
        (sod % 60) as nat,
    )
}

/// The RFC 3339 calendar form of an instant with a fixed offset. The text
/// is a function of the epoch second and the offset alone; its calendar
/// arithmetic lives in the `chrono` crate and is left unspecified here.
pub uninterp spec fn rfc3339_of(epoch: int, off: int) -> Seq<char>;

/// Relies on `chrono::Local::now`: the machine's current instant and local
/// UTC offset. The offset comes from a `chrono::FixedOffset`, which by
/// construction lies strictly within one day of UTC.
#[verifier::external_body]
fn now_parts() -> (r: (i64, i32))
    ensures
        -86400 < r.1 < 86400,
{
    let now = chrono::Local::now();
    (now.timestamp(), now.offset().local_minus_utc())
}

/// Relies on `chrono::DateTime::to_rfc3339` (via `FixedOffset::east_opt`
/// and `DateTime::from_timestamp`): the calendar text of an instant with a
/// fixed offset depends on the epoch second and the offset alone, and the
/// constructors accept every offset within a day and every epoch within
/// chrono's calendar range, which covers a quarter of a million years.
#[verifier::external_body]
fn rfc3339_from_parts(epoch: i64, off: i32) -> (r: Option<String>)
    ensures
        r matches Some(s) ==> s@ == rfc3339_of(epoch as int, off as int),
        (-86400 < off < 86400 && -8000000000000 <= epoch <= 8000000000000) ==> r is Some,
{
    let fo = chrono::FixedOffset::east_opt(off)?;
    let dt = chrono::DateTime::from_timestamp(epoch, 0)?;
    Some(dt.with_timezone(&fo).to_rfc3339())
}

impl DvbTime {
    /// The current local time.
    pub fn now() -> (r: DvbTime)
        ensures
            -86400 < r.offset_seconds < 86400,
    {
        let (epoch, off) = now_parts();
        DvbTime { epoch_seconds: epoch, offset_seconds: off, offset_negative: off < 0 }
    }

    /// The time `mins` minutes after this one, saturating at the ends of
    /// the representable range, with the offset kept.
    pub fn plus_minutes(&self, mins: i64) -> (r: DvbTime)
        ensures
            r.epoch_seconds as int == sat_add_i64(
                self.epoch_seconds as int,
                sat_mul_60(mins as int),
            ),
            r.offset_seconds == self.offset_seconds,
            r.offset_negative == self.offset_negative,
    {
        let step: i128 = (mins as i128) * 60;
        let step64: i64 = if step > i64::MAX as i128 {
            i64::MAX
        } else if step < i64::MIN as i128 {
            i64::MIN
        } else {
            step as i64
        };
        let sum: i128 = (self.epoch_seconds as i128) + (step64 as i128);
        let sum64: i64 = if sum > i64::MAX as i128 {
            i64::MAX
        } else if sum < i64::MIN as i128 {
            i64::MIN
        } else {
            sum as i64
        };
        DvbTime {
            epoch_seconds: sum64,
            offset_seconds: self.offset_seconds,
            offset_negative: self.offset_negative,
        }
    }

    /// The local time `mins` minutes from now.
    pub fn in_n_minutes(mins: i64) -> (r: DvbTime)
        ensures
            -86400 < r.offset_seconds < 86400,
    {
        DvbTime::now().plus_minutes(mins)
    }

    /// The whole minutes from `now_epoch` until this time, followed by
    /// `min`.
    pub fn wait_from(&self, now_epoch: i64) -> (r: String)
        ensures
            r@ == dec_rep_int(minutes_until(now_epoch as int, self.epoch_seconds as int))
                + "min"@,
    {
        let d128: i128 = (self.epoch_seconds as i128) - (now_epoch as i128);
        let d: i64 = if d128 > i64::MAX as i128 {
            i64::MAX
        } else if d128 < i64::MIN as i128 {
            i64::MIN
        } else {
            d128 as i64
        };
        let q: i64 = if d >= 0 {
            d / 60
        } else {
            let mag: u64 = (-(d as i128)) as u64;
            -((mag / 60) as i64)
        };
        proof {
            assert(q == minutes_until(now_epoch as int, self.epoch_seconds as int));
        }
        let mut out = String::new();
        append_dec_i64(&mut out, q);
        proof {
            reveal_strlit("min");
        }
        out.append("min");
        proof {
            assert(out@ =~= dec_rep_int(q as int) + "min"@);
        }
        out
    }

    /// The whole minutes from now until this time, followed by `min`.
    pub fn wait(&self) -> (r: String)
        ensures
            exists|m: int| r@ == dec_rep_int(m) + "min"@,
    {
        let (now_epoch, _off) = now_parts();
        let s = self.wait_from(now_epoch);
        proof {
            assert(s@ == dec_rep_int(minutes_until(now_epoch as int, self.epoch_seconds as int))
                + "min"@);
        }
        s
    }

    /// The local clock reading `HH:MM:SS` of this time.
    pub fn to_time(&self) -> (r: String)
        ensures
            r@ == time_of_day_rep(self.epoch_seconds as int, self.offset_seconds as int),
    {
        broadcast use vstd::arithmetic::div_mod::lemma_mod_multiples_vanish;

        let e128: i128 = self.epoch_seconds as i128;
        // lift by a day multiple past 2^63 so the remainder is taken of a
        // non-negative number
        let em: i128 = (e128 + 9223372036854806400i128) % 86400;
        proof {
            assert(9223372036854806400int == 86400 * 106751991167301);
            assert((86400 * 106751991167301 + e128 as int) % 86400 == (e128 as int) % 86400);
        }
        let tot: i128 = em + (self.offset_seconds as i128);
        // the same lift, past 2^31
        let tot2: i128 = tot + 2147558400;
        let sod: i64 = (tot2 % 86400) as i64;
        proof {
            assert(2147558400int == 86400 * 24856);
            assert((86400 * 24856 + tot as int) % 86400 == (tot as int) % 86400);
            assert(sod as int == (em as int + self.offset_seconds as int) % 86400);
            vstd::arithmetic::div_mod::lemma_add_mod_noop_right(
                self.offset_seconds as int,
                self.epoch_seconds as int,
                86400,
            );
            assert((self.offset_seconds as int + (self.epoch_seconds as int) % 86400) % 86400 == (
            self.offset_seconds as int + self.epoch_seconds as int) % 86400);
            assert(sod as int == second_of_day(
                self.epoch_seconds as int,
                self.offset_seconds as int,
            ));
        }
        let h: i64 = sod / 3600;
        let rem: i64 = sod % 3600;
        let m: i64 = rem / 60;
        let sec: i64 = sod % 60;
        let mut out = String::new();
        append_pad2(&mut out, h as u64);
        proof {
            reveal_strlit(":");
        }
        out.append(":");
        append_pad2(&mut out, m as u64);
        out.append(":");
        append_pad2(&mut out, sec as u64);
        proof {
            assert(out@ =~= time_of_day_rep(
                self.epoch_seconds as int,
                self.offset_seconds as int,
            ));
        }
        out
    }

    /// The RFC 3339 calendar form of this time — the write-only alternate
    /// encoding; decoding always expects the `/Date(...)/` grammar.
    pub fn to_rfc3339(&self) -> (r: String)
        requires
            -86400 < self.offset_seconds < 86400,
            -8000000000000 <= self.epoch_seconds <= 8000000000000,
        ensures
            r@ == rfc3339_of(self.epoch_seconds as int, self.offset_seconds as int),
    {
        match rfc3339_from_parts(self.epoch_seconds, self.offset_seconds) {
            Some(s) => s,
            None => vstd::pervasive::unreached(),
        }
    }
}

impl Default for DvbTime {
    /// The current local time, as the upstream service's parameter objects
    /// expect when no other time is given.
    fn default() -> (r: Self)
        ensures
            -86400 < r.offset_seconds < 86400,
    {
        DvbTime::now()
    }
}

/// A run of digits bounded by a non-digit (or the end) pins down
/// `digit_run_end` exactly.
proof fn lemma_digit_run_exact(s: Seq<char>, i: int, k: int)
    requires
        0 <= i <= k <= s.len(),
        forall|x: int| i <= x < k ==> is_digit(#[trigger] s[x]),
        k == s.len() || !is_digit(s[k]),
    ensures
        digit_run_end(s, i) == k,
    decreases k - i,
{
    if i < k {
        assert(is_digit(s[i]));
        lemma_digit_run_exact(s, i + 1, k);
    }
}

/// Law: decoding an encoded time gives the time back. Together with the
/// determinism of [`render_dvb_time`], this says that re-encoding a decoded
/// timestamp, decoding it again and encoding once more reproduces the same
/// bytes — the encoding is idempotent after the first normalisation.
///
/// The bounds leave out the times whose encoded form no longer fits the
/// grammar: an epoch whose millisecond count overflows the signed 64-bit
/// read-back, and an offset of a hundred hours or more, whose hour field no
/// longer prints as two digits. An offset not divisible into whole minutes
/// loses its seconds on encode, as the format has no field for them.
pub proof fn lemma_dvb_round_trip(t: DvbTime)
    requires
        0 <= t.epoch_seconds,
        t.epoch_seconds * 1000 <= i64::MAX,
        -360000 < t.offset_seconds < 360000,
        (t.offset_seconds as int) % 60 == 0,
        t.offset_seconds < 0 ==> t.offset_negative,
        t.offset_seconds > 0 ==> !t.offset_negative,
    ensures
        parse_dvb_time(render_dvb_time(t)) == Ok::<DvbTime, ParseError>(t),
{
    let e = t.epoch_seconds as nat;
    let off = t.offset_seconds as int;
    let sg: char = if off < 0 || (off == 0 && t.offset_negative) { '-' } else { '+' };
    let mag = if off < 0 { -off } else { off };
    let mins = mag / 60;
    let h = (mins / 60) as nat;
    let m = (mins % 60) as nat;
    let dd = dec_rep(e);
    let z = seq!['0', '0', '0'];
    let hh = pad2(h);
    let mm = pad2(m);
    let s = render_dvb_time(t);
    lemma_dec_rep_digits(e);
    lemma_dec_rep_val(e);
    assert(mins <= 5999);
    assert(h <= 99);
    assert(m <= 59);
    crate::digits::lemma_pad2_props(h);
    crate::digits::lemma_pad2_props(m);
    assert(dec_rep_int(t.epoch_seconds as int) == dd);
    let l = dd.len() as int;
    let jj = 6 + l + 3;
    assert(s == dvb_prefix() + dd + z + seq![sg] + hh + mm + seq![')', '/']);
    assert(s.len() == jj + 7);
    assert(s.subrange(0, 6) =~= dvb_prefix());
    // the digit run is exactly the epoch digits plus the `000` padding
    assert forall|x: int| 6 <= x < jj implies is_digit(#[trigger] s[x]) by {
        if x < 6 + l {
            assert(s[x] == dd[x - 6]);
            assert(is_digit(dd[x - 6]));
        } else {
            assert(s[x] == z[x - 6 - l]);
        }
    }
    assert(s[jj] == sg);
    assert(!is_digit(sg));
    lemma_digit_run_exact(s, 6, jj);
    let j = digit_run_end(s, 6);
    assert(j == jj);
    assert(s[jj + 1] == hh[0]);
    assert(s[jj + 2] == hh[1]);
    assert(s[jj + 3] == mm[0]);
    assert(s[jj + 4] == mm[1]);
    assert(is_digit(hh[0]) && is_digit(hh[1]) && is_digit(mm[0]) && is_digit(mm[1]));
    assert(s[jj + 5] == ')');
    assert(s[jj + 6] == '/');
    assert(dvb_grammar_ok(s));
    let raw = s.subrange(6, jj);
    assert(raw =~= dd + z);
    assert(raw.len() == l + 3);
    lemma_digits_val_append(dd, z);
    let z1 = seq!['0'];
    let z2 = seq!['0', '0'];
    assert(digit_val('0') == 0);
    assert(z1.len() == 1 && z2.len() == 2 && z.len() == 3);
    assert(z1.drop_last() =~= Seq::<char>::empty());
    assert(z1.last() == '0');
    assert(digits_val(z1) == digits_val(z1.drop_last()) * 10 + digit_val(z1.last()));
    assert(digits_val(z1) == 0);
    assert(z2.drop_last() =~= z1);
    assert(z2.last() == '0');
    assert(digits_val(z2) == digits_val(z2.drop_last()) * 10 + digit_val(z2.last()));
    assert(digits_val(z2) == 0);
    assert(z.drop_last() =~= z2);
    assert(z.last() == '0');
    assert(digits_val(z) == digits_val(z.drop_last()) * 10 + digit_val(z.last()));
    assert(digits_val(z) == 0);
    assert(pow10(0) == 1);
    assert(pow10(1) == 10);
    assert(pow10(2) == 100);
    assert(pow10(3) == 1000);
    assert(digits_val(raw) == e * 1000);
    assert(e * 1000 <= i64::MAX);
    assert(raw[raw.len() - 3] == z[0]);
    assert(raw[raw.len() - 2] == z[1]);
    assert(raw[raw.len() - 1] == z[2]);
    assert(ends_in_000(raw));
    assert((e * 1000) as int / 1000 == e) by (nonlinear_arith);
    assert(s.subrange(jj + 1, jj + 3) =~= hh);
    assert(s.subrange(jj + 3, jj + 5) =~= mm);
    // the offset splits into hours and minutes and recombines exactly
    assert(h * 3600 + m * 60 == mag) by {
        assert(mins == (mins / 60) * 60 + mins % 60);
        assert(h * 3600 + m * 60 == ((mins / 60) * 60 + mins % 60) * 60) by (nonlinear_arith)
            requires
                h == mins / 60,
                m == mins % 60,
        ;
        assert(mag % 60 == 0) by {
            if off < 0 {
                assert((-off) % 60 == 0) by (nonlinear_arith)
                    requires
                        off % 60 == 0,
                ;
            }
        }
        assert(mins * 60 == mag) by (nonlinear_arith)
            requires
                mins == mag / 60,
                mag % 60 == 0,
                mag >= 0,
        ;
    }
    // the printed sign decodes back to the same offset and the same flag
    if off < 0 || (off == 0 && t.offset_negative) {
        assert(s[jj] == '-');
        assert(t.offset_negative);
    } else {
        assert(s[jj] != '-');
        assert(!t.offset_negative);
    }
    assert(parse_dvb_time(s) == Ok::<DvbTime, ParseError>(t));
}

/// Law: a decoded timestamp within the grammar's own printable range
/// re-encodes to a form that decodes to the same value, so a second
/// decode–encode pass reproduces the first encoding byte for byte.
pub proof fn lemma_dvb_encode_after_decode(s: Seq<char>, t: DvbTime)
    requires
        parse_dvb_time(s) == Ok::<DvbTime, ParseError>(t),
        t.epoch_seconds * 1000 <= i64::MAX,
        -360000 < t.offset_seconds < 360000,
    ensures
        parse_dvb_time(render_dvb_time(t)) == Ok::<DvbTime, ParseError>(t),
{
    assert(dvb_grammar_ok(s));
    let j = digit_run_end(s, 6);
    lemma_digit_run_prefix(s, 6, j);
    assert(6 <= j <= s.len());
    let raw = s.subrange(6, j);
    assert(raw.len() > 0 && digits_val(raw) <= i64::MAX);
    let t0 = digits_val(raw) as int;
    assert(t0 >= 0);
    if ends_in_000(raw) {
        assert(t0 / 1000 >= 0);
    }
    assert(t.epoch_seconds >= 0);
    lemma_two_digit_le_99(s.subrange(j + 1, j + 3));
    lemma_two_digit_le_99(s.subrange(j + 3, j + 5));
    let hours = digits_val(s.subrange(j + 1, j + 3)) as int;
    let mins = digits_val(s.subrange(j + 3, j + 5)) as int;
    let mag = hours * 3600 + mins * 60;
    assert(0 <= mag <= 362340);
    assert(mag % 60 == 0) by (nonlinear_arith)
        requires
            mag == hours * 3600 + mins * 60,
    ;
    if s[j] == '-' {
        assert((t.offset_seconds as int) == -mag);
        assert(t.offset_negative);
        assert((-mag) % 60 == 0) by (nonlinear_arith)
            requires
                mag % 60 == 0,
        ;
    } else {
        assert((t.offset_seconds as int) == mag);
        assert(!t.offset_negative);
    }
    lemma_dvb_round_trip(t);
}

/// A two-character digit field reads as at most ninety-nine.
proof fn lemma_two_digit_le_99(u: Seq<char>)
    requires
        u.len() == 2,
        is_digit(u[0]),
        is_digit(u[1]),
    ensures
        digits_val(u) == digit_val(u[0]) * 10 + digit_val(u[1]),
        digits_val(u) <= 99,
{
    assert(u.last() == u[1]);
    assert(u.drop_last() =~= seq![u[0]]);
    assert(u.drop_last().len() == 1);
    assert(u.drop_last().drop_last() =~= Seq::<char>::empty());
    assert(u.drop_last().last() == u[0]);
    assert(digits_val(u.drop_last()) == digits_val(u.drop_last().drop_last()) * 10 + digit_val(
        u.drop_last().last(),
    ));
    assert(digits_val(u.drop_last().drop_last()) == 0);
    assert(digits_val(u) == digits_val(u.drop_last()) * 10 + digit_val(u.last()));
    assert(digit_val(u[0]) <= 9);
    assert(digit_val(u[1]) <= 9);
}

/// Every position before the end of a digit run holds a digit.
proof fn lemma_digit_run_prefix(s: Seq<char>, i: int, j: int)
    requires
        0 <= i <= s.len(),
        j == digit_run_end(s, i),
    ensures
        i <= j <= s.len(),
        forall|k: int| i <= k < j ==> is_digit(#[trigger] s[k]),
    decreases s.len() - i,
{
    if i < s.len() && is_digit(s[i]) {
        lemma_digit_run_prefix(s, i + 1, j);
    }
}

/// Reads the two-digit field at `at` as a value below one hundred.
fn two_digit_val(s: &str, at: usize) -> (v: u64)
    requires
        at + 2 <= s@.len(),
        is_digit(s@[at as int]),
        is_digit(s@[at as int + 1]),
    ensures
        v == digits_val(s@.subrange(at as int, at as int + 2)),
        v <= 99,
{
    // the character length bounds the index arithmetic below
    let _len = s.unicode_len();
    let c1 = s.get_char(at);
    let c2 = s.get_char(at + 1);
    let d1: u64 = (c1 as u32 as u64) - ('0' as u32 as u64);
    let d2: u64 = (c2 as u32 as u64) - ('0' as u32 as u64);
    proof {
        let sub = s@.subrange(at as int, at as int + 2);
        assert(sub.len() == 2);
        assert(sub.last() == c2);
        assert(sub.drop_last() =~= seq![c1]);
        assert(sub.drop_last().drop_last() =~= Seq::<char>::empty());
        assert(sub.drop_last().len() == 1);
        assert(sub.drop_last().last() == c1);
        assert(digits_val(sub.drop_last()) == digits_val(sub.drop_last().drop_last()) * 10
            + digit_val(c1));
        assert(digits_val(sub.drop_last().drop_last()) == 0);
        assert(digits_val(sub) == digits_val(sub.drop_last()) * 10 + digit_val(c2));
        assert(digits_val(sub) == digit_val(c1) * 10 + digit_val(c2));
    }
    d1 * 10 + d2
}

} // verus!
