//! Decimal digit sequences: parsing and printing of integers, with exact
//! specifications relating the text form to the numeric value.

use vstd::prelude::*;

verus! {

/// Whether `c` is an ASCII decimal digit.
pub open spec fn is_digit(c: char) -> bool {
    '0' <= c && c <= '9'
}

/// Numeric value of a single decimal digit character.
pub open spec fn digit_val(c: char) -> nat {
    (c as nat - '0' as nat) as nat
}

/// Whether every character of `s` is a decimal digit.
pub open spec fn all_digits(s: Seq<char>) -> bool {
    forall|i: int| 0 <= i < s.len() ==> is_digit(#[trigger] s[i])
}

/// Value of a digit sequence read in base 10 (empty sequence reads as 0).
pub open spec fn digits_val(s: Seq<char>) -> nat
    decreases s.len(),
{
    if s.len() == 0 {
        0
    } else {
        digits_val(s.drop_last()) * 10 + digit_val(s.last())
    }
}

/// The digit character for a value below ten.
pub open spec fn dec_digit(n: nat) -> char {
    if n == 0 {
        '0'
    } else if n == 1 {
        '1'
    } else if n == 2 {
        '2'
    } else if n == 3 {
        '3'
    } else if n == 4 {
        '4'
    } else if n == 5 {
        '5'
    } else if n == 6 {
        '6'
    } else if n == 7 {
        '7'
    } else if n == 8 {
        '8'
    } else {
        '9'
    }
}

/// Shortest decimal representation of a natural number.
pub open spec fn dec_rep(n: nat) -> Seq<char>
    decreases n,
{
    if n < 10 {
        seq![dec_digit(n)]
    } else {
        dec_rep(n / 10).push(dec_digit(n % 10))
    }
}

/// Decimal representation of an integer, with a leading minus sign when
/// negative.
pub open spec fn dec_rep_int(n: int) -> Seq<char> {
    if n < 0 {
        seq!['-'] + dec_rep((-n) as nat)
    } else {
        dec_rep(n as nat)
    }
}

/// Decimal representation padded with zeros on the left to at least two
/// characters, as `{:02}` formatting prints it.
pub open spec fn pad2(n: nat) -> Seq<char> {
    if n < 10 {
        seq!['0'] + dec_rep(n)
    } else {
        dec_rep(n)
    }
}

/// Ten to the `n`.
pub open spec fn pow10(n: nat) -> nat
    decreases n,
{
    if n == 0 {
        1
    } else {
        10 * pow10((n - 1) as nat)
    }
}

/// What `str::parse::<i64>` accepts: an optional sign followed by at least
/// one digit, with the value in range.
pub open spec fn parse_i64_spec(s: Seq<char>) -> Option<i64> {
    let neg = s.len() > 0 && s[0] == '-';
    let rest = if s.len() > 0 && (s[0] == '-' || s[0] == '+') {
        s.subrange(1, s.len() as int)
    } else {
        s
    };
    if rest.len() > 0 && all_digits(rest) {
        let m = digits_val(rest);
        if neg {
            if m <= 0x8000_0000_0000_0000 {
                Some((-(m as int)) as i64)
            } else {
                None
            }
        } else {
            if m <= 0x7fff_ffff_ffff_ffff {
                Some(m as i64)
            } else {
                None
            }
        }
    } else {
        None
    }
}

/// What `str::parse::<u32>` accepts: an optional plus sign followed by at
/// least one digit, with the value in range.
pub open spec fn parse_u32_spec(s: Seq<char>) -> Option<u32> {
    let rest = if s.len() > 0 && s[0] == '+' {
        s.subrange(1, s.len() as int)
    } else {
        s
    };
    if rest.len() > 0 && all_digits(rest) && digits_val(rest) <= 0xffff_ffff {
        Some(digits_val(rest) as u32)
    } else {
        None
    }
}

pub proof fn lemma_pow10_pos(n: nat)
    ensures
        pow10(n) >= 1,
    decreases n,
{
    if n > 0 {
        lemma_pow10_pos((n - 1) as nat);
    }
}

/// Reading a concatenation of digit runs: the left part is shifted by the
/// length of the right part.
pub proof fn lemma_digits_val_append(a: Seq<char>, b: Seq<char>)
    ensures
        digits_val(a + b) == digits_val(a) * pow10(b.len()) + digits_val(b),
    decreases b.len(),
{
    if b.len() == 0 {
        assert(a + b =~= a);
        assert(digits_val(b) == 0);
        assert(pow10(b.len()) == 1);
        assert(digits_val(a + b) == digits_val(a));
        assert(digits_val(a) * pow10(b.len()) + digits_val(b) == digits_val(a) * 1);
        assert(digits_val(a) * 1 == digits_val(a)) by (nonlinear_arith);
    } else {
        lemma_digits_val_append(a, b.drop_last());
        assert((a + b).drop_last() =~= a + b.drop_last());
        assert((a + b).last() == b.last());
        let k = (b.len() - 1) as nat;
        let x = digits_val(a);
        let y = digits_val(b.drop_last());
        let d = digit_val(b.last());
        let p = pow10(k);
        assert(digits_val(a + b) == (x * p + y) * 10 + d);
        assert(digits_val(b) == y * 10 + d);
        assert((x * p + y) * 10 + d == x * (10 * p) + (y * 10 + d)) by (nonlinear_arith);
        assert(pow10(b.len()) == 10 * p);
        assert(x * pow10(b.len()) == x * (10 * p));
        assert(digits_val(a + b) == x * pow10(b.len()) + digits_val(b));
    }
}

/// A digit run reads as at least the value of any of its prefixes.
pub proof fn lemma_digits_val_prefix(s: Seq<char>, k: int)
    requires
        0 <= k <= s.len(),
    ensures
        digits_val(s) >= digits_val(s.subrange(0, k)),
{
    let a = s.subrange(0, k);
    let b = s.subrange(k, s.len() as int);
    assert(s =~= a + b);
    lemma_digits_val_append(a, b);
    lemma_pow10_pos(b.len());
    assert(digits_val(a) * pow10(b.len()) >= digits_val(a) * 1) by (nonlinear_arith)
        requires pow10(b.len()) >= 1;
}

/// The decimal representation consists of digits only.
pub proof fn lemma_dec_rep_digits(n: nat)
    ensures
        all_digits(dec_rep(n)),
        dec_rep(n).len() >= 1,
    decreases n,
{
    if n >= 10 {
        lemma_dec_rep_digits(n / 10);
        assert forall|i: int| 0 <= i < dec_rep(n).len() implies is_digit(#[trigger] dec_rep(n)[i])
        by {
            if i < dec_rep(n).len() - 1 {
                assert(dec_rep(n)[i] == dec_rep(n / 10)[i]);
            }
        }
    }
}

/// A digit character made from a value below ten reads back as that value.
pub proof fn lemma_digit_val_dec_digit(n: nat)
    requires
        n < 10,
    ensures
        digit_val(dec_digit(n)) == n,
{
    assert(digit_val('0') == 0);
    assert(digit_val('1') == 1);
    assert(digit_val('2') == 2);
    assert(digit_val('3') == 3);
    assert(digit_val('4') == 4);
    assert(digit_val('5') == 5);
    assert(digit_val('6') == 6);
    assert(digit_val('7') == 7);
    assert(digit_val('8') == 8);
    assert(digit_val('9') == 9);
}

/// A two-character padded field consists of digits and reads back as its
/// value.
pub proof fn lemma_pad2_props(n: nat)
    requires
        n <= 99,
    ensures
        pad2(n).len() == 2,
        all_digits(pad2(n)),
        digits_val(pad2(n)) == n,
{
    lemma_dec_rep_digits(n);
    lemma_dec_rep_val(n);
    if n < 10 {
        let s = pad2(n);
        assert(s =~= seq!['0'] + dec_rep(n));
        assert(s.len() == 2);
        assert(s.last() == dec_rep(n)[0]);
        assert(dec_rep(n) =~= seq![dec_digit(n)]);
        lemma_digit_val_dec_digit(n);
        assert(s.drop_last() =~= seq!['0']);
        assert(s.drop_last().len() == 1);
        assert(s.drop_last().last() == '0');
        assert(s.drop_last().drop_last() =~= Seq::<char>::empty());
        assert(digits_val(s.drop_last().drop_last()) == 0);
        assert(digits_val(s.drop_last()) == digits_val(s.drop_last().drop_last()) * 10
            + digit_val(s.drop_last().last()));
        assert(digit_val('0') == 0);
        assert(digits_val(s) == digits_val(s.drop_last()) * 10 + digit_val(s.last()));
        assert(forall|i: int| 0 <= i < s.len() ==> is_digit(#[trigger] s[i]));
    } else {
        assert(pad2(n) == dec_rep(n));
        assert(dec_rep(n) == dec_rep(n / 10).push(dec_digit(n % 10)));
        assert(n / 10 < 10);
        assert(dec_rep(n / 10).len() == 1);
        assert(dec_rep(n).len() == 2);
    }
}

/// Printing then reading gives the value back.
pub proof fn lemma_dec_rep_val(n: nat)
    ensures
        digits_val(dec_rep(n)) == n,
    decreases n,
{
    if n < 10 {
        lemma_digit_val_dec_digit(n);
        let s = dec_rep(n);
        assert(s == seq![dec_digit(n)]);
        assert(s.len() == 1);
        assert(s.last() == dec_digit(n));
        assert(s.drop_last() =~= Seq::<char>::empty());
        assert(digits_val(s.drop_last()) == 0);
        assert(digits_val(s) == digits_val(s.drop_last()) * 10 + digit_val(s.last()));
    } else {
        lemma_dec_rep_val(n / 10);
        lemma_digit_val_dec_digit(n % 10);
        let s = dec_rep(n);
        assert(s == dec_rep(n / 10).push(dec_digit(n % 10)));
        assert(s.len() == dec_rep(n / 10).len() + 1);
        assert(s.last() == dec_digit(n % 10));
        assert(s.drop_last() =~= dec_rep(n / 10));
        assert(digits_val(s) == digits_val(s.drop_last()) * 10 + digit_val(s.last()));
        assert(digits_val(s) == (n / 10) * 10 + n % 10);
    }
}

/// Appends the decimal digits of `n` to `out`.
pub fn append_dec_u64(out: &mut String, n: u64)
    ensures
        final(out)@ == old(out)@ + dec_rep(n as nat),
    decreases n,
{
    if n >= 10 {
        append_dec_u64(out, n / 10);
        append_digit(out, n % 10);
        assert(old(out)@ + dec_rep((n / 10) as nat) + seq![dec_digit((n % 10) as nat)]
            =~= old(out)@ + dec_rep(n as nat));
    } else {
        append_digit(out, n);
        assert(old(out)@ + seq![dec_digit(n as nat)] =~= old(out)@ + dec_rep(n as nat));
    }
}

/// Appends one digit character (`n` below ten) to `out`.
pub fn append_digit(out: &mut String, n: u64)
    requires
        n < 10,
    ensures
        final(out)@ == old(out)@ + seq![dec_digit(n as nat)],
{
    proof {
        reveal_strlit("0");
        reveal_strlit("1");
        reveal_strlit("2");
        reveal_strlit("3");
        reveal_strlit("4");
        reveal_strlit("5");
        reveal_strlit("6");
        reveal_strlit("7");
        reveal_strlit("8");
        reveal_strlit("9");
    }
    if n == 0 {
        out.append("0");
    } else if n == 1 {
        out.append("1");
    } else if n == 2 {
        out.append("2");
    } else if n == 3 {
        out.append("3");
    } else if n == 4 {
        out.append("4");
    } else if n == 5 {
        out.append("5");
    } else if n == 6 {
        out.append("6");
    } else if n == 7 {
        out.append("7");
    } else if n == 8 {
        out.append("8");
    } else {
        out.append("9");
    }
    proof {
        assert(final(out)@ =~= old(out)@ + seq![dec_digit(n as nat)]);
    }
}

/// Appends the decimal digits of `n`, padded to at least two characters.
pub fn append_pad2(out: &mut String, n: u64)
    ensures
        final(out)@ == old(out)@ + pad2(n as nat),
{
    if n < 10 {
        append_digit(out, 0);
        append_digit(out, n);
        assert(old(out)@ + seq![dec_digit(0)] + seq![dec_digit(n as nat)]
            =~= old(out)@ + pad2(n as nat));
    } else {
        append_dec_u64(out, n);
    }
}

/// Appends the decimal form of `n`, with a minus sign when negative.
pub fn append_dec_i64(out: &mut String, n: i64)
    ensures
        final(out)@ == old(out)@ + dec_rep_int(n as int),
{
    if n < 0 {
        proof {
            reveal_strlit("-");
        }
        out.append("-");
        let m: u64 = if n == i64::MIN {
            9223372036854775808u64
        } else {
            (-n) as u64
        };
        append_dec_u64(out, m);
        assert(final(out)@ =~= old(out)@ + dec_rep_int(n as int));
    } else {
        append_dec_u64(out, n as u64);
    }
}

/// Reads the digit run `s[lo..hi]` as a value, answering `None` exactly when
/// the value exceeds `max`.
pub fn digits_val_checked(s: &str, lo: usize, hi: usize, max: u64) -> (r: Option<u64>)
    requires
        lo <= hi <= s@.len(),
        all_digits(s@.subrange(lo as int, hi as int)),
    ensures
        match r {
            Some(v) => digits_val(s@.subrange(lo as int, hi as int)) == v && v <= max,
            None => digits_val(s@.subrange(lo as int, hi as int)) > max,
        },
{
    let ghost whole = s@.subrange(lo as int, hi as int);
    let mut acc: u64 = 0;
    let mut i: usize = lo;
    while i < hi
        invariant
            lo <= i <= hi <= s@.len(),
            all_digits(whole),
            whole == s@.subrange(lo as int, hi as int),
            acc == digits_val(s@.subrange(lo as int, i as int)),
            acc <= max,
        decreases hi - i,
    {
        let c = s.get_char(i);
        proof {
            assert(whole[i - lo] == s@[i as int]);
        }
        let d: u64 = (c as u32 as u64) - ('0' as u32 as u64);
        let ghost prefix = s@.subrange(lo as int, i as int);
        let ghost prefix1 = s@.subrange(lo as int, i as int + 1);
        proof {
            assert(prefix1.drop_last() =~= prefix);
            assert(prefix1.last() == s@[i as int]);
        }
        if acc > max / 10 || (acc == max / 10 && d > max % 10) {
            proof {
                assert(acc * 10 + d > max) by (nonlinear_arith)
                    requires
                        acc > max / 10 || (acc == max / 10 && d > max % 10),
                        max == (max / 10) * 10 + max % 10,
                        0 <= max % 10 < 10,
                        acc >= 0,
                        d >= 0,
                ;
                assert(digits_val(prefix1) > max);
                lemma_digits_val_prefix(whole, i + 1 - lo);
                assert(whole.subrange(0, i + 1 - lo) =~= prefix1);
            }
            return None;
        }
        proof {
            assert(acc * 10 + d <= max) by (nonlinear_arith)
                requires
                    acc <= max / 10,
                    !(acc == max / 10 && d > max % 10),
                    max == (max / 10) * 10 + max % 10,
                    0 <= max % 10 < 10,
                    0 <= d <= 9,
                    acc >= 0,
            ;
        }
        acc = acc * 10 + d;
        i = i + 1;
    }
    assert(s@.subrange(lo as int, hi as int) =~= whole);
    Some(acc)
}

/// Whether `s[lo..hi]` consists of decimal digits only, decided exactly.
pub fn check_all_digits(s: &str, lo: usize, hi: usize) -> (r: bool)
    requires
        lo <= hi <= s@.len(),
    ensures
        r == all_digits(s@.subrange(lo as int, hi as int)),
{
    let ghost whole = s@.subrange(lo as int, hi as int);
    let mut i: usize = lo;
    while i < hi
        invariant
            lo <= i <= hi <= s@.len(),
            whole == s@.subrange(lo as int, hi as int),
            forall|j: int| lo <= j < i ==> is_digit(#[trigger] s@[j]),
        decreases hi - i,
    {
        let c = s.get_char(i);
        if !('0' <= c && c <= '9') {
            assert(!is_digit(whole[i - lo]));
            return false;
        }
        i = i + 1;
    }
    assert forall|j: int| 0 <= j < whole.len() implies is_digit(#[trigger] whole[j]) by {
        assert(whole[j] == s@[lo + j]);
    }
    true
}

/// Parses `s` as `str::parse::<i64>` does.
pub fn parse_i64(s: &str) -> (r: Option<i64>)
    ensures
        r == parse_i64_spec(s@),
{
    let n = s.unicode_len();
    if n == 0 {
        return None;
    }
    let first = s.get_char(0);
    let neg = first == '-';
    let lo: usize = if first == '-' || first == '+' {
        1
    } else {
        0
    };
    let ghost rest = if first == '-' || first == '+' {
        s@.subrange(1, s@.len() as int)
    } else {
        s@
    };
    proof {
        assert(rest =~= s@.subrange(lo as int, n as int));
    }
    if lo == n {
        return None;
    }
    if !check_all_digits(s, lo, n) {
        return None;
    }
    if neg {
        match digits_val_checked(s, lo, n, 0x8000_0000_0000_0000u64) {
            Some(m) => {
                if m == 0x8000_0000_0000_0000u64 {
                    Some(i64::MIN)
                } else {
                    Some(-(m as i64))
                }
            },
            None => None,
        }
    } else {
        match digits_val_checked(s, lo, n, 0x7fff_ffff_ffff_ffffu64) {
            Some(m) => Some(m as i64),
            None => None,
        }
    }
}

/// Parses `s` as `str::parse::<u32>` does.
pub fn parse_u32(s: &str) -> (r: Option<u32>)
    ensures
        r == parse_u32_spec(s@),
{
    let n = s.unicode_len();
    if n == 0 {
        return None;
    }
    let first = s.get_char(0);
    let lo: usize = if first == '+' {
        1
    } else {
        0
    };
    let ghost rest = if first == '+' {
        s@.subrange(1, s@.len() as int)
    } else {
        s@
    };
    proof {
        assert(rest =~= s@.subrange(lo as int, n as int));
    }
    if lo == n {
        return None;
    }
    if !check_all_digits(s, lo, n) {
        return None;
    }
    match digits_val_checked(s, lo, n, 0xffff_ffffu64) {
        Some(m) => Some(m as u32),
        None => None,
    }
}

} // verus!
