//! Slug keys: lower-case, hyphen-normalised, ASCII-safe identifier strings.
//!
//! A slug is made in three steps: every ASCII letter or digit is kept,
//! lower-cased, and every other character becomes a hyphen; runs of
//! hyphens collapse to one; leading and trailing hyphens are trimmed.

use vstd::prelude::*;

verus! {

/// Whether `c` is an ASCII letter or digit.
pub open spec fn is_ascii_alnum(c: char) -> bool {
    ('a' <= c && c <= 'z') || ('A' <= c && c <= 'Z') || ('0' <= c && c <= '9')
}

/// The ASCII lower-case form of `c`.
pub open spec fn lower_char(c: char) -> char {
    if 'A' <= c && c <= 'Z' {
        (((c as u8) + 32) as u8) as char
    } else {
        c
    }
}

/// What one character contributes to a slug.
pub open spec fn slug_char(c: char) -> char {
    if is_ascii_alnum(c) {
        lower_char(c)
    } else {
        '-'
    }
}

/// Every character mapped through [`slug_char`].
pub open spec fn mapped(s: Seq<char>) -> Seq<char> {
    Seq::new(s.len(), |i: int| slug_char(s[i]))
}

/// Adjacent repeated hyphens collapsed to one.
pub open spec fn collapsed(s: Seq<char>) -> Seq<char>
    decreases s.len(),
{
    if s.len() <= 1 {
        s
    } else {
        let rest = collapsed(s.drop_last());
        if s.last() == '-' && s[s.len() - 2] == '-' {
            rest
        } else {
            rest.push(s.last())
        }
    }
}

/// Leading hyphens removed.
pub open spec fn trim_start(s: Seq<char>) -> Seq<char>
    decreases s.len(),
{
    if s.len() > 0 && s[0] == '-' {
        trim_start(s.subrange(1, s.len() as int))
    } else {
        s
    }
}

/// Trailing hyphens removed.
pub open spec fn trim_end(s: Seq<char>) -> Seq<char>
    decreases s.len(),
{
    if s.len() > 0 && s.last() == '-' {
        trim_end(s.drop_last())
    } else {
        s
    }
}

/// The slug of `s`: mapped, collapsed and trimmed at both ends.
pub open spec fn slug_of(s: Seq<char>) -> Seq<char> {
    trim_end(trim_start(collapsed(mapped(s))))
}

/// Removing leading hyphens keeps the part from the first non-hyphen on.
proof fn lemma_trim_start_exact(x: Seq<char>, k: int)
    requires
        0 <= k <= x.len(),
        forall|i: int| 0 <= i < k ==> x[i] == '-',
        k == x.len() || x[k] != '-',
    ensures
        trim_start(x) == x.subrange(k, x.len() as int),
    decreases k,
{
    if k == 0 {
        assert(x.subrange(0, x.len() as int) =~= x);
    } else {
        assert(x[0] == '-');
        let y = x.subrange(1, x.len() as int);
        assert forall|i: int| 0 <= i < k - 1 implies y[i] == '-' by {
            assert(y[i] == x[i + 1]);
        }
        assert(k - 1 == y.len() || y[k - 1] != '-');
        lemma_trim_start_exact(y, k - 1);
        assert(y.subrange(k - 1, y.len() as int) =~= x.subrange(k, x.len() as int));
    }
}

/// Removing trailing hyphens keeps the part up to the last non-hyphen.
proof fn lemma_trim_end_exact(y: Seq<char>, k: int)
    requires
        -1 <= k < y.len(),
        forall|i: int| k < i < y.len() ==> y[i] == '-',
        k == -1 || y[k] != '-',
    ensures
        trim_end(y) == y.subrange(0, k + 1),
    decreases y.len(),
{
    if k + 1 == y.len() {
        assert(y.subrange(0, y.len() as int) =~= y);
    } else {
        assert(y.last() == '-');
        assert forall|i: int| k < i < y.len() - 1 implies y.drop_last()[i] == '-' by {
            assert(y.drop_last()[i] == y[i]);
        }
        lemma_trim_end_exact(y.drop_last(), k);
        assert(y.drop_last().subrange(0, k + 1) =~= y.subrange(0, k + 1));
    }
}

/// Relies on `String`'s `FromIterator` over `char`: collecting characters
/// builds the string of exactly those characters, in order.
#[verifier::external_body]
fn string_from_chars(v: Vec<char>) -> (r: String)
    ensures
        r@ == v@,
{
    v.into_iter().collect()
}

/// Builds the slug of `s`, exactly as [`slug_of`] states.
pub fn slug(s: &str) -> (r: String)
    ensures
        r@ == slug_of(s@),
{
    let n = s.unicode_len();
    let mut m: Vec<char> = Vec::new();
    let mut i: usize = 0;
    while i < n
        invariant
            0 <= i <= n == s@.len(),
            m@.len() == i,
            forall|k: int| 0 <= k < i ==> m@[k] == slug_char(s@[k]),
        decreases n - i,
    {
        let c = s.get_char(i);
        let mc: char = if ('a' <= c && c <= 'z') || ('0' <= c && c <= '9') {
            c
        } else if 'A' <= c && c <= 'Z' {
            ((c as u8) + 32) as char
        } else {
            '-'
        };
        proof {
            assert(mc == slug_char(s@[i as int]));
        }
        m.push(mc);
        i = i + 1;
    }
    proof {
        assert(m@ =~= mapped(s@));
    }
    let ghost big_m = mapped(s@);
    let len = m.len();
    let mut out: Vec<char> = Vec::new();
    let mut i: usize = 0;
    while i < len
        invariant
            0 <= i <= len == big_m.len(),
            m@ == big_m,
            out@ == collapsed(big_m.subrange(0, i as int)),
        decreases len - i,
    {
        let c = m[i];
        let skip = i > 0 && c == '-' && m[i - 1] == '-';
        proof {
            let p = big_m.subrange(0, i as int);
            let p1 = big_m.subrange(0, i as int + 1);
            assert(p1.drop_last() =~= p);
            assert(p1.last() == big_m[i as int]);
            if i > 0 {
                assert(p1[p1.len() - 2] == big_m[i as int - 1]);
            }
        }
        if !skip {
            out.push(c);
        }
        i = i + 1;
    }
    proof {
        assert(big_m.subrange(0, len as int) =~= big_m);
    }
    let ghost cc = collapsed(big_m);
    // trim: find the first and last positions that are not hyphens
    let olen = out.len();
    let mut a: usize = 0;
    while a < olen && out[a] == '-'
        invariant
            0 <= a <= olen == cc.len(),
            out@ == cc,
            forall|k: int| 0 <= k < a ==> cc[k] == '-',
        decreases olen - a,
    {
        a = a + 1;
    }
    if a == olen {
        proof {
            lemma_trim_start_exact(cc, a as int);
            assert(cc.subrange(a as int, cc.len() as int) =~= Seq::<char>::empty());
            assert(trim_end(Seq::<char>::empty()) =~= Seq::<char>::empty());
        }
        let r = string_from_chars(Vec::new());
        proof {
            assert(r@ =~= slug_of(s@));
        }
        return r;
    }
    let mut b: usize = olen - 1;
    while out[b] == '-' && b > a
        invariant
            a <= b < olen == cc.len(),
            out@ == cc,
            cc[a as int] != '-',
            forall|k: int| b < k < olen ==> cc[k] == '-',
        decreases b,
    {
        b = b - 1;
    }
    proof {
        assert(cc[b as int] != '-');
        lemma_trim_start_exact(cc, a as int);
        let y = cc.subrange(a as int, cc.len() as int);
        assert forall|i2: int| (b - a) < i2 < y.len() implies y[i2] == '-' by {
            assert(y[i2] == cc[a + i2]);
        }
        assert(y[b - a] == cc[b as int]);
        lemma_trim_end_exact(y, b - a);
        assert(y.subrange(0, b - a + 1) =~= cc.subrange(a as int, b as int + 1));
    }
    let mut res: Vec<char> = Vec::new();
    let mut i: usize = a;
    while i <= b
        invariant
            a <= i <= b + 1,
            b < olen == cc.len(),
            out@ == cc,
            res@ =~= cc.subrange(a as int, i as int),
        decreases b + 1 - i,
    {
        res.push(out[i]);
        proof {
            assert(res@ =~= cc.subrange(a as int, i as int + 1));
        }
        i = i + 1;
    }
    let r = string_from_chars(res);
    proof {
        assert(r@ =~= slug_of(s@));
    }
    r
}

} // verus!
