//! Splitting and comparing pieces of text, with exact specifications.

use vstd::prelude::*;

verus! {

/// First position at or after `i` holding `sep` (or the end).
pub open spec fn sep_run_end(s: Seq<char>, sep: char, i: int) -> int
    decreases s.len() - i when i <= s.len()
{
    if i < 0 || i >= s.len() {
        i
    } else if s[i] == sep {
        i
    } else {
        sep_run_end(s, sep, i + 1)
    }
}

/// The pieces of `s` between occurrences of `sep`, in order. A string
/// without the separator is one piece; every separator ends a piece, so
/// `n` separators give `n + 1` pieces, empty pieces included.
pub open spec fn split_on(s: Seq<char>, sep: char) -> Seq<Seq<char>>
    decreases s.len(),
{
    let k = sep_run_end(s, sep, 0);
    if !(0 <= k < s.len()) {
        seq![s]
    } else {
        seq![s.subrange(0, k)] + split_on(s.subrange(k + 1, s.len() as int), sep)
    }
}

/// A separator at `k` with none before it pins `sep_run_end` down exactly.
pub proof fn lemma_sep_run_exact(s: Seq<char>, sep: char, k: int)
    requires
        0 <= k <= s.len(),
        forall|x: int| 0 <= x < k ==> s[x] != sep,
        k == s.len() || s[k] == sep,
    ensures
        sep_run_end(s, sep, 0) == k,
{
    lemma_sep_run_exact_from(s, sep, 0, k);
}

proof fn lemma_sep_run_exact_from(s: Seq<char>, sep: char, i: int, k: int)
    requires
        0 <= i <= k <= s.len(),
        forall|x: int| i <= x < k ==> s[x] != sep,
        k == s.len() || s[k] == sep,
    ensures
        sep_run_end(s, sep, i) == k,
    decreases k - i,
{
    if i < k {
        lemma_sep_run_exact_from(s, sep, i + 1, k);
    }
}

/// A piece without the separator splits into itself alone.
pub proof fn lemma_split_single(u: Seq<char>, sep: char)
    requires
        forall|x: int| 0 <= x < u.len() ==> u[x] != sep,
    ensures
        split_on(u, sep) == seq![u],
{
    lemma_sep_run_exact(u, sep, u.len() as int);
}

/// Splitting a string that opens with a separator-free piece and one
/// separator yields that piece and then the split of the rest.
pub proof fn lemma_split_head(a: Seq<char>, sep: char, rest: Seq<char>)
    requires
        forall|x: int| 0 <= x < a.len() ==> a[x] != sep,
    ensures
        split_on(a + seq![sep] + rest, sep) == seq![a] + split_on(rest, sep),
{
    let s = a + seq![sep] + rest;
    assert(s.len() == a.len() + 1 + rest.len());
    assert forall|x: int| 0 <= x < a.len() implies s[x] != sep by {
        assert(s[x] == a[x]);
    }
    assert(s[a.len() as int] == sep);
    lemma_sep_run_exact(s, sep, a.len() as int);
    assert(s.subrange(0, a.len() as int) =~= a);
    assert(s.subrange(a.len() as int + 1, s.len() as int) =~= rest);
}

/// Splits `s` on `sep`, exactly as [`split_on`] states.
pub fn split_str(s: &str, sep: char) -> (parts: Vec<String>)
    ensures
        parts.deep_view() == split_on(s@, sep),
{
    let n = s.unicode_len();
    let mut parts: Vec<String> = Vec::new();
    let mut start: usize = 0;
    let mut i: usize = 0;
    proof {
        assert(s@.subrange(0, n as int) =~= s@);
        assert(parts.deep_view() =~~= Seq::<Seq<char>>::empty());
        assert(parts.deep_view() + split_on(s@.subrange(0, n as int), sep) =~~= split_on(
            s@,
            sep,
        ));
    }
    while i < n
        invariant
            0 <= start <= i <= n == s@.len(),
            forall|x: int| start <= x < i ==> s@[x] != sep,
            split_on(s@, sep) =~~= parts.deep_view() + split_on(
                s@.subrange(start as int, n as int),
                sep,
            ),
        decreases n - i,
    {
        let ghost prev = parts.deep_view();
        let c = s.get_char(i);
        if c == sep {
            let piece = s.substring_char(start, i);
            parts.push(piece.to_owned());
            proof {
                let u = s@.subrange(start as int, n as int);
                assert forall|x: int| 0 <= x < i - start implies u[x] != sep by {
                    assert(u[x] == s@[start + x]);
                }
                assert(u[i - start] == sep);
                lemma_sep_run_exact(u, sep, i - start);
                assert(u.subrange(0, i - start) =~= s@.subrange(start as int, i as int));
                assert(u.subrange(i - start + 1, u.len() as int) =~= s@.subrange(
                    i as int + 1,
                    n as int,
                ));
                assert(piece@ == s@.subrange(start as int, i as int));
                assert(parts.deep_view() =~~= prev.push(piece@));
                assert(split_on(u, sep) =~~= seq![piece@] + split_on(
                    s@.subrange(i as int + 1, n as int),
                    sep,
                ));
                assert(prev + split_on(u, sep) =~~= parts.deep_view() + split_on(
                    s@.subrange(i as int + 1, n as int),
                    sep,
                ));
            }
            start = i + 1;
        }
        i = i + 1;
    }
    let ghost prev = parts.deep_view();
    let piece = s.substring_char(start, n);
    parts.push(piece.to_owned());
    proof {
        let u = s@.subrange(start as int, n as int);
        assert forall|x: int| 0 <= x < u.len() implies u[x] != sep by {
            assert(u[x] == s@[start + x]);
        }
        lemma_split_single(u, sep);
        assert(piece@ == u);
        assert(parts.deep_view() =~~= prev.push(piece@));
        assert(prev + seq![u] =~~= parts.deep_view());
    }
    parts
}

/// Whether two pieces of text are the same characters.
pub fn str_eq(a: &str, b: &str) -> (r: bool)
    ensures
        r == (a@ == b@),
{
    let n = a.unicode_len();
    let m = b.unicode_len();
    if n != m {
        return false;
    }
    let mut i: usize = 0;
    while i < n
        invariant
            0 <= i <= n == a@.len(),
            n == b@.len(),
            forall|x: int| 0 <= x < i ==> a@[x] == b@[x],
        decreases n - i,
    {
        if a.get_char(i) != b.get_char(i) {
            return false;
        }
        i = i + 1;
    }
    proof {
        assert(a@ =~= b@);
    }
    true
}

/// Whether `p` occurs in `s` as a contiguous run.
pub open spec fn contains_sub(s: Seq<char>, p: Seq<char>) -> bool {
    exists|i: int|
        0 <= i && i + p.len() <= s.len() && #[trigger] s.subrange(i, i + p.len() as int) == p
}

/// Whether `needle` occurs in `hay`, decided exactly.
pub fn find_sub(hay: &str, needle: &str) -> (r: bool)
    ensures
        r == contains_sub(hay@, needle@),
{
    let n = hay.unicode_len();
    let m = needle.unicode_len();
    if m > n {
        proof {
            assert(!contains_sub(hay@, needle@));
        }
        return false;
    }
    if m == 0 {
        proof {
            assert(hay@.subrange(0, 0 + needle@.len() as int) =~= needle@);
            assert(contains_sub(hay@, needle@));
        }
        return true;
    }
    let mut i: usize = 0;
    while i <= n - m
        invariant
            0 <= i <= n - m + 1,
            n == hay@.len(),
            m == needle@.len(),
            1 <= m <= n,
            forall|k: int|
                0 <= k < i ==> #[trigger] hay@.subrange(k, k + needle@.len() as int)
                    != needle@,
        decreases n + 1 - m - i,
    {
        let mut j: usize = 0;
        let mut matched = true;
        while j < m
            invariant
                0 <= j <= m == needle@.len(),
                0 <= i <= n - m,
                n == hay@.len(),
                matched ==> forall|x: int| 0 <= x < j ==> hay@[i + x] == needle@[x],
                !matched ==> hay@.subrange(i as int, i + needle@.len() as int) != needle@,
            decreases m - j,
        {
            if hay.get_char(i + j) != needle.get_char(j) {
                proof {
                    let sub = hay@.subrange(i as int, i + needle@.len() as int);
                    assert(sub[j as int] == hay@[i + j]);
                }
                matched = false;
                j = m;
            } else {
                j = j + 1;
            }
        }
        if matched {
            proof {
                let sub = hay@.subrange(i as int, i + needle@.len() as int);
                assert forall|x: int| 0 <= x < needle@.len() implies sub[x] == needle@[x] by {
                    assert(sub[x] == hay@[i + x]);
                }
                assert(sub =~= needle@);
            }
            return true;
        }
        i = i + 1;
    }
    proof {
        assert forall|k: int|
            0 <= k && k + needle@.len() <= hay@.len() implies #[trigger] hay@.subrange(
            k,
            k + needle@.len() as int,
        ) != needle@ by {
            assert(k < i);
        }
    }
    false
}

} // verus!
