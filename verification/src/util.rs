//! Paths into JSON documents: the slash-separated key form.

use vstd::prelude::*;

use crate::text::{split_on, split_str};

verus! {

/// The pieces of a split with the empty ones removed.
pub open spec fn keep_non_empty(ps: Seq<Seq<char>>) -> Seq<Seq<char>>
    decreases ps.len(),
{
    if ps.len() == 0 {
        ps
    } else {
        let rest = keep_non_empty(ps.drop_last());
        if ps.last().len() > 0 {
            rest.push(ps.last())
        } else {
            rest
        }
    }
}

/// The keys a slash-separated path names, empty segments dropped, so that
/// `a//b/` and `a/b` name the same keys.
pub open spec fn path_keys(s: Seq<char>) -> Seq<Seq<char>> {
    keep_non_empty(split_on(s, '/'))
}

/// Splits a slash-separated path into its keys, exactly as [`path_keys`]
/// states.
pub fn split_path(key: &str) -> (parts: Vec<String>)
    ensures
        parts.deep_view() == path_keys(key@),
{
    let raw = split_str(key, '/');
    let ghost ps = split_on(key@, '/');
    let n = raw.len();
    let mut parts: Vec<String> = Vec::new();
    let mut i: usize = 0;
    proof {
        assert(raw.deep_view().len() == raw@.len());
        assert(ps.subrange(0, 0) =~~= Seq::<Seq<char>>::empty());
        assert(parts.deep_view() =~~= keep_non_empty(ps.subrange(0, 0)));
    }
    while i < n
        invariant
            0 <= i <= n == raw@.len(),
            raw.deep_view() == ps,
            parts.deep_view() =~~= keep_non_empty(ps.subrange(0, i as int)),
        decreases n - i,
    {
        let ghost prev = parts.deep_view();
        let keep = raw[i].as_str().unicode_len() > 0;
        proof {
            assert(raw.deep_view()[i as int] == raw@[i as int]@);
            let p1 = ps.subrange(0, i as int + 1);
            assert(p1.drop_last() =~~= ps.subrange(0, i as int));
            assert(p1.last() == ps[i as int]);
        }
        if keep {
            let piece = raw[i].clone();
            parts.push(piece);
            proof {
                assert(piece@ == ps[i as int]);
                assert(parts.deep_view() =~~= prev.push(piece@));
            }
        }
        i = i + 1;
    }
    proof {
        assert(ps.subrange(0, n as int) =~~= ps);
    }
    parts
}

} // verus!
