//! Scanning raw text for a fixed pattern followed by a `major.minor.patch`
//! triplet, collecting either every captured triplet or the first one.

use vstd::prelude::*;

use crate::bytes::{matches_at, matches_at_exec, view_set, lemma_view_set_push, copy_range};
use crate::version::{triplet_end, read_triplet_at};

verus! {

/// The triplet captured right after an occurrence of `pat` at position `p`
/// of `s`, when `pat` occurs there and a triplet follows it.
pub open spec fn prefix_triplet_at(s: Seq<u8>, pat: Seq<u8>, p: int) -> Option<Seq<u8>> {
    if matches_at(s, p, pat) {
        match triplet_end(s, p + pat.len()) {
            Some(e) => Some(s.subrange(p + pat.len(), e)),
            None => None,
        }
    } else {
        None
    }
}

/// Every triplet captured after an occurrence of `pat` anywhere in `s`.
pub open spec fn prefix_triplet_matches(s: Seq<u8>, pat: Seq<u8>) -> Set<Seq<u8>> {
    Set::new(|v: Seq<u8>| exists|p: int| prefix_triplet_at(s, pat, p) == Some(v))
}

/// The captures at positions below `bound`.
pub open spec fn prefix_triplet_matches_before(s: Seq<u8>, pat: Seq<u8>, bound: int) -> Set<
    Seq<u8>,
> {
    Set::new(|v: Seq<u8>| exists|p: int| p < bound && prefix_triplet_at(s, pat, p) == Some(v))
}

pub proof fn lemma_prefix_triplet_step(s: Seq<u8>, pat: Seq<u8>, p: int)
    ensures
        prefix_triplet_matches_before(s, pat, p + 1) =~= (match prefix_triplet_at(s, pat, p) {
            Some(v) => prefix_triplet_matches_before(s, pat, p).insert(v),
            None => prefix_triplet_matches_before(s, pat, p),
        }),
{
    let before = prefix_triplet_matches_before(s, pat, p);
    let after = prefix_triplet_matches_before(s, pat, p + 1);
    assert forall|v: Seq<u8>| after.contains(v) implies (match prefix_triplet_at(s, pat, p) {
        Some(w) => before.insert(w),
        None => before,
    }).contains(v) by {
        let q = choose|q: int| q < p + 1 && prefix_triplet_at(s, pat, q) == Some(v);
        if q < p {
            assert(before.contains(v));
        }
    }
}

/// No capture starts at or past the end of `s`.
pub proof fn lemma_prefix_triplet_done(s: Seq<u8>, pat: Seq<u8>)
    ensures
        prefix_triplet_matches_before(s, pat, s.len() as int) =~= prefix_triplet_matches(s, pat),
{
    assert forall|v: Seq<u8>| prefix_triplet_matches(s, pat).contains(v) implies
        prefix_triplet_matches_before(s, pat, s.len() as int).contains(v) by {
        let q = choose|q: int| prefix_triplet_at(s, pat, q) == Some(v);
        if q >= s.len() {
            assert(q + pat.len() >= s.len());
            assert(triplet_end(s, q + pat.len()) is None);
            assert(false);
        }
        assert(q < s.len() && prefix_triplet_at(s, pat, q) == Some(v));
    }
}

/// Collects into `out` every triplet of `s` that an occurrence of `pat`
/// introduces.
#[verifier::loop_isolation(false)]
pub fn scan_prefix_triplets(s: &Vec<u8>, pat: &Vec<u8>, out: &mut Vec<Vec<u8>>)
    ensures
        view_set(final(out)@) =~= view_set(old(out)@).union(prefix_triplet_matches(s@, pat@)),
{
    let mut p: usize = 0;
    proof {
        assert(view_set(out@) =~= view_set(old(out)@).union(
            prefix_triplet_matches_before(s@, pat@, 0),
        ));
    }
    while p < s.len()
        invariant
            0 <= p <= s.len(),
            view_set(out@) =~= view_set(old(out)@).union(
                prefix_triplet_matches_before(s@, pat@, p as int),
            ),
        decreases s.len() - p,
    {
        proof {
            lemma_prefix_triplet_step(s@, pat@, p as int);
        }
        if matches_at_exec(s, p, pat) {
            match read_triplet_at(s, p + pat.len()) {
                Some((e, _, _, _)) => {
                    let v = copy_range(s, p + pat.len(), e);
                    proof {
                        lemma_view_set_push(out@, v);
                    }
                    out.push(v);
                },
                None => {},
            }
        }
        p = p + 1;
    }
    proof {
        lemma_prefix_triplet_done(s@, pat@);
    }
}

/// The first capture of `pat` plus triplet at or after position `p` of `s`.
pub open spec fn first_prefix_triplet_from(s: Seq<u8>, pat: Seq<u8>, p: int) -> Option<Seq<u8>>
    decreases s.len() - p when 0 <= p <= s.len()
{
    if p < 0 || p >= s.len() {
        None
    } else if prefix_triplet_at(s, pat, p) is Some {
        prefix_triplet_at(s, pat, p)
    } else {
        first_prefix_triplet_from(s, pat, p + 1)
    }
}

/// Finds the first capture of `pat` plus triplet in `s`.
#[verifier::loop_isolation(false)]
pub fn first_prefix_triplet(s: &Vec<u8>, pat: &Vec<u8>) -> (r: Option<Vec<u8>>)
    ensures
        (match r {
            Some(v) => first_prefix_triplet_from(s@, pat@, 0) == Some(v@),
            None => first_prefix_triplet_from(s@, pat@, 0) is None,
        }),
{
    let mut p: usize = 0;
    while p < s.len()
        invariant
            0 <= p <= s.len(),
            first_prefix_triplet_from(s@, pat@, 0) == first_prefix_triplet_from(
                s@,
                pat@,
                p as int,
            ),
        decreases s.len() - p,
    {
        if matches_at_exec(s, p, pat) {
            match read_triplet_at(s, p + pat.len()) {
                Some((e, _, _, _)) => {
                    let v = copy_range(s, p + pat.len(), e);
                    return Some(v);
                },
                None => {},
            }
        }
        p = p + 1;
    }
    None
}

} // verus!
