//! Selection of the candidate directories: out of the tree's file paths,
//! the parents of every manifest file outside excluded directories, plus
//! the root itself when it holds a manifest — deduplicated and sorted.

use vstd::prelude::*;
use vstd::relations::sorted_by;

use crate::bytes::{
    matches_at, matches_at_exec, view_set, views_of, clone_bytes, copy_range, bytes_eq,
    lemma_view_set_push, lemma_lex_le_antisym, lemma_lex_le_trans, SLASH,
};
use crate::aggregate::{sort_found, lex_leq, lemma_lex_leq_total_ordering};

verus! {

/// The bytes of the manifest file name `package.json`.
pub open spec fn manifest_file_name() -> Seq<u8> {
    seq![112u8, 97u8, 99u8, 107u8, 97u8, 103u8, 101u8, 46u8, 106u8, 115u8, 111u8, 110u8]
}

/// Builds the manifest file name `package.json`.
fn manifest_file_name_vec() -> (r: Vec<u8>)
    ensures
        r@ == manifest_file_name(),
{
    let v: Vec<u8> = vec![112u8, 97u8, 99u8, 107u8, 97u8, 103u8, 101u8, 46u8, 106u8, 115u8, 111u8, 110u8];
    proof {
        assert(v@ =~= manifest_file_name());
    }
    v
}

/// The bytes of the excluded directory name `.nx`.
pub open spec fn excluded_component() -> Seq<u8> {
    seq![46u8, 110u8, 120u8]
}

/// Builds the excluded directory name `.nx`.
fn excluded_component_vec() -> (r: Vec<u8>)
    ensures
        r@ == excluded_component(),
{
    let v: Vec<u8> = vec![46u8, 110u8, 120u8];
    proof {
        assert(v@ =~= excluded_component());
    }
    v
}

/// `c` stands somewhere in the `/`-separated path `p` as a whole component.
pub open spec fn has_component(p: Seq<u8>, c: Seq<u8>) -> bool {
    exists|a: int|
        matches_at(p, a, c) && (a == 0 || p[a - 1] == SLASH) && (a + c.len() == p.len() || p[a
            + c.len()] == SLASH)
}

/// Decides whether `c` stands in `p` as a whole component.
pub fn has_component_exec(p: &Vec<u8>, c: &Vec<u8>) -> (r: bool)
    requires
        c@.len() > 0,
    ensures
        r == has_component(p@, c@),
{
    let mut a: usize = 0;
    while a < p.len()
        invariant
            0 <= a <= p.len(),
            forall|q: int|
                0 <= q < a ==> !(matches_at(p@, q, c@) && (q == 0 || p@[q - 1] == SLASH) && (q
                    + c@.len() == p@.len() || p@[q + c@.len()] == SLASH)),
        decreases p.len() - a,
    {
        if matches_at_exec(p, a, c) {
            let before_ok = a == 0 || p[a - 1] == SLASH;
            let after_ok = a + c.len() == p.len() || p[a + c.len()] == SLASH;
            if before_ok && after_ok {
                return true;
            }
        }
        a = a + 1;
    }
    proof {
        assert forall|q: int| !(#[trigger] matches_at(p@, q, c@) && (q == 0 || p@[q - 1] == SLASH)
            && (q + c@.len() == p@.len() || p@[q + c@.len()] == SLASH)) by {
            if q >= p.len() {
                assert(!matches_at(p@, q, c@));
            }
        }
    }
    false
}

/// The path names a manifest file: its last `/`-separated component is
/// `package.json`.
pub open spec fn is_manifest_path(p: Seq<u8>) -> bool {
    p.len() >= 12 && matches_at(p, p.len() - 12, manifest_file_name()) && (p.len() == 12 || p[p.len()
        - 13] == SLASH)
}

/// The directory part of a manifest path: everything before the final
/// separator, empty for a bare `package.json`.
pub open spec fn parent_dir(p: Seq<u8>) -> Seq<u8> {
    if p.len() <= 13 {
        Seq::empty()
    } else {
        p.take(p.len() - 13)
    }
}

/// The directory a file path contributes: the parent of a manifest file
/// that has no excluded component on its path.
pub open spec fn candidate_of(p: Seq<u8>) -> Option<Seq<u8>> {
    if is_manifest_path(p) && !has_component(p, excluded_component()) {
        Some(parent_dir(p))
    } else {
        None
    }
}

/// The set of directories to check: the contributions of all file paths,
/// plus the root itself when it holds a manifest.
pub open spec fn spec_candidates(paths: Seq<Vec<u8>>, root: Seq<u8>, root_has_manifest: bool) -> Set<
    Seq<u8>,
> {
    Set::new(
        |d: Seq<u8>|
            (exists|k: int| 0 <= k < paths.len() && candidate_of(#[trigger] paths[k]@) == Some(d))
                || (root_has_manifest && d == root),
    )
}

/// The contributions of the first `bound` file paths alone.
pub open spec fn spec_candidates_before(paths: Seq<Vec<u8>>, bound: int) -> Set<Seq<u8>> {
    Set::new(
        |d: Seq<u8>|
            exists|k: int| 0 <= k < bound && k < paths.len() && candidate_of(#[trigger] paths[k]@)
                == Some(d),
    )
}

proof fn lemma_candidates_step(paths: Seq<Vec<u8>>, k: int)
    requires
        0 <= k < paths.len(),
    ensures
        spec_candidates_before(paths, k + 1) =~= (match candidate_of(paths[k]@) {
            Some(d) => spec_candidates_before(paths, k).insert(d),
            None => spec_candidates_before(paths, k),
        }),
{
    assert forall|d: Seq<u8>| #[trigger] spec_candidates_before(paths, k + 1).contains(d) implies (
    match candidate_of(paths[k]@) {
        Some(w) => spec_candidates_before(paths, k).insert(w),
        None => spec_candidates_before(paths, k),
    }).contains(d) by {
        let q = choose|q: int|
            0 <= q < k + 1 && q < paths.len() && candidate_of(paths[q]@) == Some(d);
        if q < k {
            assert(spec_candidates_before(paths, k).contains(d));
        }
    }
}

/// Decides whether `p` contributes a directory, and which.
fn candidate_exec(p: &Vec<u8>, manifest_name: &Vec<u8>, excluded: &Vec<u8>) -> (r: Option<Vec<u8>>)
    requires
        manifest_name@ == manifest_file_name(),
        excluded@ == excluded_component(),
    ensures
        (match r {
            Some(d) => candidate_of(p@) == Some(d@),
            None => candidate_of(p@) is None,
        }),
{
    if p.len() < 12 {
        return None;
    }
    if !matches_at_exec(p, p.len() - 12, manifest_name) {
        return None;
    }
    if p.len() > 12 && p[p.len() - 13] != SLASH {
        return None;
    }
    if has_component_exec(p, excluded) {
        return None;
    }
    if p.len() <= 13 {
        proof {
            assert(Seq::<u8>::empty() =~= parent_dir(p@));
        }
        Some(Vec::new())
    } else {
        Some(copy_range(p, 0, p.len() - 13))
    }
}

/// Every view in a sequence with the same multiset of views is in the
/// other's view set too.
proof fn lemma_view_set_of_multiset(a: Seq<Vec<u8>>, b: Seq<Vec<u8>>)
    requires
        views_of(a).to_multiset() == views_of(b).to_multiset(),
    ensures
        view_set(a) =~= view_set(b),
{
    broadcast use vstd::seq_lib::group_to_multiset_ensures;

    assert forall|v: Seq<u8>| #[trigger] view_set(a).contains(v) implies view_set(b).contains(
        v,
    ) by {
        let i = choose|i: int| 0 <= i < a.len() && a[i]@ == v;
        assert(views_of(a)[i] == v);
        assert(views_of(a).contains(v));
        assert(views_of(a).to_multiset().count(v) > 0);
        assert(views_of(b).to_multiset().count(v) > 0);
        assert(views_of(b).contains(v));
        let j = choose|j: int| 0 <= j < views_of(b).len() && views_of(b)[j] == v;
        assert(b[j]@ == v);
    }
    assert forall|v: Seq<u8>| #[trigger] view_set(b).contains(v) implies view_set(a).contains(
        v,
    ) by {
        let i = choose|i: int| 0 <= i < b.len() && b[i]@ == v;
        assert(views_of(b)[i] == v);
        assert(views_of(b).contains(v));
        assert(views_of(b).to_multiset().count(v) > 0);
        assert(views_of(a).to_multiset().count(v) > 0);
        assert(views_of(a).contains(v));
        let j = choose|j: int| 0 <= j < views_of(a).len() && views_of(a)[j] == v;
        assert(a[j]@ == v);
    }
}

/// Picks the directories to check out of the tree's file paths: the parent
/// of every `package.json` outside excluded directories, plus the root when
/// it holds a manifest itself — each directory once, in lexicographic
/// order.
#[verifier::loop_isolation(false)]
pub fn candidate_dirs(paths: &Vec<Vec<u8>>, root: &Vec<u8>, root_has_manifest: bool) -> (r: Vec<
    Vec<u8>,
>)
    ensures
        sorted_by(views_of(r@), lex_leq()),
        view_set(r@) =~= spec_candidates(paths@, root@, root_has_manifest),
        forall|i: int, j: int| 0 <= i < j < r@.len() ==> r@[i]@ != r@[j]@,
{
    let manifest_name = manifest_file_name_vec();
    let excluded = excluded_component_vec();
    let mut acc: Vec<Vec<u8>> = Vec::new();
    let mut k: usize = 0;
    proof {
        assert(view_set(acc@) =~= spec_candidates_before(paths@, 0));
    }
    while k < paths.len()
        invariant
            0 <= k <= paths.len(),
            view_set(acc@) =~= spec_candidates_before(paths@, k as int),
        decreases paths.len() - k,
    {
        proof {
            lemma_candidates_step(paths@, k as int);
        }
        match candidate_exec(&paths[k], &manifest_name, &excluded) {
            Some(d) => {
                proof {
                    lemma_view_set_push(acc@, d);
                }
                acc.push(d);
            },
            None => {},
        }
        k = k + 1;
    }
    if root_has_manifest {
        let r = clone_bytes(root);
        proof {
            lemma_view_set_push(acc@, r);
        }
        acc.push(r);
    }
    proof {
        assert(view_set(acc@) =~= spec_candidates(paths@, root@, root_has_manifest));
    }
    let ghost candidate_set = view_set(acc@);
    let ghost acc0 = acc@;
    let sorted = sort_found(acc);
    proof {
        lemma_view_set_of_multiset(sorted@, acc0);
        lemma_lex_leq_total_ordering();
    }
    let mut out: Vec<Vec<u8>> = Vec::new();
    let mut i: usize = 0;
    proof {
        assert(view_set(out@) =~= view_set(sorted@.take(0)));
    }
    while i < sorted.len()
        invariant
            0 <= i <= sorted.len(),
            i > 0 ==> out@.len() > 0,
            out@.len() > 0 ==> i > 0 && out@[out@.len() - 1]@ == sorted@[i - 1]@,
            sorted_by(views_of(out@), lex_leq()),
            forall|a: int, b: int| 0 <= a < b < out@.len() ==> out@[a]@ != out@[b]@,
            view_set(out@) =~= view_set(sorted@.take(i as int)),
        decreases sorted.len() - i,
    {
        let ghost prefix = sorted@.take(i as int);
        let ghost prefix1 = sorted@.take(i + 1 as int);
        if out.len() == 0 || !bytes_eq(&out[out.len() - 1], &sorted[i]) {
            let d = clone_bytes(&sorted[i]);
            proof {
                let leq = lex_leq();
                if out@.len() > 0 {
                    // the new view is above every stored one
                    assert(views_of(sorted@)[i - 1] == sorted@[i - 1]@);
                    assert(views_of(sorted@)[i as int] == sorted@[i as int]@);
                    assert(leq(views_of(sorted@)[i - 1], views_of(sorted@)[i as int]));
                    assert(views_of(out@)[out@.len() - 1] == out@[out@.len() - 1]@);
                    assert(leq(views_of(out@)[out@.len() - 1], d@));
                    assert forall|a: int| 0 <= a < out@.len() implies #[trigger] out@[a]@ != d@ by {
                        if out@[a]@ == d@ {
                            if a < out@.len() - 1 {
                                assert(leq(views_of(out@)[a], views_of(out@)[out@.len() - 1]));
                            }
                            lemma_lex_le_antisym(out@[out@.len() - 1]@, d@);
                            assert(false);
                        }
                    }
                    assert forall|a: int| 0 <= a < out@.len() implies #[trigger] leq(
                        views_of(out@)[a],
                        d@,
                    ) by {
                        if a < out@.len() - 1 {
                            assert(leq(views_of(out@)[a], views_of(out@)[out@.len() - 1]));
                            lemma_lex_le_trans(out@[a]@, out@[out@.len() - 1]@, d@);
                        }
                    }
                }
                assert(views_of(out@.push(d)) =~= views_of(out@).push(d@));
                lemma_view_set_push(out@, d);
                assert(view_set(out@).insert(d@) =~= view_set(prefix1)) by {
                    assert(prefix1 =~= prefix.push(sorted@[i as int]));
                    lemma_view_set_push(prefix, sorted@[i as int]);
                }
            }
            out.push(d);
        } else {
            proof {
                assert(view_set(prefix).contains(sorted@[i as int]@)) by {
                    assert(prefix[i - 1]@ == sorted@[i - 1]@);
                }
                assert(view_set(prefix1) =~= view_set(prefix)) by {
                    assert(prefix1 =~= prefix.push(sorted@[i as int]));
                    lemma_view_set_push(prefix, sorted@[i as int]);
                }
            }
        }
        i = i + 1;
    }
    proof {
        assert(sorted@.take(sorted@.len() as int) =~= sorted@);
        assert(view_set(out@) =~= candidate_set);
    }
    out
}

} // verus!
