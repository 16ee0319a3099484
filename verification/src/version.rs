//! Parsing of `major.minor.patch` version prefixes and evaluation of
//! exact, caret (`^`) and tilde (`~`) version ranges.

use vstd::prelude::*;

use crate::bytes::{DIGIT_0, DIGIT_9, DOT, CARET, TILDE};

verus! {

/// An ASCII decimal digit.
pub open spec fn is_digit(b: u8) -> bool {
    DIGIT_0 <= b <= DIGIT_9
}

/// Number of consecutive digit bytes of `s` starting at position `p`.
pub open spec fn digit_run_len(s: Seq<u8>, p: int) -> int
    decreases s.len() - p when p <= s.len()
{
    if p < 0 || p >= s.len() || !is_digit(s[p]) {
        0
    } else {
        1 + digit_run_len(s, p + 1)
    }
}

/// The digit run starting at `p` consists of digits, ends at the end of `s`
/// or right before a non-digit, and stays within bounds.
pub proof fn lemma_digit_run_len(s: Seq<u8>, p: int)
    requires
        0 <= p <= s.len(),
    ensures
        0 <= digit_run_len(s, p),
        p + digit_run_len(s, p) <= s.len(),
        forall|k: int| p <= k < p + digit_run_len(s, p) ==> is_digit(#[trigger] s[k]),
        p + digit_run_len(s, p) == s.len() || !is_digit(s[p + digit_run_len(s, p)]),
    decreases s.len() - p,
{
    if p < s.len() && is_digit(s[p]) {
        lemma_digit_run_len(s, p + 1);
    }
}

/// Numeric value of a sequence of digit bytes, most significant first.
pub open spec fn digits_value(s: Seq<u8>) -> int
    decreases s.len(),
{
    if s.len() == 0 {
        0
    } else {
        10 * digits_value(s.drop_last()) + (s.last() - DIGIT_0)
    }
}

pub proof fn lemma_digits_value_nonneg(s: Seq<u8>)
    requires
        forall|k: int| 0 <= k < s.len() ==> is_digit(#[trigger] s[k]),
    ensures
        digits_value(s) >= 0,
    decreases s.len(),
{
    if s.len() > 0 {
        lemma_digits_value_nonneg(s.drop_last());
    }
}

/// The value a digit run denotes: its numeric value when it fits in a
/// 32-bit signed integer, and zero otherwise.
pub open spec fn component_value(s: Seq<u8>) -> int {
    if digits_value(s) <= i32::MAX {
        digits_value(s)
    } else {
        0
    }
}

/// End position (exclusive) of a `major.minor.patch` triplet read at `p`,
/// when one is there. Each component is a non-empty digit run, the runs are
/// separated by single dots, and the patch run is maximal.
pub open spec fn triplet_end(s: Seq<u8>, p: int) -> Option<int> {
    let l1 = digit_run_len(s, p);
    let d1 = p + l1;
    let l2 = digit_run_len(s, d1 + 1);
    let d2 = d1 + 1 + l2;
    let l3 = digit_run_len(s, d2 + 1);
    if p >= 0 && l1 > 0 && d1 < s.len() && s[d1] == DOT && l2 > 0 && d2 < s.len() && s[d2]
        == DOT && l3 > 0 {
        Some(d2 + 1 + l3)
    } else {
        None
    }
}

/// The three numeric components of the triplet read at `p`.
pub open spec fn triplet_parts(s: Seq<u8>, p: int) -> (int, int, int) {
    let l1 = digit_run_len(s, p);
    let d1 = p + l1;
    let l2 = digit_run_len(s, d1 + 1);
    let d2 = d1 + 1 + l2;
    let l3 = digit_run_len(s, d2 + 1);
    (
        component_value(s.subrange(p, d1)),
        component_value(s.subrange(d1 + 1, d2)),
        component_value(s.subrange(d2 + 1, d2 + 1 + l3)),
    )
}

/// A leading `major.minor.patch` prefix of `s`, parsed; `None` when absent.
pub open spec fn spec_parse_version(s: Seq<u8>) -> Option<(int, int, int)> {
    if triplet_end(s, 0) is Some {
        Some(triplet_parts(s, 0))
    } else {
        None
    }
}

/// Scans the digit run of `s` that starts at `p` and computes its value.
/// Returns the end of the run and the run's component value.
fn scan_component(s: &Vec<u8>, p: usize) -> (r: (usize, i32))
    requires
        p <= s.len(),
    ensures
        r.0 == p + digit_run_len(s@, p as int),
        r.1 == component_value(s@.subrange(p as int, r.0 as int)),
        p <= r.0 <= s.len(),
{
    let ghost gs = s@;
    let mut i: usize = p;
    let mut val: i32 = 0;
    let mut over: bool = false;
    proof {
        assert(gs.subrange(p as int, p as int) =~= Seq::<u8>::empty());
    }
    while i < s.len() && DIGIT_0 <= s[i] && s[i] <= DIGIT_9
        invariant
            p <= i <= s.len(),
            s@ == gs,
            forall|k: int| p <= k < i ==> is_digit(#[trigger] gs[k]),
            digit_run_len(gs, p as int) == (i - p) + digit_run_len(gs, i as int),
            !over ==> val == digits_value(gs.subrange(p as int, i as int)),
            !over ==> digits_value(gs.subrange(p as int, i as int)) <= i32::MAX,
            over ==> digits_value(gs.subrange(p as int, i as int)) > i32::MAX,
            val >= 0,
        decreases s.len() - i,
    {
        let d: i32 = (s[i] - DIGIT_0) as i32;
        let ghost prev = gs.subrange(p as int, i as int);
        let ghost cur = gs.subrange(p as int, i + 1 as int);
        proof {
            assert(cur.drop_last() =~= prev);
            assert(cur.last() == gs[i as int]);
            lemma_digits_value_nonneg(prev);
        }
        if over || val > (i32::MAX - d) / 10 {
            proof {
                if !over {
                    assert(10 * val + d > i32::MAX) by (nonlinear_arith)
                        requires
                            val > (i32::MAX - d) / 10,
                            0 <= d <= 9,
                            val >= 0,
                    ;
                } else {
                    assert(10 * digits_value(prev) + d > i32::MAX) by (nonlinear_arith)
                        requires
                            digits_value(prev) > i32::MAX,
                            d >= 0,
                    ;
                }
            }
            over = true;
        } else {
            val = val * 10 + d;
        }
        i = i + 1;
    }
    proof {
        assert(digit_run_len(gs, i as int) == 0);
    }
    if over {
        (i, 0)
    } else {
        (i, val)
    }
}

/// Reads a `major.minor.patch` triplet at position `p`; returns its end
/// position (exclusive) and the three components.
pub fn read_triplet_at(s: &Vec<u8>, p: usize) -> (r: Option<(usize, i32, i32, i32)>)
    requires
        p <= s.len(),
    ensures
        match r {
            Some(t) => triplet_end(s@, p as int) == Some(t.0 as int) && triplet_parts(s@, p as int)
                == (t.1 as int, t.2 as int, t.3 as int) && p < t.0 <= s.len(),
            None => triplet_end(s@, p as int) is None,
        },
{
    let (d1, maj) = scan_component(s, p);
    if d1 == p || d1 >= s.len() || s[d1] != DOT {
        return None;
    }
    let (d2, mnr) = scan_component(s, d1 + 1);
    if d2 == d1 + 1 || d2 >= s.len() || s[d2] != DOT {
        return None;
    }
    let (e, pat) = scan_component(s, d2 + 1);
    if e == d2 + 1 {
        return None;
    }
    Some((e, maj, mnr, pat))
}

/// Parses a leading `major.minor.patch` prefix out of `s`; trailing text
/// (a pre-release or build suffix) is ignored. Returns `None` when no such
/// prefix is there.
pub fn parse_version(s: &Vec<u8>) -> (r: Option<(i32, i32, i32)>)
    ensures
        match r {
            Some(t) => spec_parse_version(s@) == Some((t.0 as int, t.1 as int, t.2 as int)),
            None => spec_parse_version(s@) is None,
        },
{
    match read_triplet_at(s, 0) {
        Some((_, maj, min, pat)) => Some((maj, min, pat)),
        None => None,
    }
}

/// A leading caret or tilde range mark.
pub open spec fn is_range_mark(b: u8) -> bool {
    b == CARET || b == TILDE
}

/// Length of the single range mark stripped off a version before parsing:
/// one when the version starts with `^` or `~`, zero otherwise.
pub open spec fn mark_len(s: Seq<u8>) -> int {
    if s.len() > 0 && is_range_mark(s[0]) {
        1
    } else {
        0
    }
}

/// Whether the version `v` satisfies the requirement `r`.
///
/// A single leading `^` or `~` of `v` is stripped before parsing. When `r`
/// starts with `^`, the majors must be equal and `v`'s minor must be at
/// least the range's minor; when `r` starts with `~`, major and minor must
/// be equal and `v`'s patch at least the range's patch; otherwise the
/// stripped version must equal `r` literally. A version or range whose
/// triplet cannot be parsed satisfies nothing.
pub open spec fn spec_satisfies(v: Seq<u8>, r: Seq<u8>) -> bool {
    let vp = mark_len(v);
    if triplet_end(v, vp) is None {
        false
    } else {
        let (vmaj, vmin, vpat) = triplet_parts(v, vp);
        if r.len() > 0 && r[0] == CARET {
            triplet_end(r, 1) is Some && {
                let (rmaj, rmin, _) = triplet_parts(r, 1);
                vmaj == rmaj && vmin >= rmin
            }
        } else if r.len() > 0 && r[0] == TILDE {
            triplet_end(r, 1) is Some && {
                let (rmaj, rmin, rpat) = triplet_parts(r, 1);
                vmaj == rmaj && vmin == rmin && vpat >= rpat
            }
        } else {
            v.skip(vp) == r
        }
    }
}

/// Law: a caret range `^a.b.c` is satisfied exactly by the versions whose
/// stripped triplet parses, whose major equals `a` and whose minor is at
/// least `b`; the patch is unconstrained.
pub proof fn lemma_caret_satisfaction(v: Seq<u8>, r: Seq<u8>)
    requires
        r.len() > 0,
        r[0] == CARET,
    ensures
        spec_satisfies(v, r) <==> {
            &&& triplet_end(v, mark_len(v)) is Some
            &&& triplet_end(r, 1) is Some
            &&& triplet_parts(v, mark_len(v)).0 == triplet_parts(r, 1).0
            &&& triplet_parts(v, mark_len(v)).1 >= triplet_parts(r, 1).1
        },
{
}

/// Law: a tilde range `~a.b.c` is satisfied exactly by the versions whose
/// stripped triplet parses, whose major and minor equal `a` and `b`, and
/// whose patch is at least `c`.
pub proof fn lemma_tilde_satisfaction(v: Seq<u8>, r: Seq<u8>)
    requires
        r.len() > 0,
        r[0] == TILDE,
    ensures
        spec_satisfies(v, r) <==> {
            &&& triplet_end(v, mark_len(v)) is Some
            &&& triplet_end(r, 1) is Some
            &&& triplet_parts(v, mark_len(v)).0 == triplet_parts(r, 1).0
            &&& triplet_parts(v, mark_len(v)).1 == triplet_parts(r, 1).1
            &&& triplet_parts(v, mark_len(v)).2 >= triplet_parts(r, 1).2
        },
{
}

/// Law: an exact requirement, one with no leading range mark, is satisfied
/// exactly by the versions that parse and, after their own single mark is
/// stripped, equal it literally.
pub proof fn lemma_exact_satisfaction(v: Seq<u8>, r: Seq<u8>)
    requires
        r.len() == 0 || !is_range_mark(r[0]),
    ensures
        spec_satisfies(v, r) <==> (triplet_end(v, mark_len(v)) is Some && v.skip(mark_len(v))
            == r),
{
}

/// Decides whether `version` satisfies the exact version or range `range`.
pub fn satisfies_range(version: &Vec<u8>, range: &Vec<u8>) -> (r: bool)
    ensures
        r == spec_satisfies(version@, range@),
{
    let vp: usize = if version.len() > 0 && (version[0] == CARET || version[0] == TILDE) {
        1
    } else {
        0
    };
    let parsed = read_triplet_at(version, vp);
    match parsed {
        None => false,
        Some((_, vmaj, vmin, vpat)) => {
            if range.len() > 0 && range[0] == CARET {
                match read_triplet_at(range, 1) {
                    None => false,
                    Some((_, rmaj, rmin, _)) => vmaj == rmaj && vmin >= rmin,
                }
            } else if range.len() > 0 && range[0] == TILDE {
                match read_triplet_at(range, 1) {
                    None => false,
                    Some((_, rmaj, rmin, rpat)) => vmaj == rmaj && vmin == rmin && vpat >= rpat,
                }
            } else {
                if version.len() - vp != range.len() {
                    proof {
                        assert(version@.skip(vp as int).len() != range@.len());
                    }
                    return false;
                }
                let mut k: usize = 0;
                while k < range.len()
                    invariant
                        0 <= k <= range.len(),
                        vp + range.len() == version.len(),
                        vp == mark_len(version@),
                        triplet_end(version@, vp as int) is Some,
                        !(range@.len() > 0 && range@[0] == CARET),
                        !(range@.len() > 0 && range@[0] == TILDE),
                        forall|j: int| 0 <= j < k ==> version@[vp + j] == range@[j],
                    decreases range.len() - k,
                {
                    if version[vp + k] != range[k] {
                        proof {
                            assert(version@.skip(vp as int)[k as int] != range@[k as int]);
                        }
                        return false;
                    }
                    k = k + 1;
                }
                proof {
                    assert(version@.skip(vp as int) =~= range@);
                }
                true
            }
        },
    }
}

} // verus!
