//! Parsing of the requirement file: newline-delimited `name@version` lines,
//! invalid lines skipped and counted, duplicates collapsed.

use vstd::prelude::*;

use crate::bytes::{
    lines_of, split_lines, views_of, ws_run_end, is_ws, skip_ws, is_ws_byte, find_byte_from,
    find_byte, copy_range, bytes_eq, AT,
};
use crate::version::{spec_satisfies, satisfies_range};

verus! {

/// One loaded requirement: a package name and a version or range.
pub struct Requirement {
    pub name: Vec<u8>,
    pub version: Vec<u8>,
}

impl View for Requirement {
    type V = (Seq<u8>, Seq<u8>);

    open spec fn view(&self) -> (Seq<u8>, Seq<u8>) {
        (self.name@, self.version@)
    }
}

/// The views of a requirement vector.
pub open spec fn req_views(s: Seq<Requirement>) -> Seq<(Seq<u8>, Seq<u8>)> {
    s.map_values(|r: Requirement| r@)
}

/// Start of the whitespace run that ends right before `p` (exclusive).
pub open spec fn ws_rev_end(s: Seq<u8>, p: int) -> int
    decreases p when 0 <= p <= s.len()
{
    if p <= 0 {
        0
    } else if !is_ws(s[p - 1]) {
        p
    } else {
        ws_rev_end(s, p - 1)
    }
}

pub proof fn lemma_ws_rev_end(s: Seq<u8>, p: int)
    requires
        0 <= p <= s.len(),
    ensures
        0 <= ws_rev_end(s, p) <= p,
        forall|k: int| ws_rev_end(s, p) <= k < p ==> is_ws(#[trigger] s[k]),
        ws_rev_end(s, p) > 0 ==> !is_ws(s[ws_rev_end(s, p) - 1]),
    decreases p,
{
    if p > 0 && is_ws(s[p - 1]) {
        lemma_ws_rev_end(s, p - 1);
    }
}

/// `l` with its leading and trailing ASCII whitespace taken off.
pub open spec fn trim_ws(l: Seq<u8>) -> Seq<u8> {
    let a = ws_run_end(l, 0);
    let b = ws_rev_end(l, l.len() as int);
    if a <= b {
        l.subrange(a, b)
    } else {
        Seq::empty()
    }
}

/// Trims ASCII whitespace off both ends of `l`.
pub fn trim_ws_exec(l: &Vec<u8>) -> (r: Vec<u8>)
    ensures
        r@ == trim_ws(l@),
{
    let a = skip_ws(l, 0);
    let mut b: usize = l.len();
    while b > 0 && is_ws_byte(l[b - 1])
        invariant
            0 <= b <= l.len(),
            ws_rev_end(l@, l.len() as int) == ws_rev_end(l@, b as int),
        decreases b,
    {
        b = b - 1;
    }
    if a <= b {
        copy_range(l, a, b)
    } else {
        proof {
            assert(trim_ws(l@) =~= Seq::<u8>::empty());
        }
        Vec::new()
    }
}

/// The requirement a line declares: after trimming, exactly one `@`, the
/// name before it and the version after it. Any other line is invalid.
pub open spec fn spec_requirement_of_line(l: Seq<u8>) -> Option<(Seq<u8>, Seq<u8>)> {
    let t = trim_ws(l);
    let i = find_byte_from(t, AT, 0);
    if i < t.len() && find_byte_from(t, AT, i + 1) == t.len() {
        Some((t.take(i), t.skip(i + 1)))
    } else {
        None
    }
}

/// Parses one line into a requirement.
pub fn requirement_of_line(l: &Vec<u8>) -> (r: Option<Requirement>)
    ensures
        (match r {
            Some(q) => spec_requirement_of_line(l@) == Some(q@),
            None => spec_requirement_of_line(l@) is None,
        }),
{
    let t = trim_ws_exec(l);
    let i = find_byte(&t, AT, 0);
    if i >= t.len() {
        return None;
    }
    let j = find_byte(&t, AT, i + 1);
    if j < t.len() {
        return None;
    }
    let name = copy_range(&t, 0, i);
    let version = copy_range(&t, i + 1, t.len());
    proof {
        assert(name@ =~= trim_ws(l@).take(i as int));
        assert(version@ =~= trim_ws(l@).skip(i + 1 as int));
    }
    Some(Requirement { name, version })
}

/// The requirements that `lines` declare, in first-occurrence order, on top
/// of those already in `acc`; a pair already present is not added again.
pub open spec fn spec_requirements_from(
    lines: Seq<Seq<u8>>,
    acc: Seq<(Seq<u8>, Seq<u8>)>,
) -> Seq<(Seq<u8>, Seq<u8>)>
    decreases lines.len(),
{
    if lines.len() == 0 {
        acc
    } else {
        match spec_requirement_of_line(lines[0]) {
            Some(r) => if acc.contains(r) {
                spec_requirements_from(lines.drop_first(), acc)
            } else {
                spec_requirements_from(lines.drop_first(), acc.push(r))
            },
            None => spec_requirements_from(lines.drop_first(), acc),
        }
    }
}

/// The requirements the file content `s` declares.
pub open spec fn spec_requirements(s: Seq<u8>) -> Seq<(Seq<u8>, Seq<u8>)> {
    spec_requirements_from(lines_of(s), Seq::empty())
}

/// How many lines of `lines` declare no requirement.
pub open spec fn spec_invalid_count(lines: Seq<Seq<u8>>) -> int
    decreases lines.len(),
{
    if lines.len() == 0 {
        0
    } else {
        (if spec_requirement_of_line(lines[0]) is None {
            1int
        } else {
            0int
        }) + spec_invalid_count(lines.drop_first())
    }
}

pub proof fn lemma_invalid_count_bounds(lines: Seq<Seq<u8>>)
    ensures
        0 <= spec_invalid_count(lines) <= lines.len(),
    decreases lines.len(),
{
    if lines.len() > 0 {
        lemma_invalid_count_bounds(lines.drop_first());
    }
}

/// Some requirement is for the package `name`.
pub open spec fn req_name_match(reqs: Seq<(Seq<u8>, Seq<u8>)>, name: Seq<u8>) -> bool {
    exists|i: int| 0 <= i < reqs.len() && (#[trigger] reqs[i]).0 == name
}

/// Some requirement for `name` has a version or range that `version`
/// satisfies.
pub open spec fn req_satisfied(reqs: Seq<(Seq<u8>, Seq<u8>)>, name: Seq<u8>, version: Seq<u8>) -> bool {
    exists|i: int|
        0 <= i < reqs.len() && (#[trigger] reqs[i]).0 == name && spec_satisfies(
            version,
            reqs[i].1,
        )
}

/// Decides whether some requirement is for the package `name`.
pub fn req_name_match_exec(reqs: &Vec<Requirement>, name: &Vec<u8>) -> (r: bool)
    ensures
        r == req_name_match(req_views(reqs@), name@),
{
    let mut i: usize = 0;
    while i < reqs.len()
        invariant
            0 <= i <= reqs.len(),
            forall|j: int| 0 <= j < i ==> (#[trigger] req_views(reqs@)[j]).0 != name@,
        decreases reqs.len() - i,
    {
        if bytes_eq(&reqs[i].name, name) {
            proof {
                assert((req_views(reqs@)[i as int]).0 == name@);
            }
            return true;
        }
        proof {
            assert((req_views(reqs@)[i as int]).0 == reqs@[i as int]@.0);
        }
        i = i + 1;
    }
    false
}

/// Decides whether `version` satisfies some requirement for `name`.
pub fn req_satisfied_exec(reqs: &Vec<Requirement>, name: &Vec<u8>, version: &Vec<u8>) -> (r: bool)
    ensures
        r == req_satisfied(req_views(reqs@), name@, version@),
{
    let mut i: usize = 0;
    while i < reqs.len()
        invariant
            0 <= i <= reqs.len(),
            forall|j: int|
                0 <= j < i ==> !((#[trigger] req_views(reqs@)[j]).0 == name@ && spec_satisfies(
                    version@,
                    req_views(reqs@)[j].1,
                )),
        decreases reqs.len() - i,
    {
        if bytes_eq(&reqs[i].name, name) && satisfies_range(version, &reqs[i].version) {
            proof {
                assert((req_views(reqs@)[i as int]).0 == name@ && spec_satisfies(
                    version@,
                    req_views(reqs@)[i as int].1,
                ));
            }
            return true;
        }
        proof {
            assert(req_views(reqs@)[i as int] == reqs@[i as int]@);
        }
        i = i + 1;
    }
    false
}

/// Decides whether the pair `(name, version)` is already among `reqs`.
pub fn contains_req(reqs: &Vec<Requirement>, name: &Vec<u8>, version: &Vec<u8>) -> (r: bool)
    ensures
        r == req_views(reqs@).contains((name@, version@)),
{
    let mut i: usize = 0;
    while i < reqs.len()
        invariant
            0 <= i <= reqs.len(),
            forall|j: int| 0 <= j < i ==> #[trigger] reqs@[j]@ != (name@, version@),
        decreases reqs.len() - i,
    {
        if bytes_eq(&reqs[i].name, name) && bytes_eq(&reqs[i].version, version) {
            proof {
                assert(req_views(reqs@)[i as int] == (name@, version@));
            }
            return true;
        }
        i = i + 1;
    }
    proof {
        assert forall|j: int| 0 <= j < req_views(reqs@).len() implies #[trigger] req_views(
            reqs@,
        )[j] != (name@, version@) by {
            assert(req_views(reqs@)[j] == reqs@[j]@);
        }
    }
    false
}

/// Parses a requirement file: its requirements in first-occurrence order
/// with duplicates collapsed, and the count of invalid lines.
#[verifier::loop_isolation(false)]
pub fn parse_requirements(content: &Vec<u8>) -> (r: (Vec<Requirement>, usize))
    ensures
        req_views(r.0@) == spec_requirements(content@),
        r.1 == spec_invalid_count(lines_of(content@)),
{
    let lines = split_lines(content);
    let ghost lseq = views_of(lines@);
    let mut out: Vec<Requirement> = Vec::new();
    let mut invalid: usize = 0;
    let mut i: usize = 0;
    proof {
        assert(lseq.skip(0) =~= lseq);
        assert(req_views(out@) =~= Seq::<(Seq<u8>, Seq<u8>)>::empty());
        lemma_invalid_count_bounds(lseq);
    }
    while i < lines.len()
        invariant
            0 <= i <= lines.len(),
            spec_requirements_from(lseq.skip(i as int), req_views(out@)) == spec_requirements(
                content@,
            ),
            invalid + spec_invalid_count(lseq.skip(i as int)) == spec_invalid_count(lseq),
            invalid <= i,
        decreases lines.len() - i,
    {
        let ghost rest = lseq.skip(i as int);
        proof {
            assert(rest[0] == lseq[i as int]);
            assert(rest[0] == lines@[i as int]@);
            assert(rest.drop_first() =~= lseq.skip(i + 1 as int));
            lemma_invalid_count_bounds(rest.drop_first());
        }
        match requirement_of_line(&lines[i]) {
            Some(q) => {
                if !contains_req(&out, &q.name, &q.version) {
                    proof {
                        assert(req_views(out@.push(q)) =~= req_views(out@).push(q@));
                    }
                    out.push(q);
                }
            },
            None => {
                invalid = invalid + 1;
            },
        }
        i = i + 1;
    }
    proof {
        assert(lseq.skip(lines.len() as int) =~= Seq::<Seq<u8>>::empty());
    }
    (out, invalid)
}

} // verus!
