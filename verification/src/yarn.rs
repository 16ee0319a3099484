//! The record-oriented lockfile extractor: the content splits into
//! blank-line-delimited records; a record that mentions `<name>@` anywhere
//! contributes the first version its `version "x.y.z"` token asserts.

use vstd::prelude::*;

use crate::bytes::{
    lines_of, split_lines, views_of, is_ws, is_ws_byte, view_set, lemma_view_set_push,
    contains_seq, contains_sub, copy_range, concat_bytes, AT, LF,
};
use crate::scan::{first_prefix_triplet_from, first_prefix_triplet};

verus! {

/// A line holding only whitespace.
pub open spec fn is_blank(l: Seq<u8>) -> bool {
    forall|k: int| 0 <= k < l.len() ==> is_ws(#[trigger] l[k])
}

/// Decides whether a line holds only whitespace.
fn is_blank_exec(l: &Vec<u8>) -> (r: bool)
    ensures
        r == is_blank(l@),
{
    let mut k: usize = 0;
    while k < l.len()
        invariant
            0 <= k <= l.len(),
            forall|j: int| 0 <= j < k ==> is_ws(#[trigger] l@[j]),
        decreases l.len() - k,
    {
        if !is_ws_byte(l[k]) {
            return false;
        }
        k = k + 1;
    }
    true
}

/// The records of `lines`, given the record `cur` open so far: maximal runs
/// of non-blank lines, joined with line feeds.
pub open spec fn records_from(lines: Seq<Seq<u8>>, cur: Option<Seq<u8>>) -> Seq<Seq<u8>>
    decreases lines.len(),
{
    if lines.len() == 0 {
        match cur {
            Some(c) => seq![c],
            None => Seq::empty(),
        }
    } else if is_blank(lines[0]) {
        (match cur {
            Some(c) => seq![c],
            None => Seq::empty(),
        }) + records_from(lines.drop_first(), None)
    } else {
        match cur {
            Some(c) => records_from(lines.drop_first(), Some(c + seq![LF] + lines[0])),
            None => records_from(lines.drop_first(), Some(lines[0])),
        }
    }
}

/// The blank-line-delimited records of `s`.
pub open spec fn yarn_records(s: Seq<u8>) -> Seq<Seq<u8>> {
    records_from(lines_of(s), None)
}

/// The bytes of the token `version "`, with the opening quote.
pub open spec fn version_token() -> Seq<u8> {
    seq![118u8, 101u8, 114u8, 115u8, 105u8, 111u8, 110u8, 32u8, 34u8]
}

/// Builds the token `version "`.
fn version_token_vec() -> (r: Vec<u8>)
    ensures
        r@ == version_token(),
{
    let v: Vec<u8> = vec![118u8, 101u8, 114u8, 115u8, 105u8, 111u8, 110u8, 32u8, 34u8];
    proof {
        assert(v@ =~= version_token());
    }
    v
}

/// What one record contributes for the needle `<name>@`: the first version
/// its `version "` token asserts, when the record holds the needle.
pub open spec fn record_versions(rec: Seq<u8>, needle: Seq<u8>) -> Set<Seq<u8>> {
    if contains_seq(rec, needle) {
        match first_prefix_triplet_from(rec, version_token(), 0) {
            Some(v) => set![v],
            None => Set::empty(),
        }
    } else {
        Set::empty()
    }
}

pub open spec fn records_versions(recs: Seq<Seq<u8>>, needle: Seq<u8>) -> Set<Seq<u8>>
    decreases recs.len(),
{
    if recs.len() == 0 {
        Set::empty()
    } else {
        record_versions(recs[0], needle).union(records_versions(recs.drop_first(), needle))
    }
}

/// Every version the record-oriented content `s` asserts for `name`.
pub open spec fn spec_yarn_versions(s: Seq<u8>, name: Seq<u8>) -> Set<Seq<u8>> {
    records_versions(yarn_records(s), name + seq![AT])
}

/// Collects what one record contributes.
fn process_record(rec: &Vec<u8>, needle: &Vec<u8>, token: &Vec<u8>, out: &mut Vec<Vec<u8>>)
    requires
        token@ == version_token(),
    ensures
        view_set(final(out)@) =~= view_set(old(out)@).union(record_versions(rec@, needle@)),
{
    if contains_sub(rec, needle) {
        match first_prefix_triplet(rec, token) {
            Some(v) => {
                proof {
                    lemma_view_set_push(out@, v);
                }
                out.push(v);
            },
            None => {},
        }
    }
}

/// The view of an optionally open record.
pub open spec fn opt_view(c: Option<Vec<u8>>) -> Option<Seq<u8>> {
    match c {
        Some(v) => Some(v@),
        None => None,
    }
}

/// Extracts from record-oriented lockfile content every version it asserts
/// for `name`: one version per record that mentions `<name>@`.
#[verifier::loop_isolation(false)]
pub fn get_yarn_versions(name: &Vec<u8>, content: &Vec<u8>) -> (r: Vec<Vec<u8>>)
    ensures
        view_set(r@) =~= spec_yarn_versions(content@, name@),
{
    let lines = split_lines(content);
    let ghost lseq = views_of(lines@);
    let mut needle = copy_range(name, 0, name.len());
    needle.push(AT);
    proof {
        assert(needle@ =~= name@ + seq![AT]);
    }
    let token = version_token_vec();
    let mut out: Vec<Vec<u8>> = Vec::new();
    let mut cur: Option<Vec<u8>> = None;
    let mut i: usize = 0;
    proof {
        assert(lseq.skip(0) =~= lseq);
        assert(view_set(out@) =~= Set::<Seq<u8>>::empty());
    }
    while i < lines.len()
        invariant
            0 <= i <= lines.len(),
            view_set(out@).union(
                records_versions(records_from(lseq.skip(i as int), opt_view(cur)), needle@),
            ) =~= records_versions(records_from(lseq, None), needle@),
        decreases lines.len() - i,
    {
        let ghost rest = lseq.skip(i as int);
        let ghost restd = lseq.skip(i + 1 as int);
        proof {
            assert(rest[0] == lseq[i as int]);
            assert(rest[0] == lines@[i as int]@);
            assert(rest.drop_first() =~= restd);
        }
        if is_blank_exec(&lines[i]) {
            let prev = cur;
            cur = None;
            match prev {
                Some(c) => {
                    proof {
                        let closed = seq![c@] + records_from(restd, None);
                        assert(records_from(rest, opt_view(Some(c))) =~= closed);
                        assert(closed[0] == c@);
                        assert(closed.drop_first() =~= records_from(restd, None));
                        assert(records_versions(closed, needle@) =~= record_versions(
                            c@,
                            needle@,
                        ).union(records_versions(records_from(restd, None), needle@)));
                    }
                    process_record(&c, &needle, &token, &mut out);
                },
                None => {
                    proof {
                        assert(records_from(rest, opt_view(None)) =~= Seq::<Seq<u8>>::empty()
                            + records_from(restd, None));
                        assert(Seq::<Seq<u8>>::empty() + records_from(restd, None)
                            =~= records_from(restd, None));
                    }
                },
            }
        } else {
            cur = match cur {
                Some(c) => {
                    let ghost c0 = c@;
                    let mut c2 = c;
                    c2.push(LF);
                    let c3 = concat_bytes(&c2, &lines[i]);
                    proof {
                        assert(c3@ =~= c0 + seq![LF] + rest[0]);
                        assert(records_from(rest, Some(c0)) == records_from(restd, Some(c3@)));
                    }
                    Some(c3)
                },
                None => {
                    let c = copy_range(&lines[i], 0, lines[i].len());
                    proof {
                        assert(c@ =~= rest[0]);
                        assert(records_from(rest, opt_view(None)) == records_from(
                            restd,
                            Some(c@),
                        ));
                    }
                    Some(c)
                },
            };
        }
        i = i + 1;
    }
    proof {
        assert(lseq.skip(lines.len() as int) =~= Seq::<Seq<u8>>::empty());
    }
    match cur {
        Some(c) => {
            proof {
                let closed = records_from(Seq::empty(), opt_view(Some(c)));
                assert(closed =~= seq![c@]);
                assert(closed[0] == c@);
                assert(closed.drop_first() =~= Seq::<Seq<u8>>::empty());
                assert(records_versions(Seq::<Seq<u8>>::empty(), needle@) =~= Set::<
                    Seq<u8>,
                >::empty());
                assert(records_versions(closed, needle@) =~= record_versions(c@, needle@).union(
                    Set::<Seq<u8>>::empty(),
                ));
            }
            process_record(&c, &needle, &token, &mut out);
        },
        None => {
            proof {
                assert(records_from(lseq.skip(lines.len() as int), opt_view(None))
                    =~= Seq::<Seq<u8>>::empty());
            }
        },
    }
    out
}

} // verus!
