//! Accumulation of report rows and found-list entries from every directory,
//! and the sort that imposes the final report order.

use vstd::prelude::*;
use vstd::relations::{total_ordering, sorted_by};
use vstd::seq_lib::*;
use vstd::multiset::Multiset;

use crate::bytes::{
    lex_le, lemma_lex_le_refl, lemma_lex_le_total, lemma_lex_le_antisym, lemma_lex_le_trans,
    lex_le_exec, views_of,
};
use crate::record::{
    MatchRecord, RecordView, record_le, record_leq, record_le_exec,
    lemma_record_leq_total_ordering,
};

verus! {

/// The views of a row vector.
pub open spec fn record_views(s: Seq<MatchRecord>) -> Seq<RecordView> {
    s.map_values(|r: MatchRecord| r@)
}

/// The lexicographic byte-string order as a relation value: the order of
/// the found list.
pub open spec fn lex_leq() -> spec_fn(Seq<u8>, Seq<u8>) -> bool {
    |a: Seq<u8>, b: Seq<u8>| lex_le(a, b)
}

/// The found-list order is a total order.
pub proof fn lemma_lex_leq_total_ordering()
    ensures
        total_ordering(lex_leq()),
{
    let leq = lex_leq();
    assert forall|a: Seq<u8>| #[trigger] leq(a, a) by {
        lemma_lex_le_refl(a);
    }
    assert forall|a: Seq<u8>, b: Seq<u8>| #[trigger] leq(a, b) && #[trigger] leq(b, a)
        implies a == b by {
        lemma_lex_le_antisym(a, b);
    }
    assert forall|a: Seq<u8>, b: Seq<u8>, c: Seq<u8>| #[trigger] leq(a, b) && #[trigger] leq(b, c)
        implies leq(a, c) by {
        lemma_lex_le_trans(a, b, c);
    }
    assert forall|a: Seq<u8>, b: Seq<u8>| #[trigger] leq(a, b) || #[trigger] leq(b, a) by {
        lemma_lex_le_total(a, b);
    }
}

/// Position before the first element of the sorted `out` that `x` precedes.
fn record_position(out: &Vec<MatchRecord>, x: &MatchRecord) -> (idx: usize)
    ensures
        0 <= idx <= out.len(),
        forall|k: int| 0 <= k < idx ==> !record_le(x@, out@[k]@),
        idx < out.len() ==> record_le(x@, out@[idx as int]@),
{
    let mut idx: usize = 0;
    while idx < out.len()
        invariant
            0 <= idx <= out.len(),
            forall|k: int| 0 <= k < idx ==> !record_le(x@, out@[k]@),
        decreases out.len() - idx,
    {
        if record_le_exec(x, &out[idx]) {
            return idx;
        }
        idx = idx + 1;
    }
    idx
}

/// A sequence, its element at `i` taken out, decomposes the multiset.
proof fn lemma_insert_multiset<A>(s: Seq<A>, i: int, x: A)
    requires
        0 <= i <= s.len(),
    ensures
        s.insert(i, x).to_multiset() =~= s.to_multiset().insert(x),
{
    broadcast use group_to_multiset_ensures;
    broadcast use vstd::multiset::group_multiset_axioms;

    let pre = s.take(i);
    let post = s.skip(i);
    assert(s.insert(i, x) =~= pre + (seq![x] + post));
    assert(s =~= pre + post);
    lemma_multiset_commutative(pre, seq![x] + post);
    lemma_multiset_commutative(seq![x], post);
    lemma_multiset_commutative(pre, post);
    assert(seq![x] =~= Seq::<A>::empty().push(x));
    assert(seq![x].to_multiset() =~= Multiset::<A>::empty().insert(x));
}

/// Inserts `x` into the sorted row vector `out`, keeping it sorted.
fn insert_record(out: &mut Vec<MatchRecord>, x: MatchRecord)
    requires
        sorted_by(record_views(old(out)@), record_leq()),
    ensures
        sorted_by(record_views(final(out)@), record_leq()),
        record_views(final(out)@).to_multiset() =~= record_views(old(out)@).to_multiset().insert(
            x@,
        ),
{
    proof {
        lemma_record_leq_total_ordering();
        broadcast use vstd::multiset::group_multiset_axioms;
    }
    let idx = record_position(out, &x);
    let ghost out0 = out@;
    let ghost oldv = record_views(out@);
    let ghost xv = x@;
    proof {
        assert forall|k: int| 0 <= k < idx implies !record_le(xv, #[trigger] oldv[k]) by {
            assert(oldv[k] == out0[k]@);
        }
        if idx < out0.len() {
            assert(record_le(xv, oldv[idx as int]));
        }
    }
    out.insert(idx, x);
    proof {
        let newv = record_views(out@);
        assert(newv =~= oldv.insert(idx as int, xv));
        lemma_insert_multiset(oldv, idx as int, xv);
        let leq = record_leq();
        assert forall|i: int, j: int| 0 <= i < j < newv.len() implies #[trigger] leq(
            newv[i],
            newv[j],
        ) by {
            assert(newv == oldv.take(idx as int) + (seq![xv] + oldv.skip(idx as int)));
            if i < idx {
                assert(newv[i] == oldv[i]);
            } else if i == idx {
                assert(newv[i] == xv);
            } else {
                assert(newv[i] == oldv[i - 1]);
            }
            if j < idx {
                assert(newv[j] == oldv[j]);
            } else if j == idx {
                assert(newv[j] == xv);
            } else {
                assert(newv[j] == oldv[j - 1]);
            }
            if j < idx {
                assert(leq(oldv[i], oldv[j]));
                assert(record_le(newv[i], newv[j]));
            } else if i < idx && j == idx {
                assert(!record_le(xv, oldv[i]));
                assert(leq(oldv[i], xv) || leq(xv, oldv[i]));
                assert(record_le(newv[i], newv[j]));
            } else if i < idx && j > idx {
                assert(leq(oldv[i], oldv[j - 1]));
                assert(record_le(newv[i], newv[j]));
            } else if i == idx && j > idx {
                assert(leq(xv, oldv[idx as int]));
                if j - 1 > idx {
                    assert(leq(oldv[idx as int], oldv[j - 1]));
                }
                assert(record_le(newv[i], newv[j]));
            } else {
                assert(leq(oldv[i - 1], oldv[j - 1]));
                assert(record_le(newv[i], newv[j]));
            }
        }
    }
}

/// Sorts the report rows by the report order.
pub fn sort_records(rows: Vec<MatchRecord>) -> (r: Vec<MatchRecord>)
    ensures
        sorted_by(record_views(r@), record_leq()),
        record_views(r@).to_multiset() =~= record_views(rows@).to_multiset(),
{
    broadcast use group_to_multiset_ensures;
    broadcast use vstd::multiset::group_multiset_axioms;
    broadcast use vstd::multiset::lemma_multiset_empty_len;

    let ghost all = record_views(rows@);
    let mut rest = rows;
    let mut out: Vec<MatchRecord> = Vec::new();
    proof {
        assert(record_views(out@) =~= Seq::<RecordView>::empty());
        assert(record_views(rest@) =~= all);
    }
    loop
        invariant
            sorted_by(record_views(out@), record_leq()),
            record_views(out@).to_multiset().add(record_views(rest@).to_multiset()) =~= all.to_multiset(),
        ensures
            rest@.len() == 0,
            sorted_by(record_views(out@), record_leq()),
            record_views(out@).to_multiset() =~= all.to_multiset(),
        decreases rest@.len(),
    {
        let ghost prev = record_views(rest@);
        let ghost r0 = rest@;
        match rest.pop() {
            Some(x) => {
                proof {
                    assert forall|k: int| 0 <= k < rest@.len() implies #[trigger] record_views(
                        rest@,
                    )[k] == prev[k] by {
                        assert(record_views(rest@)[k] == rest@[k]@);
                        assert(rest@[k] == r0[k]);
                        assert(prev[k] == r0[k]@);
                    }
                    assert(prev[prev.len() - 1] == r0[r0.len() - 1]@);
                    assert(prev =~= record_views(rest@).push(x@));
                    to_multiset_build(record_views(rest@), x@);
                }
                insert_record(&mut out, x);
            },
            None => {
                proof {
                    assert(record_views(rest@).len() == 0);
                    to_multiset_len(record_views(rest@));
                    vstd::multiset::lemma_multiset_empty_len(record_views(rest@).to_multiset());
                }
                break ;
            },
        }
    }
    out
}

/// Position before the first element of the sorted `out` that `x` precedes.
fn found_position(out: &Vec<Vec<u8>>, x: &Vec<u8>) -> (idx: usize)
    ensures
        0 <= idx <= out.len(),
        forall|k: int| 0 <= k < idx ==> !lex_le(x@, out@[k]@),
        idx < out.len() ==> lex_le(x@, out@[idx as int]@),
{
    let mut idx: usize = 0;
    while idx < out.len()
        invariant
            0 <= idx <= out.len(),
            forall|k: int| 0 <= k < idx ==> !lex_le(x@, out@[k]@),
        decreases out.len() - idx,
    {
        if lex_le_exec(x, &out[idx]) {
            return idx;
        }
        idx = idx + 1;
    }
    idx
}

/// Inserts `x` into the sorted entry list `out`, keeping it sorted.
fn insert_found(out: &mut Vec<Vec<u8>>, x: Vec<u8>)
    requires
        sorted_by(views_of(old(out)@), lex_leq()),
    ensures
        sorted_by(views_of(final(out)@), lex_leq()),
        views_of(final(out)@).to_multiset() =~= views_of(old(out)@).to_multiset().insert(x@),
{
    proof {
        lemma_lex_leq_total_ordering();
        broadcast use vstd::multiset::group_multiset_axioms;
    }
    let idx = found_position(out, &x);
    let ghost out0 = out@;
    let ghost oldv = views_of(out@);
    let ghost xv = x@;
    proof {
        assert forall|k: int| 0 <= k < idx implies !lex_le(xv, #[trigger] oldv[k]) by {
            assert(oldv[k] == out0[k]@);
        }
        if idx < out0.len() {
            assert(lex_le(xv, oldv[idx as int]));
        }
    }
    out.insert(idx, x);
    proof {
        let newv = views_of(out@);
        assert(newv =~= oldv.insert(idx as int, xv));
        lemma_insert_multiset(oldv, idx as int, xv);
        let leq = lex_leq();
        assert forall|i: int, j: int| 0 <= i < j < newv.len() implies #[trigger] leq(
            newv[i],
            newv[j],
        ) by {
            assert(newv == oldv.take(idx as int) + (seq![xv] + oldv.skip(idx as int)));
            if i < idx {
                assert(newv[i] == oldv[i]);
            } else if i == idx {
                assert(newv[i] == xv);
            } else {
                assert(newv[i] == oldv[i - 1]);
            }
            if j < idx {
                assert(newv[j] == oldv[j]);
            } else if j == idx {
                assert(newv[j] == xv);
            } else {
                assert(newv[j] == oldv[j - 1]);
            }
            if j < idx {
                assert(leq(oldv[i], oldv[j]));
            } else if i < idx && j == idx {
                assert(!lex_le(xv, oldv[i]));
                assert(leq(oldv[i], xv) || leq(xv, oldv[i]));
            } else if i < idx && j > idx {
                if j - 1 == i {
                } else {
                    assert(leq(oldv[i], oldv[j - 1]));
                }
            } else if i == idx && j > idx {
                assert(leq(xv, oldv[idx as int]));
                if j - 1 > idx {
                    assert(leq(oldv[idx as int], oldv[j - 1]));
                }
            } else {
                assert(leq(oldv[i - 1], oldv[j - 1]));
            }
        }
    }
}

/// Sorts the found list lexicographically.
pub fn sort_found(entries: Vec<Vec<u8>>) -> (r: Vec<Vec<u8>>)
    ensures
        sorted_by(views_of(r@), lex_leq()),
        views_of(r@).to_multiset() =~= views_of(entries@).to_multiset(),
{
    broadcast use group_to_multiset_ensures;
    broadcast use vstd::multiset::group_multiset_axioms;
    broadcast use vstd::multiset::lemma_multiset_empty_len;

    let ghost all = views_of(entries@);
    let mut rest = entries;
    let mut out: Vec<Vec<u8>> = Vec::new();
    proof {
        assert(views_of(out@) =~= Seq::<Seq<u8>>::empty());
        assert(views_of(rest@) =~= all);
    }
    loop
        invariant
            sorted_by(views_of(out@), lex_leq()),
            views_of(out@).to_multiset().add(views_of(rest@).to_multiset()) =~= all.to_multiset(),
        ensures
            sorted_by(views_of(out@), lex_leq()),
            views_of(out@).to_multiset() =~= all.to_multiset(),
        decreases rest@.len(),
    {
        let ghost prev = views_of(rest@);
        let ghost r0 = rest@;
        match rest.pop() {
            Some(x) => {
                proof {
                    assert forall|k: int| 0 <= k < rest@.len() implies #[trigger] views_of(
                        rest@,
                    )[k] == prev[k] by {
                        assert(views_of(rest@)[k] == rest@[k]@);
                        assert(rest@[k] == r0[k]);
                        assert(prev[k] == r0[k]@);
                    }
                    assert(prev[prev.len() - 1] == r0[r0.len() - 1]@);
                    assert(prev =~= views_of(rest@).push(x@));
                    to_multiset_build(views_of(rest@), x@);
                }
                insert_found(&mut out, x);
            },
            None => {
                proof {
                    assert(views_of(rest@).len() == 0);
                    to_multiset_len(views_of(rest@));
                    vstd::multiset::lemma_multiset_empty_len(views_of(rest@).to_multiset());
                }
                break ;
            },
        }
    }
    out
}

/// Accumulates the rows and found-list entries of every directory. The
/// collections only grow; [`Aggregator::into_sorted`] imposes the final
/// order once at the end.
pub struct Aggregator {
    /// Every row collected so far.
    pub rows: Vec<MatchRecord>,
    /// Every found-list entry collected so far.
    pub found: Vec<Vec<u8>>,
}

impl Aggregator {
    /// An empty aggregator.
    pub fn new() -> (r: Aggregator)
        ensures
            r.rows@.len() == 0,
            r.found@.len() == 0,
    {
        Aggregator { rows: Vec::new(), found: Vec::new() }
    }

    /// Takes one directory's rows and entries in, appending them.
    pub fn merge(&mut self, rows: Vec<MatchRecord>, found: Vec<Vec<u8>>)
        ensures
            final(self).rows@ == old(self).rows@ + rows@,
            final(self).found@ == old(self).found@ + found@,
    {
        let mut r = rows;
        self.rows.append(&mut r);
        let mut f = found;
        self.found.append(&mut f);
    }

    /// Hands the collected rows and entries out, each sorted by its order.
    pub fn into_sorted(self) -> (r: (Vec<MatchRecord>, Vec<Vec<u8>>))
        ensures
            sorted_by(record_views(r.0@), record_leq()),
            record_views(r.0@).to_multiset() =~= record_views(self.rows@).to_multiset(),
            sorted_by(views_of(r.1@), lex_leq()),
            views_of(r.1@).to_multiset() =~= views_of(self.found@).to_multiset(),
    {
        let Aggregator { rows, found } = self;
        (sort_records(rows), sort_found(found))
    }
}

/// Law: the sorted report is a function of the collected rows alone. Any
/// two row collections that hold the same rows — whatever order the
/// directory workers delivered them in — sort to the same report.
pub proof fn lemma_report_deterministic(
    a: Seq<RecordView>,
    b: Seq<RecordView>,
    sa: Seq<RecordView>,
    sb: Seq<RecordView>,
)
    requires
        a.to_multiset() == b.to_multiset(),
        sorted_by(sa, record_leq()),
        sa.to_multiset() == a.to_multiset(),
        sorted_by(sb, record_leq()),
        sb.to_multiset() == b.to_multiset(),
    ensures
        sa == sb,
{
    lemma_record_leq_total_ordering();
    lemma_sorted_unique(sa, sb, record_leq());
}

/// Law: the sorted found list is a function of the collected entries alone.
pub proof fn lemma_found_list_deterministic(
    a: Seq<Seq<u8>>,
    b: Seq<Seq<u8>>,
    sa: Seq<Seq<u8>>,
    sb: Seq<Seq<u8>>,
)
    requires
        a.to_multiset() == b.to_multiset(),
        sorted_by(sa, lex_leq()),
        sa.to_multiset() == a.to_multiset(),
        sorted_by(sb, lex_leq()),
        sb.to_multiset() == b.to_multiset(),
    ensures
        sa == sb,
{
    lemma_lex_leq_total_ordering();
    lemma_sorted_unique(sa, sb, lex_leq());
}

} // verus!
