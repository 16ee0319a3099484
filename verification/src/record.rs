//! Report rows: one `MatchRecord` per evaluated (package, directory) pair,
//! with the total order that the final report imposes on them.

use vstd::prelude::*;
use vstd::relations::{total_ordering, sorted_by};

use crate::bytes::{
    lex_le, lemma_lex_le_refl, lemma_lex_le_total, lemma_lex_le_antisym, lemma_lex_le_trans,
    lex_le_exec, bytes_eq, copy_range, concat_bytes, COLON, AT,
};

verus! {

/// How a report row came to be: the root package itself, one of its direct
/// dependencies, or one of its development dependencies.
#[derive(Clone, Copy, Debug, PartialEq, Eq, Structural)]
pub enum DepKind {
    Root,
    Direct,
    Dev,
}

/// One row of the report.
pub struct MatchRecord {
    /// The package the row is about.
    pub package: Vec<u8>,
    /// The version or range the row was evaluated against.
    pub version: Vec<u8>,
    /// The directory the row was found in.
    pub location: Vec<u8>,
    /// The package is referenced somewhere in the directory's sources.
    pub match_package: bool,
    /// Some referenced version satisfies the requirement.
    pub match_version: bool,
    /// The row's provenance.
    pub kind: DepKind,
    /// `<name>@<version>` of the declaring root package, when the row came
    /// from a dependency list.
    pub declared_by: Vec<u8>,
}

/// The mathematical view of a report row.
#[verifier::ext_equal]
pub ghost struct RecordView {
    pub package: Seq<u8>,
    pub version: Seq<u8>,
    pub location: Seq<u8>,
    pub match_package: bool,
    pub match_version: bool,
    pub kind: DepKind,
    pub declared_by: Seq<u8>,
}

impl View for MatchRecord {
    type V = RecordView;

    open spec fn view(&self) -> RecordView {
        RecordView {
            package: self.package@,
            version: self.version@,
            location: self.location@,
            match_package: self.match_package,
            match_version: self.match_version,
            kind: self.kind,
            declared_by: self.declared_by@,
        }
    }
}

/// The text of a row's provenance column.
pub open spec fn kind_text(k: DepKind) -> Seq<u8> {
    match k {
        DepKind::Root => Seq::empty(),
        DepKind::Direct => seq![100u8, 105u8, 114u8, 101u8, 99u8, 116u8],
        DepKind::Dev => seq![100u8, 101u8, 118u8],
    }
}

impl MatchRecord {
    /// The provenance column of this row: empty, `direct` or `dev`.
    pub fn kind_text_vec(&self) -> (r: Vec<u8>)
        ensures
            r@ == kind_text(self@.kind),
    {
        match self.kind {
            DepKind::Root => Vec::new(),
            DepKind::Direct => {
                let v: Vec<u8> = vec![100u8, 105u8, 114u8, 101u8, 99u8, 116u8];
                proof {
                    assert(v@ =~= kind_text(DepKind::Direct));
                }
                v
            },
            DepKind::Dev => {
                let v: Vec<u8> = vec![100u8, 101u8, 118u8];
                proof {
                    assert(v@ =~= kind_text(DepKind::Dev));
                }
                v
            },
        }
    }
}

/// A found-list entry: `<location>:<name>@<version>`.
pub open spec fn spec_found_entry(location: Seq<u8>, name: Seq<u8>, version: Seq<u8>) -> Seq<u8> {
    location + seq![COLON] + name + seq![AT] + version
}

/// Formats a found-list entry.
pub fn found_entry(location: &Vec<u8>, name: &Vec<u8>, version: &Vec<u8>) -> (r: Vec<u8>)
    ensures
        r@ == spec_found_entry(location@, name@, version@),
{
    let mut head = copy_range(location, 0, location.len());
    head.push(COLON);
    let mid = concat_bytes(&head, name);
    let mut mid2 = mid;
    mid2.push(AT);
    let r = concat_bytes(&mid2, version);
    proof {
        assert(r@ =~= spec_found_entry(location@, name@, version@));
    }
    r
}

/// Joins `<name>@<version>`.
pub fn at_join(name: &Vec<u8>, version: &Vec<u8>) -> (r: Vec<u8>)
    ensures
        r@ == name@ + seq![AT] + version@,
{
    let mut head = copy_range(name, 0, name.len());
    head.push(AT);
    let r = concat_bytes(&head, version);
    proof {
        assert(r@ =~= name@ + seq![AT] + version@);
    }
    r
}

/// Rank of a provenance kind in the report order.
pub open spec fn kind_rank(k: DepKind) -> int {
    match k {
        DepKind::Root => 0,
        DepKind::Direct => 1,
        DepKind::Dev => 2,
    }
}

/// The report order on rows: lexicographic by package, version and
/// location, with the remaining fields as a fixed tiebreak, so that the
/// order is total and the sorted report is unique.
pub open spec fn record_le(a: RecordView, b: RecordView) -> bool {
    if a.package != b.package {
        lex_le(a.package, b.package)
    } else if a.version != b.version {
        lex_le(a.version, b.version)
    } else if a.location != b.location {
        lex_le(a.location, b.location)
    } else if a.match_package != b.match_package {
        !a.match_package
    } else if a.match_version != b.match_version {
        !a.match_version
    } else if a.kind != b.kind {
        kind_rank(a.kind) <= kind_rank(b.kind)
    } else {
        lex_le(a.declared_by, b.declared_by)
    }
}

/// The report order as a relation value.
pub open spec fn record_leq() -> spec_fn(RecordView, RecordView) -> bool {
    |a: RecordView, b: RecordView| record_le(a, b)
}

proof fn lex_facts(x: Seq<u8>, y: Seq<u8>)
    ensures
        lex_le(x, y) || lex_le(y, x),
        (lex_le(x, y) && lex_le(y, x)) ==> x == y,
        lex_le(x, x),
{
    lemma_lex_le_total(x, y);
    lemma_lex_le_refl(x);
    if lex_le(x, y) && lex_le(y, x) {
        lemma_lex_le_antisym(x, y);
    }
}

proof fn lex_trans_fact(x: Seq<u8>, y: Seq<u8>, z: Seq<u8>)
    ensures
        (lex_le(x, y) && lex_le(y, z)) ==> lex_le(x, z),
{
    if lex_le(x, y) && lex_le(y, z) {
        lemma_lex_le_trans(x, y, z);
    }
}

/// The report order is a total order.
pub proof fn lemma_record_leq_total_ordering()
    ensures
        total_ordering(record_leq()),
{
    let leq = record_leq();
    assert forall|a: RecordView| #[trigger] leq(a, a) by {
        lex_facts(a.declared_by, a.declared_by);
    }
    assert forall|a: RecordView, b: RecordView| #[trigger] leq(a, b) && #[trigger] leq(b, a)
        implies a == b by {
        lex_facts(a.package, b.package);
        lex_facts(a.version, b.version);
        lex_facts(a.location, b.location);
        lex_facts(a.declared_by, b.declared_by);
    }
    assert forall|a: RecordView, b: RecordView, c: RecordView|
        #[trigger] leq(a, b) && #[trigger] leq(b, c) implies leq(a, c) by {
        lex_facts(a.package, b.package);
        lex_facts(b.package, c.package);
        lex_facts(a.package, c.package);
        lex_trans_fact(a.package, b.package, c.package);
        lex_facts(a.version, b.version);
        lex_facts(b.version, c.version);
        lex_facts(a.version, c.version);
        lex_trans_fact(a.version, b.version, c.version);
        lex_facts(a.location, b.location);
        lex_facts(b.location, c.location);
        lex_facts(a.location, c.location);
        lex_trans_fact(a.location, b.location, c.location);
        lex_facts(a.declared_by, b.declared_by);
        lex_facts(b.declared_by, c.declared_by);
        lex_facts(a.declared_by, c.declared_by);
        lex_trans_fact(a.declared_by, b.declared_by, c.declared_by);
    }
    assert forall|a: RecordView, b: RecordView| #[trigger] leq(a, b) || #[trigger] leq(b, a) by {
        lex_facts(a.package, b.package);
        lex_facts(a.version, b.version);
        lex_facts(a.location, b.location);
        lex_facts(a.declared_by, b.declared_by);
    }
}

/// Rank equality means kind equality.
proof fn lemma_kind_rank_injective(a: DepKind, b: DepKind)
    ensures
        kind_rank(a) == kind_rank(b) ==> a == b,
{
}

/// Exec rank of a provenance kind.
fn kind_rank_exec(k: DepKind) -> (r: u8)
    ensures
        r as int == kind_rank(k),
{
    match k {
        DepKind::Root => 0,
        DepKind::Direct => 1,
        DepKind::Dev => 2,
    }
}

/// Decides the report order on two rows.
pub fn record_le_exec(a: &MatchRecord, b: &MatchRecord) -> (r: bool)
    ensures
        r == record_le(a@, b@),
{
    if !bytes_eq(&a.package, &b.package) {
        return lex_le_exec(&a.package, &b.package);
    }
    if !bytes_eq(&a.version, &b.version) {
        return lex_le_exec(&a.version, &b.version);
    }
    if !bytes_eq(&a.location, &b.location) {
        return lex_le_exec(&a.location, &b.location);
    }
    if a.match_package != b.match_package {
        return !a.match_package;
    }
    if a.match_version != b.match_version {
        return !a.match_version;
    }
    let ra = kind_rank_exec(a.kind);
    let rb = kind_rank_exec(b.kind);
    if ra != rb {
        return ra <= rb;
    }
    proof {
        lemma_kind_rank_injective(a.kind, b.kind);
    }
    lex_le_exec(&a.declared_by, &b.declared_by)
}

} // verus!
