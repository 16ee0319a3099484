//! The resolution engine: per (directory, requirement) pair, unite every
//! extractor's versions with the declared range of the manifest and decide
//! package presence and version satisfaction.

use vstd::prelude::*;

use crate::bytes::{view_set, views_of};
use crate::json::{Json, spec_parse_json, parse_json};
use crate::lockwalk::{spec_package_lock_versions, spec_installed_tree_versions, get_package_lock_versions, get_npm_versions};
use crate::yarn::{spec_yarn_versions, get_yarn_versions};
use crate::pnpm::{spec_pnpm_versions, get_pnpm_versions};
use crate::custom::{spec_custom_versions, get_dependencies_versions};
use crate::manifest::{
    spec_pkg_range, get_pkg_range, spec_manifest_rows, manifest_rows, found_of_rows, row_found,
    lemma_found_push,
};
use crate::record::{MatchRecord, RecordView, DepKind, found_entry};
use crate::requirements::{Requirement, req_views};
use crate::version::spec_satisfies;
use crate::aggregate::record_views;

verus! {

/// The read-once bundle of one directory's recognized source files: raw
/// record-oriented, line-oriented and custom descriptor content, and the
/// parsed package-lock and manifest documents.
pub struct Snapshot {
    pub yarn: Option<Vec<u8>>,
    pub plock: Option<Json>,
    pub pnpm: Option<Vec<u8>>,
    pub deps: Option<Vec<u8>>,
    pub pkg_json: Option<Json>,
}

impl Snapshot {
    /// Builds a snapshot out of whatever file contents the directory had;
    /// a missing file contributes nothing, and JSON content that does not
    /// parse is dropped.
    pub fn new(
        yarn: Option<Vec<u8>>,
        plock_text: Option<&Vec<u8>>,
        pnpm: Option<Vec<u8>>,
        deps: Option<Vec<u8>>,
        pkg_text: Option<&Vec<u8>>,
    ) -> (r: Snapshot)
        ensures
            r.yarn == yarn,
            r.pnpm == pnpm,
            r.deps == deps,
            r.plock == (match plock_text {
                Some(t) => spec_parse_json(t@),
                None => None::<Json>,
            }),
            r.pkg_json == (match pkg_text {
                Some(t) => spec_parse_json(t@),
                None => None::<Json>,
            }),
    {
        let plock = match plock_text {
            Some(t) => parse_json(t),
            None => None,
        };
        let pkg_json = match pkg_text {
            Some(t) => parse_json(t),
            None => None,
        };
        Snapshot { yarn, plock, pnpm, deps, pkg_json }
    }
}

/// Every version the snapshot's sources, and the optional installed-tree
/// query output, assert for the package `name`.
pub open spec fn spec_discovered(snap: Snapshot, npm_output: Option<Seq<u8>>, name: Seq<u8>) -> Set<
    Seq<u8>,
> {
    (match snap.yarn {
        Some(c) => spec_yarn_versions(c@, name),
        None => Set::empty(),
    }).union(
        (match snap.plock {
            Some(j) => spec_package_lock_versions(j, name),
            None => Set::empty(),
        }),
    ).union(
        (match snap.pnpm {
            Some(c) => spec_pnpm_versions(c@, name),
            None => Set::empty(),
        }),
    ).union(
        (match snap.deps {
            Some(c) => spec_custom_versions(c@, name),
            None => Set::empty(),
        }),
    ).union(
        (match npm_output {
            Some(o) => spec_installed_tree_versions(o, name),
            None => Set::empty(),
        }),
    )
}

/// Collects every discovered version for `name` into one vector.
pub fn discovered_versions(snap: &Snapshot, npm_output: Option<&Vec<u8>>, name: &Vec<u8>) -> (r:
    Vec<Vec<u8>>)
    ensures
        view_set(r@) =~= spec_discovered(*snap, (match npm_output {
            Some(o) => Some(o@),
            None => None,
        }), name@),
{
    let mut out: Vec<Vec<u8>> = Vec::new();
    proof {
        assert(view_set(out@) =~= Set::<Seq<u8>>::empty());
    }
    match &snap.yarn {
        Some(c) => {
            let mut vs = get_yarn_versions(name, c);
            out.append(&mut vs);
            proof {
                assert(view_set(out@) =~= spec_discovered_yarn(*snap, name@));
            }
        },
        None => {},
    }
    match &snap.plock {
        Some(j) => {
            let mut vs = get_package_lock_versions(name, j);
            proof {
                lemma_view_set_append(out@, vs@);
            }
            out.append(&mut vs);
        },
        None => {},
    }
    match &snap.pnpm {
        Some(c) => {
            let mut vs = get_pnpm_versions(name, c);
            proof {
                lemma_view_set_append(out@, vs@);
            }
            out.append(&mut vs);
        },
        None => {},
    }
    match &snap.deps {
        Some(c) => {
            let mut vs = get_dependencies_versions(name, c);
            proof {
                lemma_view_set_append(out@, vs@);
            }
            out.append(&mut vs);
        },
        None => {},
    }
    match npm_output {
        Some(o) => {
            let mut vs = get_npm_versions(name, o);
            proof {
                lemma_view_set_append(out@, vs@);
            }
            out.append(&mut vs);
        },
        None => {},
    }
    proof {
        assert(view_set(out@) =~= spec_discovered(*snap, (match npm_output {
            Some(o) => Some(o@),
            None => None::<Seq<u8>>,
        }), name@));
    }
    out
}

/// The record-oriented source's contribution alone.
pub open spec fn spec_discovered_yarn(snap: Snapshot, name: Seq<u8>) -> Set<Seq<u8>> {
    match snap.yarn {
        Some(c) => spec_yarn_versions(c@, name),
        None => Set::empty(),
    }
}

/// Appending two vectors unites their view sets.
pub proof fn lemma_view_set_append(a: Seq<Vec<u8>>, b: Seq<Vec<u8>>)
    ensures
        view_set(a + b) =~= view_set(a).union(view_set(b)),
{
    assert forall|v: Seq<u8>| view_set(a + b).contains(v) implies view_set(a).union(
        view_set(b),
    ).contains(v) by {
        let i = choose|i: int| 0 <= i < (a + b).len() && (a + b)[i]@ == v;
        if i < a.len() {
            assert(a[i]@ == v);
        } else {
            assert(b[i - a.len()]@ == v);
        }
    }
    assert forall|v: Seq<u8>| view_set(a).union(view_set(b)).contains(v) implies view_set(
        a + b,
    ).contains(v) by {
        if view_set(a).contains(v) {
            let i = choose|i: int| 0 <= i < a.len() && a[i]@ == v;
            assert((a + b)[i]@ == v);
        } else {
            let i = choose|i: int| 0 <= i < b.len() && b[i]@ == v;
            assert((a + b)[a.len() + i]@ == v);
        }
    }
}

/// Some discovered version satisfies the requirement `version`.
pub open spec fn spec_any_satisfies(vs: Set<Seq<u8>>, version: Seq<u8>) -> bool {
    exists|v: Seq<u8>| vs.contains(v) && spec_satisfies(v, version)
}

/// Decides whether some collected version satisfies `version`.
fn any_satisfies(vs: &Vec<Vec<u8>>, version: &Vec<u8>) -> (r: bool)
    ensures
        r == spec_any_satisfies(view_set(vs@), version@),
{
    let mut i: usize = 0;
    while i < vs.len()
        invariant
            0 <= i <= vs.len(),
            forall|j: int| 0 <= j < i ==> !spec_satisfies(#[trigger] vs@[j]@, version@),
        decreases vs.len() - i,
    {
        if crate::version::satisfies_range(&vs[i], version) {
            proof {
                assert(view_set(vs@).contains(vs@[i as int]@));
            }
            return true;
        }
        i = i + 1;
    }
    proof {
        assert forall|v: Seq<u8>| view_set(vs@).contains(v) implies !spec_satisfies(
            v,
            version@,
        ) by {
            let j = choose|j: int| 0 <= j < vs@.len() && vs@[j]@ == v;
            assert(!spec_satisfies(vs@[j]@, version@));
        }
    }
    false
}

/// The row one requirement yields in one directory, when any of its sources
/// reference the package: the package matches when the manifest declares a
/// range for it or some source asserts a version; the version matches when
/// some asserted version satisfies the requirement. A pair with neither is
/// discarded.
pub open spec fn spec_requirement_row(
    snap: Snapshot,
    npm_output: Option<Seq<u8>>,
    dir: Seq<u8>,
    name: Seq<u8>,
    version: Seq<u8>,
) -> Option<RecordView> {
    let rng = (match snap.pkg_json {
        Some(j) => spec_pkg_range(j, name),
        None => Seq::<u8>::empty(),
    });
    let vs = spec_discovered(snap, npm_output, name);
    let mp = rng.len() > 0 || vs != Set::<Seq<u8>>::empty();
    let mv = spec_any_satisfies(vs, version);
    if mp || mv {
        Some(
            RecordView {
                package: name,
                version: version,
                location: dir,
                match_package: mp,
                match_version: mv,
                kind: DepKind::Root,
                declared_by: Seq::empty(),
            },
        )
    } else {
        None
    }
}

/// Evaluates one requirement against one directory's snapshot.
pub fn evaluate_requirement(
    snap: &Snapshot,
    npm_output: Option<&Vec<u8>>,
    dir: &Vec<u8>,
    name: &Vec<u8>,
    version: &Vec<u8>,
) -> (r: Option<MatchRecord>)
    ensures
        (match r {
            Some(rec) => spec_requirement_row(*snap, (match npm_output {
                Some(o) => Some(o@),
                None => None,
            }), dir@, name@, version@) == Some(rec@),
            None => spec_requirement_row(*snap, (match npm_output {
                Some(o) => Some(o@),
                None => None,
            }), dir@, name@, version@) is None,
        }),
{
    let pkg_json = match &snap.pkg_json {
        Some(j) => Some(j),
        None => None,
    };
    let rng = get_pkg_range(name, pkg_json);
    let vs = discovered_versions(snap, npm_output, name);
    let ghost vset = view_set(vs@);
    let mut mp = rng.len() > 0 || vs.len() > 0;
    proof {
        if vs@.len() > 0 {
            assert(vset.contains(vs@[0]@));
            assert(vset != Set::<Seq<u8>>::empty());
        } else {
            assert(vset =~= Set::<Seq<u8>>::empty());
        }
    }
    let mv = any_satisfies(&vs, version);
    if !mp && !mv {
        return None;
    }
    let rec = MatchRecord {
        package: crate::bytes::clone_bytes(name),
        version: crate::bytes::clone_bytes(version),
        location: crate::bytes::clone_bytes(dir),
        match_package: mp,
        match_version: mv,
        kind: DepKind::Root,
        declared_by: Vec::new(),
    };
    proof {
        assert(rec@ =~= spec_requirement_row(*snap, (match npm_output {
            Some(o) => Some(o@),
            None => None::<Seq<u8>>,
        }), dir@, name@, version@).unwrap());
    }
    Some(rec)
}

/// The installed-tree output for requirement `i`: outputs are aligned with
/// the requirement list, and an empty list means no query was made.
pub open spec fn npm_for(npms: Seq<Vec<u8>>, i: int) -> Option<Seq<u8>> {
    if 0 <= i < npms.len() {
        Some(npms[i]@)
    } else {
        None
    }
}

/// The rows the requirements from `i` on yield in one directory.
pub open spec fn spec_requirement_rows(
    snap: Snapshot,
    npms: Seq<Vec<u8>>,
    dir: Seq<u8>,
    reqs: Seq<(Seq<u8>, Seq<u8>)>,
    i: int,
) -> Seq<RecordView>
    decreases reqs.len() - i when 0 <= i <= reqs.len()
{
    if i >= reqs.len() {
        Seq::empty()
    } else {
        (match spec_requirement_row(snap, npm_for(npms, i), dir, reqs[i].0, reqs[i].1) {
            Some(r) => seq![r],
            None => Seq::empty(),
        }) + spec_requirement_rows(snap, npms, dir, reqs, i + 1)
    }
}

/// Every row one directory yields: the manifest walk's rows, then one row
/// per requirement that any source references.
pub open spec fn spec_directory_rows(
    snap: Snapshot,
    npms: Seq<Vec<u8>>,
    dir: Seq<u8>,
    reqs: Seq<(Seq<u8>, Seq<u8>)>,
) -> Seq<RecordView> {
    (match snap.pkg_json {
        Some(j) => spec_manifest_rows(j, dir, reqs),
        None => Seq::empty(),
    }) + spec_requirement_rows(snap, npms, dir, reqs, 0)
}

/// Processes one directory: walks its manifest, then evaluates every
/// requirement against its snapshot. `npm_outputs` holds one installed-tree
/// query output per requirement, or nothing at all when the query is
/// switched off. Hands back the directory's rows and found-list entries.
#[verifier::loop_isolation(false)]
pub fn process_directory(
    snap: &Snapshot,
    dir: &Vec<u8>,
    reqs: &Vec<Requirement>,
    npm_outputs: &Vec<Vec<u8>>,
) -> (r: (Vec<MatchRecord>, Vec<Vec<u8>>))
    requires
        npm_outputs@.len() == 0 || npm_outputs@.len() == reqs@.len(),
    ensures
        record_views(r.0@) == spec_directory_rows(*snap, npm_outputs@, dir@, req_views(reqs@)),
        views_of(r.1@) == found_of_rows(record_views(r.0@)),
{
    let pkg_json = match &snap.pkg_json {
        Some(j) => Some(j),
        None => None,
    };
    let (mut rows, mut found) = manifest_rows(pkg_json, dir, reqs);
    let ghost base = record_views(rows@);
    let ghost rq = req_views(reqs@);
    let ghost whole = base + spec_requirement_rows(*snap, npm_outputs@, dir@, rq, 0);
    let mut i: usize = 0;
    proof {
        assert(record_views(rows@) + spec_requirement_rows(*snap, npm_outputs@, dir@, rq, 0)
            =~= whole);
    }
    while i < reqs.len()
        invariant
            0 <= i <= reqs.len(),
            record_views(rows@) + spec_requirement_rows(*snap, npm_outputs@, dir@, rq, i as int)
                =~= whole,
            views_of(found@) == found_of_rows(record_views(rows@)),
        decreases reqs.len() - i,
    {
        let npm_output = if npm_outputs.len() > 0 {
            Some(&npm_outputs[i])
        } else {
            None
        };
        let ghost head = (match spec_requirement_row(
            *snap,
            npm_for(npm_outputs@, i as int),
            dir@,
            rq[i as int].0,
            rq[i as int].1,
        ) {
            Some(r) => seq![r],
            None => Seq::<RecordView>::empty(),
        });
        proof {
            assert(rq[i as int] == reqs@[i as int]@);
            assert(spec_requirement_rows(*snap, npm_outputs@, dir@, rq, i as int) =~= head
                + spec_requirement_rows(*snap, npm_outputs@, dir@, rq, i + 1 as int));
        }
        match evaluate_requirement(snap, npm_output, dir, &reqs[i].name, &reqs[i].version) {
            Some(rec) => {
                proof {
                    assert(head =~= seq![rec@]);
                    lemma_found_push(record_views(rows@), rec@);
                    assert(record_views(rows@.push(rec)) =~= record_views(rows@).push(rec@));
                }
                let keep = rec.match_package && rec.match_version;
                if keep {
                    let entry = found_entry(&rec.location, &rec.package, &rec.version);
                    proof {
                        assert(row_found(rec@) =~= seq![entry@]);
                        assert(views_of(found@.push(entry)) =~= views_of(found@).push(entry@));
                    }
                    found.push(entry);
                } else {
                    proof {
                        assert(row_found(rec@) =~= Seq::<Seq<u8>>::empty());
                    }
                }
                rows.push(rec);
            },
            None => {
                proof {
                    assert(head =~= Seq::<RecordView>::empty());
                }
            },
        }
        i = i + 1;
    }
    proof {
        assert(spec_requirement_rows(*snap, npm_outputs@, dir@, rq, reqs@.len() as int) =~= Seq::<
            RecordView,
        >::empty());
        assert(record_views(rows@) =~= whole);
        assert(whole =~= spec_directory_rows(*snap, npm_outputs@, dir@, rq));
    }
    (rows, found)
}

} // verus!
