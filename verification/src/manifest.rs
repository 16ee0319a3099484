//! The root manifest: the declared range a package has in it, and the walk
//! that expands the manifest's own package and its declared dependency
//! lists into report rows.

use vstd::prelude::*;

use crate::bytes::{views_of, copy_range, clone_bytes, CARET, TILDE, AT};
use crate::json::{
    Json, obj_lookup, str_field, key_dependencies, key_dependencies_vec, key_dev_dependencies,
    key_dev_dependencies_vec, key_name, key_name_vec, key_version, key_version_vec, json_get,
};
use crate::record::{
    MatchRecord, RecordView, DepKind, spec_found_entry, found_entry, at_join,
};
use crate::requirements::{
    Requirement, req_views, req_name_match, req_satisfied, req_name_match_exec, req_satisfied_exec,
    contains_req,
};
use crate::version::mark_len;
use crate::aggregate::record_views;

verus! {

/// The range that the manifest's dependency sections declare for `name`:
/// its string entry in `dependencies`, or failing that in
/// `devDependencies`; empty when neither holds one.
pub open spec fn spec_pkg_range(j: Json, name: Seq<u8>) -> Seq<u8> {
    match j {
        Json::Obj(fields) => (match obj_lookup(fields@, key_dependencies()) {
            Some(Json::Obj(deps)) => (match str_field(deps@, name) {
                Some(r) => r,
                None => spec_pkg_range_dev(j, name),
            }),
            _ => spec_pkg_range_dev(j, name),
        }),
        _ => Seq::empty(),
    }
}

/// The `devDependencies` half of [`spec_pkg_range`].
pub open spec fn spec_pkg_range_dev(j: Json, name: Seq<u8>) -> Seq<u8> {
    match j {
        Json::Obj(fields) => (match obj_lookup(fields@, key_dev_dependencies()) {
            Some(Json::Obj(deps)) => (match str_field(deps@, name) {
                Some(r) => r,
                None => Seq::empty(),
            }),
            _ => Seq::empty(),
        }),
        _ => Seq::empty(),
    }
}

/// Reads the declared range for `name` out of an optional manifest.
pub fn get_pkg_range(name: &Vec<u8>, pkg_json: Option<&Json>) -> (r: Vec<u8>)
    ensures
        r@ == (match pkg_json {
            Some(j) => spec_pkg_range(*j, name@),
            None => Seq::<u8>::empty(),
        }),
{
    let j = match pkg_json {
        Some(j) => j,
        None => {
            return Vec::new();
        },
    };
    let fields = match j {
        Json::Obj(fields) => fields,
        _ => {
            return Vec::new();
        },
    };
    let dkey = key_dependencies_vec();
    match json_get(fields, &dkey) {
        Some(Json::Obj(deps)) => {
            match json_get(deps, name) {
                Some(Json::Str(s)) => {
                    return copy_range(s, 0, s.len());
                },
                _ => {},
            }
        },
        _ => {},
    }
    let vkey = key_dev_dependencies_vec();
    match json_get(fields, &vkey) {
        Some(Json::Obj(deps)) => {
            match json_get(deps, name) {
                Some(Json::Str(s)) => {
                    return copy_range(s, 0, s.len());
                },
                _ => {},
            }
        },
        _ => {},
    }
    Vec::new()
}

/// Takes a single leading `^` or `~` off a declared version.
pub fn strip_mark(v: &Vec<u8>) -> (r: Vec<u8>)
    ensures
        r@ == v@.skip(mark_len(v@)),
{
    if v.len() > 0 && (v[0] == CARET || v[0] == TILDE) {
        copy_range(v, 1, v.len())
    } else {
        let r = copy_range(v, 0, v.len());
        proof {
            assert(r@ =~= v@.skip(0));
        }
        r
    }
}

/// The entries of the object field `key` of `j`, when it holds an object.
pub open spec fn section_entries(j: Json, key: Seq<u8>) -> Seq<(Vec<u8>, Json)> {
    match j {
        Json::Obj(fields) => (match obj_lookup(fields@, key) {
            Some(Json::Obj(es)) => es@,
            _ => Seq::empty(),
        }),
        _ => Seq::empty(),
    }
}

/// The row one declared dependency entry yields.
pub open spec fn dep_row(
    dir: Seq<u8>,
    declared_by: Seq<u8>,
    kind: DepKind,
    entry: (Vec<u8>, Json),
    reqs: Seq<(Seq<u8>, Seq<u8>)>,
) -> RecordView {
    let raw = (match entry.1 {
        Json::Str(s) => s@,
        _ => Seq::<u8>::empty(),
    });
    let clean = raw.skip(mark_len(raw));
    RecordView {
        package: entry.0@,
        version: clean,
        location: dir,
        match_package: req_name_match(reqs, entry.0@),
        match_version: req_satisfied(reqs, entry.0@, clean),
        kind: kind,
        declared_by: declared_by,
    }
}

/// The rows a dependency section yields, one per entry, in order.
pub open spec fn dep_rows(
    dir: Seq<u8>,
    declared_by: Seq<u8>,
    kind: DepKind,
    entries: Seq<(Vec<u8>, Json)>,
    reqs: Seq<(Seq<u8>, Seq<u8>)>,
) -> Seq<RecordView> {
    entries.map_values(|e: (Vec<u8>, Json)| dep_row(dir, declared_by, kind, e, reqs))
}

/// The row the root package itself yields: evaluated against the literal
/// requirement set.
pub open spec fn root_row(
    dir: Seq<u8>,
    name: Seq<u8>,
    version: Seq<u8>,
    reqs: Seq<(Seq<u8>, Seq<u8>)>,
) -> RecordView {
    RecordView {
        package: name,
        version: version,
        location: dir,
        match_package: req_name_match(reqs, name),
        match_version: reqs.contains((name, version)),
        kind: DepKind::Root,
        declared_by: Seq::empty(),
    }
}

/// Every row a manifest yields: one for the root package, then one per
/// declared dependency and development dependency. A manifest without a
/// non-empty string `name` and `version` yields no rows.
pub open spec fn spec_manifest_rows(j: Json, dir: Seq<u8>, reqs: Seq<(Seq<u8>, Seq<u8>)>) -> Seq<
    RecordView,
> {
    match j {
        Json::Obj(fields) => (match (str_field(fields@, key_name()), str_field(
            fields@,
            key_version(),
        )) {
            (Some(nm), Some(vr)) => if nm.len() > 0 && vr.len() > 0 {
                seq![root_row(dir, nm, vr, reqs)] + dep_rows(
                    dir,
                    nm + seq![AT] + vr,
                    DepKind::Direct,
                    section_entries(j, key_dependencies()),
                    reqs,
                ) + dep_rows(
                    dir,
                    nm + seq![AT] + vr,
                    DepKind::Dev,
                    section_entries(j, key_dev_dependencies()),
                    reqs,
                )
            } else {
                Seq::empty()
            },
            _ => Seq::empty(),
        }),
        _ => Seq::empty(),
    }
}

/// The found-list entry a row yields: one entry when both flags hold.
pub open spec fn row_found(r: RecordView) -> Seq<Seq<u8>> {
    if r.match_package && r.match_version {
        seq![spec_found_entry(r.location, r.package, r.version)]
    } else {
        Seq::empty()
    }
}

/// The found-list entries of a row sequence, in row order.
pub open spec fn found_of_rows(rows: Seq<RecordView>) -> Seq<Seq<u8>>
    decreases rows.len(),
{
    if rows.len() == 0 {
        Seq::empty()
    } else {
        row_found(rows[0]) + found_of_rows(rows.drop_first())
    }
}

/// Appending one row appends its found-list contribution.
pub proof fn lemma_found_push(rows: Seq<RecordView>, r: RecordView)
    ensures
        found_of_rows(rows.push(r)) == found_of_rows(rows) + row_found(r),
    decreases rows.len(),
{
    if rows.len() == 0 {
        assert(rows.push(r).drop_first() =~= Seq::<RecordView>::empty());
        assert(found_of_rows(Seq::<RecordView>::empty()) =~= Seq::<Seq<u8>>::empty());
        assert(found_of_rows(rows.push(r)) =~= row_found(r) + Seq::<Seq<u8>>::empty());
        assert(found_of_rows(rows.push(r)) =~= row_found(r));
        assert(found_of_rows(rows) + row_found(r) =~= row_found(r));
    } else {
        lemma_found_push(rows.drop_first(), r);
        assert(rows.push(r).drop_first() =~= rows.drop_first().push(r));
        assert(found_of_rows(rows.push(r)) =~= found_of_rows(rows) + row_found(r));
    }
}

/// Pushes one row, and its found-list entry when both flags hold.
fn push_row(rows: &mut Vec<MatchRecord>, found: &mut Vec<Vec<u8>>, row: MatchRecord)
    requires
        views_of(old(found)@) == found_of_rows(record_views(old(rows)@)),
    ensures
        record_views(final(rows)@) == record_views(old(rows)@).push(row@),
        views_of(final(found)@) == found_of_rows(record_views(final(rows)@)),
{
    proof {
        lemma_found_push(record_views(rows@), row@);
        assert(record_views(rows@.push(row)) =~= record_views(rows@).push(row@));
    }
    if row.match_package && row.match_version {
        let entry = found_entry(&row.location, &row.package, &row.version);
        proof {
            assert(row_found(row@) =~= seq![entry@]);
            assert(views_of(found@.push(entry)) =~= views_of(found@).push(entry@));
            assert(found_of_rows(record_views(rows@).push(row@)) =~= views_of(found@).push(
                entry@,
            ));
        }
        found.push(entry);
    } else {
        proof {
            assert(row_found(row@) =~= Seq::<Seq<u8>>::empty());
            assert(found_of_rows(record_views(rows@).push(row@)) =~= views_of(found@));
        }
    }
    rows.push(row);
}

/// Pushes the rows of one dependency section.
#[verifier::loop_isolation(false)]
fn push_dep_rows(
    rows: &mut Vec<MatchRecord>,
    found: &mut Vec<Vec<u8>>,
    entries: &Vec<(Vec<u8>, Json)>,
    dir: &Vec<u8>,
    declared_by: &Vec<u8>,
    kind: DepKind,
    reqs: &Vec<Requirement>,
)
    requires
        views_of(old(found)@) == found_of_rows(record_views(old(rows)@)),
    ensures
        record_views(final(rows)@) == record_views(old(rows)@) + dep_rows(
            dir@,
            declared_by@,
            kind,
            entries@,
            req_views(reqs@),
        ),
        views_of(final(found)@) == found_of_rows(record_views(final(rows)@)),
{
    let ghost target = dep_rows(dir@, declared_by@, kind, entries@, req_views(reqs@));
    let mut k: usize = 0;
    proof {
        assert(record_views(rows@) =~= record_views(old(rows)@) + target.take(0));
    }
    while k < entries.len()
        invariant
            0 <= k <= entries.len(),
            record_views(rows@) =~= record_views(old(rows)@) + target.take(k as int),
            views_of(found@) == found_of_rows(record_views(rows@)),
        decreases entries.len() - k,
    {
        let raw = match &entries[k].1 {
            Json::Str(s) => clone_bytes(s),
            _ => Vec::new(),
        };
        proof {
            assert(raw@ =~= (match entries@[k as int].1 {
                Json::Str(s) => s@,
                _ => Seq::<u8>::empty(),
            }));
        }
        let clean = strip_mark(&raw);
        let package = clone_bytes(&entries[k].0);
        let mp = req_name_match_exec(reqs, &package);
        let mv = req_satisfied_exec(reqs, &package, &clean);
        let row = MatchRecord {
            package,
            version: clean,
            location: clone_bytes(dir),
            match_package: mp,
            match_version: mv,
            kind,
            declared_by: clone_bytes(declared_by),
        };
        proof {
            assert(target[k as int] == dep_row(
                dir@,
                declared_by@,
                kind,
                entries@[k as int],
                req_views(reqs@),
            ));
            assert(row@ =~= target[k as int]);
            assert(record_views(rows@).push(row@) =~= record_views(old(rows)@) + target.take(
                k + 1 as int,
            ));
        }
        push_row(rows, found, row);
        k = k + 1;
    }
    proof {
        assert(target.take(entries.len() as int) =~= target);
    }
}

/// Walks an optional manifest into its report rows and found-list entries.
pub fn manifest_rows(pkg_json: Option<&Json>, dir: &Vec<u8>, reqs: &Vec<Requirement>) -> (r: (
    Vec<MatchRecord>,
    Vec<Vec<u8>>,
))
    ensures
        record_views(r.0@) == (match pkg_json {
            Some(j) => spec_manifest_rows(*j, dir@, req_views(reqs@)),
            None => Seq::<RecordView>::empty(),
        }),
        views_of(r.1@) == found_of_rows(record_views(r.0@)),
{
    let mut rows: Vec<MatchRecord> = Vec::new();
    let mut found: Vec<Vec<u8>> = Vec::new();
    proof {
        assert(record_views(rows@) =~= Seq::<RecordView>::empty());
        assert(views_of(found@) =~= Seq::<Seq<u8>>::empty());
    }
    let j = match pkg_json {
        Some(j) => j,
        None => {
            return (rows, found);
        },
    };
    let fields = match j {
        Json::Obj(fields) => fields,
        _ => {
            return (rows, found);
        },
    };
    let nkey = key_name_vec();
    let name = match json_get(fields, &nkey) {
        Some(Json::Str(s)) => clone_bytes(s),
        _ => {
            return (rows, found);
        },
    };
    let vkey = key_version_vec();
    let version = match json_get(fields, &vkey) {
        Some(Json::Str(s)) => clone_bytes(s),
        _ => {
            return (rows, found);
        },
    };
    if name.len() == 0 || version.len() == 0 {
        return (rows, found);
    }
    let mp = req_name_match_exec(reqs, &name);
    let mv = contains_req(reqs, &name, &version);
    let row = MatchRecord {
        package: clone_bytes(&name),
        version: clone_bytes(&version),
        location: clone_bytes(dir),
        match_package: mp,
        match_version: mv,
        kind: DepKind::Root,
        declared_by: Vec::new(),
    };
    proof {
        assert(row@ =~= root_row(dir@, name@, version@, req_views(reqs@)));
    }
    push_row(&mut rows, &mut found, row);
    let declared_by = at_join(&name, &version);
    let dkey = key_dependencies_vec();
    let empty_entries: Vec<(Vec<u8>, Json)> = Vec::new();
    match json_get(fields, &dkey) {
        Some(Json::Obj(es)) => {
            push_dep_rows(&mut rows, &mut found, es, dir, &declared_by, DepKind::Direct, reqs);
        },
        _ => {
            proof {
                assert(section_entries(*j, key_dependencies()) =~= Seq::<(Vec<u8>, Json)>::empty());
            }
            push_dep_rows(
                &mut rows,
                &mut found,
                &empty_entries,
                dir,
                &declared_by,
                DepKind::Direct,
                reqs,
            );
        },
    }
    let ekey = key_dev_dependencies_vec();
    match json_get(fields, &ekey) {
        Some(Json::Obj(es)) => {
            push_dep_rows(&mut rows, &mut found, es, dir, &declared_by, DepKind::Dev, reqs);
        },
        _ => {
            proof {
                assert(section_entries(*j, key_dev_dependencies()) =~= Seq::<
                    (Vec<u8>, Json),
                >::empty());
            }
            push_dep_rows(
                &mut rows,
                &mut found,
                &empty_entries,
                dir,
                &declared_by,
                DepKind::Dev,
                reqs,
            );
        },
    }
    proof {
        assert(record_views(rows@) =~= spec_manifest_rows(*j, dir@, req_views(reqs@)));
    }
    (rows, found)
}

} // verus!
