//! The recursive walk over nested `dependencies` objects, shared by the
//! package-lock extractor and the installed-tree extractor, and the flat
//! `packages` map lookup of the package-lock format.

use vstd::prelude::*;

use crate::bytes::{view_set, lemma_view_set_push, bytes_eq, copy_range};
use crate::json::{
    Json, obj_lookup, str_field, key_dependencies, key_dependencies_vec, key_version,
    key_version_vec, key_packages_vec, key_packages, node_modules_prefix, node_modules_prefix_vec,
    obj_find, json_get, spec_parse_json, parse_json,
};

verus! {

/// The version the object `j` asserts through a string `version` field.
pub open spec fn version_field_set(j: Json) -> Set<Seq<u8>> {
    match j {
        Json::Obj(fields) => match str_field(fields@, key_version()) {
            Some(v) => set![v],
            None => Set::empty(),
        },
        _ => Set::empty(),
    }
}

/// Versions of `name` recorded in the `dependencies` tree under `j`: every
/// `dependencies` object at any depth whose entry for `name` holds a string
/// `version` field contributes that string.
pub open spec fn deps_tree_versions(j: Json, name: Seq<u8>) -> Set<Seq<u8>>
    decreases j,
{
    match j {
        Json::Obj(fields) => deps_fields_versions(fields@, name),
        _ => Set::empty(),
    }
}

/// Scans an object's fields for its first `dependencies` field and collects
/// from that field's entries.
pub open spec fn deps_fields_versions(fields: Seq<(Vec<u8>, Json)>, name: Seq<u8>) -> Set<Seq<u8>>
    decreases fields, 1int,
{
    if fields.len() == 0 {
        Set::empty()
    } else if fields[0].0@ == key_dependencies() {
        deps_entries_versions(fields[0].1, name)
    } else {
        deps_fields_versions(fields.drop_first(), name)
    }
}

/// Versions of `name` among the entries of one `dependencies` object: the
/// entry named `name` contributes its `version` field, and every entry is
/// descended into in turn.
pub open spec fn deps_entries_versions(d: Json, name: Seq<u8>) -> Set<Seq<u8>>
    decreases d,
{
    match d {
        Json::Obj(entries) => deps_entry_list_versions(entries@, name),
        _ => Set::empty(),
    }
}

pub open spec fn deps_entry_list_versions(entries: Seq<(Vec<u8>, Json)>, name: Seq<u8>) -> Set<
    Seq<u8>,
>
    decreases entries, 1int,
{
    if entries.len() == 0 {
        Set::empty()
    } else {
        let head: Set<Seq<u8>> = if entries[0].0@ == name {
            version_field_set(entries[0].1)
        } else {
            Set::empty()
        };
        head.union(deps_tree_versions(entries[0].1, name)).union(
            deps_entry_list_versions(entries.drop_first(), name),
        )
    }
}

/// Pushes the version of `j`'s string `version` field, when there is one.
#[verifier::loop_isolation(false)]
fn push_version_field(j: &Json, out: &mut Vec<Vec<u8>>)
    ensures
        view_set(final(out)@) =~= view_set(old(out)@).union(version_field_set(*j)),
{
    match j {
        Json::Obj(fields) => {
            let key = key_version_vec();
            match obj_find(fields, &key) {
                Some(i) => {
                    match &fields[i].1 {
                        Json::Str(s) => {
                            let v = copy_range(s, 0, s.len());
                            proof {
                                assert(v@ =~= s@);
                                lemma_view_set_push(out@, v);
                            }
                            out.push(v);
                        },
                        _ => {},
                    }
                },
                None => {},
            }
        },
        _ => {},
    }
}

/// Collects into `out` every version of `name` that the `dependencies` tree
/// under `j` records.
#[verifier::loop_isolation(false)]
pub fn collect_deps_tree(j: &Json, name: &Vec<u8>, out: &mut Vec<Vec<u8>>)
    ensures
        view_set(final(out)@) =~= view_set(old(out)@).union(deps_tree_versions(*j, name@)),
    decreases *j,
{
    match j {
        Json::Obj(fields) => {
            let key = key_dependencies_vec();
            let mut i: usize = 0;
            proof {
                assert(fields@.skip(0) =~= fields@);
            }
            while i < fields.len()
                invariant
                    0 <= i <= fields.len(),
                    out@ == old(out)@,
                    deps_fields_versions(fields@, name@) == deps_fields_versions(
                        fields@.skip(i as int),
                        name@,
                    ),
                decreases fields.len() - i,
            {
                let ghost rest = fields@.skip(i as int);
                proof {
                    assert(rest[0] == fields@[i as int]);
                    assert(rest.drop_first() =~= fields@.skip(i + 1 as int));
                }
                if bytes_eq(&fields[i].0, &key) {
                    proof {
                        assert(deps_tree_versions(*j, name@) == deps_fields_versions(
                            fields@,
                            name@,
                        ));
                        assert(rest[0].0@ == key_dependencies());
                        assert(deps_fields_versions(rest, name@) == deps_entries_versions(
                            fields@[i as int].1,
                            name@,
                        ));
                    }
                    collect_deps_entries(&fields[i].1, name, out);
                    return ;
                }
                i = i + 1;
            }
            proof {
                assert(deps_fields_versions(fields@.skip(fields.len() as int), name@)
                    == Set::<Seq<u8>>::empty());
                assert(deps_tree_versions(*j, name@) == Set::<Seq<u8>>::empty());
            }
        },
        _ => {},
    }
}

/// Collects into `out` from the entries of one `dependencies` object.
#[verifier::loop_isolation(false)]
pub fn collect_deps_entries(d: &Json, name: &Vec<u8>, out: &mut Vec<Vec<u8>>)
    ensures
        view_set(final(out)@) =~= view_set(old(out)@).union(deps_entries_versions(*d, name@)),
    decreases *d,
{
    match d {
        Json::Obj(entries) => {
            let mut k: usize = 0;
            proof {
                assert(entries@.skip(0) =~= entries@);
            }
            while k < entries.len()
                invariant
                    0 <= k <= entries.len(),
                    view_set(out@).union(
                        deps_entry_list_versions(entries@.skip(k as int), name@),
                    ) =~= view_set(old(out)@).union(deps_entry_list_versions(entries@, name@)),
                decreases entries.len() - k,
            {
                let ghost rest = entries@.skip(k as int);
                proof {
                    assert(rest[0] == entries@[k as int]);
                    assert(rest.drop_first() =~= entries@.skip(k + 1 as int));
                }
                if bytes_eq(&entries[k].0, name) {
                    push_version_field(&entries[k].1, out);
                }
                collect_deps_tree(&entries[k].1, name, out);
                k = k + 1;
            }
        },
        _ => {},
    }
}

/// The version that the flat `packages` map of `j` records for `name` under
/// the key `node_modules/<name>`.
pub open spec fn packages_map_versions(j: Json, name: Seq<u8>) -> Set<Seq<u8>> {
    match j {
        Json::Obj(fields) => match obj_lookup(fields@, key_packages()) {
            Some(Json::Obj(pkgs)) => match obj_lookup(pkgs@, node_modules_prefix() + name) {
                Some(e) => version_field_set(e),
                None => Set::empty(),
            },
            _ => Set::empty(),
        },
        _ => Set::empty(),
    }
}

/// Every version that a package-lock document records for `name`: the
/// nested `dependencies` tree united with the flat `packages` map entry.
pub open spec fn spec_package_lock_versions(j: Json, name: Seq<u8>) -> Set<Seq<u8>> {
    deps_tree_versions(j, name).union(packages_map_versions(j, name))
}

/// Extracts from a parsed package-lock document every version it records
/// for the package `name`.
pub fn get_package_lock_versions(name: &Vec<u8>, package_lock_json: &Json) -> (r: Vec<Vec<u8>>)
    ensures
        view_set(r@) =~= spec_package_lock_versions(*package_lock_json, name@),
{
    let mut out: Vec<Vec<u8>> = Vec::new();
    proof {
        assert(view_set(out@) =~= Set::<Seq<u8>>::empty());
    }
    collect_deps_tree(package_lock_json, name, &mut out);
    match package_lock_json {
        Json::Obj(fields) => {
            let pkey = key_packages_vec();
            match json_get(fields, &pkey) {
                Some(Json::Obj(pkgs)) => {
                    let prefix = node_modules_prefix_vec();
                    let full = crate::bytes::concat_bytes(&prefix, name);
                    match obj_find(pkgs, &full) {
                        Some(i) => {
                            push_version_field(&pkgs[i].1, &mut out);
                        },
                        None => {},
                    }
                },
                _ => {},
            }
        },
        _ => {},
    }
    out
}

/// Every version of `name` that the installed-tree query output `s`
/// records: its JSON document's `dependencies` tree, and nothing when the
/// output is not well-formed JSON.
pub open spec fn spec_installed_tree_versions(s: Seq<u8>, name: Seq<u8>) -> Set<Seq<u8>> {
    match spec_parse_json(s) {
        Some(j) => deps_tree_versions(j, name),
        None => Set::empty(),
    }
}

/// Extracts from the raw bytes of an installed-tree query output every
/// version it records for the package `name`.
pub fn get_npm_versions(name: &Vec<u8>, output: &Vec<u8>) -> (r: Vec<Vec<u8>>)
    ensures
        view_set(r@) =~= spec_installed_tree_versions(output@, name@),
{
    let mut out: Vec<Vec<u8>> = Vec::new();
    proof {
        assert(view_set(out@) =~= Set::<Seq<u8>>::empty());
    }
    match parse_json(output) {
        Some(j) => {
            collect_deps_tree(&j, name, &mut out);
        },
        None => {},
    }
    out
}

} // verus!
