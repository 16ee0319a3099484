//! The custom composite-key descriptor extractor: a textual pattern
//! `"name" : "<name>@<version>"` over the raw content, united with a
//! recursive walk over the parsed JSON value looking for `name` fields that
//! hold exactly `<name>@<version>`.

use vstd::prelude::*;

use crate::bytes::{
    matches_at, matches_at_exec, ws_run_end, skip_ws, view_set, lemma_view_set_push, copy_range,
    surround, find_byte, lemma_find_byte_from, QUOTE, AT, COLON,
};
use crate::json::{Json, str_field, key_name, key_name_vec, json_get, spec_parse_json, parse_json};
use crate::scan::prefix_triplet_at;
use crate::version::{triplet_end, read_triplet_at};

verus! {

/// The bytes of the quoted key `"name"`, with its quotes.
pub open spec fn name_key_literal() -> Seq<u8> {
    seq![34u8, 110u8, 97u8, 109u8, 101u8, 34u8]
}

/// Builds the quoted key `"name"`.
fn name_key_literal_vec() -> (r: Vec<u8>)
    ensures
        r@ == name_key_literal(),
{
    let v: Vec<u8> = vec![34u8, 110u8, 97u8, 109u8, 101u8, 34u8];
    proof {
        assert(v@ =~= name_key_literal());
    }
    v
}

/// The triplet that the textual pattern captures at position `p`: the key
/// `"name"`, whitespace, a colon, whitespace, then `"<name>@` and a triplet.
pub open spec fn custom_text_match_at(s: Seq<u8>, name: Seq<u8>, p: int) -> Option<Seq<u8>> {
    let c = ws_run_end(s, p + 6);
    let q = ws_run_end(s, c + 1);
    if matches_at(s, p, name_key_literal()) && 0 <= c < s.len() && s[c] == COLON {
        prefix_triplet_at(s, seq![QUOTE] + name + seq![AT], q)
    } else {
        None
    }
}

/// Every triplet the textual pattern captures anywhere in `s`.
pub open spec fn custom_text_matches(s: Seq<u8>, name: Seq<u8>) -> Set<Seq<u8>> {
    Set::new(|v: Seq<u8>| exists|p: int| custom_text_match_at(s, name, p) == Some(v))
}

/// The captures at positions below `bound`.
pub open spec fn custom_text_matches_before(s: Seq<u8>, name: Seq<u8>, bound: int) -> Set<Seq<u8>> {
    Set::new(|v: Seq<u8>| exists|p: int| p < bound && custom_text_match_at(s, name, p) == Some(v))
}

pub proof fn lemma_custom_text_step(s: Seq<u8>, name: Seq<u8>, p: int)
    ensures
        custom_text_matches_before(s, name, p + 1) =~= (match custom_text_match_at(s, name, p) {
            Some(v) => custom_text_matches_before(s, name, p).insert(v),
            None => custom_text_matches_before(s, name, p),
        }),
{
    let before = custom_text_matches_before(s, name, p);
    assert forall|v: Seq<u8>| #[trigger] custom_text_matches_before(s, name, p + 1).contains(
        v,
    ) implies (match custom_text_match_at(s, name, p) {
        Some(w) => before.insert(w),
        None => before,
    }).contains(v) by {
        let q = choose|q: int| q < p + 1 && custom_text_match_at(s, name, q) == Some(v);
        if q < p {
            assert(before.contains(v));
        }
    }
}

pub proof fn lemma_custom_text_done(s: Seq<u8>, name: Seq<u8>)
    ensures
        custom_text_matches_before(s, name, s.len() as int) =~= custom_text_matches(s, name),
{
    assert forall|v: Seq<u8>| custom_text_matches(s, name).contains(v) implies
        custom_text_matches_before(s, name, s.len() as int).contains(v) by {
        let q = choose|q: int| custom_text_match_at(s, name, q) == Some(v);
        if q >= s.len() {
            assert(!matches_at(s, q, name_key_literal()));
            assert(false);
        }
        assert(q < s.len() && custom_text_match_at(s, name, q) == Some(v));
    }
}

/// Collects into `out` every triplet the textual pattern captures in `s`.
#[verifier::loop_isolation(false)]
fn scan_custom_text(name: &Vec<u8>, s: &Vec<u8>, out: &mut Vec<Vec<u8>>)
    ensures
        view_set(final(out)@) =~= view_set(old(out)@).union(custom_text_matches(s@, name@)),
{
    let key = name_key_literal_vec();
    let pat2 = surround(QUOTE, name, AT);
    let mut p: usize = 0;
    proof {
        assert(view_set(out@) =~= view_set(old(out)@).union(
            custom_text_matches_before(s@, name@, 0),
        ));
    }
    while p < s.len()
        invariant
            0 <= p <= s.len(),
            view_set(out@) =~= view_set(old(out)@).union(
                custom_text_matches_before(s@, name@, p as int),
            ),
        decreases s.len() - p,
    {
        proof {
            lemma_custom_text_step(s@, name@, p as int);
        }
        if matches_at_exec(s, p, &key) {
            let c = skip_ws(s, p + 6);
            if c < s.len() && s[c] == COLON {
                let q = skip_ws(s, c + 1);
                if matches_at_exec(s, q, &pat2) {
                    match read_triplet_at(s, q + pat2.len()) {
                        Some((e, _, _, _)) => {
                            let v = copy_range(s, q + pat2.len(), e);
                            proof {
                                lemma_view_set_push(out@, v);
                            }
                            out.push(v);
                        },
                        None => {},
                    }
                }
            }
        }
        p = p + 1;
    }
    proof {
        lemma_custom_text_done(s@, name@);
    }
}

/// The version of a composite `name` field value: `nm` is exactly
/// `<name>@<triplet>`, where `name` itself holds no `@`.
pub open spec fn at_version_of(nm: Seq<u8>, name: Seq<u8>) -> Option<Seq<u8>> {
    if nm.len() > name.len() && matches_at(nm, 0, name) && nm[name.len() as int] == AT
        && !name.contains(AT) && triplet_end(nm, name.len() + 1 as int) == Some(nm.len() as int) {
        Some(nm.subrange(name.len() + 1 as int, nm.len() as int))
    } else {
        None
    }
}

/// Decides [`at_version_of`] and hands the triplet out.
fn at_version_exec(nm: &Vec<u8>, name: &Vec<u8>) -> (r: Option<Vec<u8>>)
    ensures
        (match r {
            Some(v) => at_version_of(nm@, name@) == Some(v@),
            None => at_version_of(nm@, name@) is None,
        }),
{
    if nm.len() <= name.len() {
        return None;
    }
    if !matches_at_exec(nm, 0, name) {
        return None;
    }
    if nm[name.len()] != AT {
        return None;
    }
    let a = find_byte(name, AT, 0);
    if a < name.len() {
        proof {
            assert(name@.contains(AT));
        }
        return None;
    }
    proof {
        lemma_find_byte_from(name@, AT, 0);
        assert(!name@.contains(AT));
    }
    match read_triplet_at(nm, name.len() + 1) {
        Some((e, _, _, _)) => {
            if e == nm.len() {
                Some(copy_range(nm, name.len() + 1, nm.len()))
            } else {
                None
            }
        },
        None => None,
    }
}

/// The triplet an object's own composite `name` field asserts for `name`.
pub open spec fn custom_obj_head(fields: Seq<(Vec<u8>, Json)>, name: Seq<u8>) -> Set<Seq<u8>> {
    match str_field(fields, key_name()) {
        Some(nm) => (match at_version_of(nm, name) {
            Some(t) => set![t],
            None => Set::empty(),
        }),
        None => Set::empty(),
    }
}

/// Every version of `name` that composite `name` fields assert anywhere in
/// the JSON tree under `j`, at any depth, through objects and arrays.
pub open spec fn custom_tree_versions(j: Json, name: Seq<u8>) -> Set<Seq<u8>>
    decreases j,
{
    match j {
        Json::Obj(fields) => custom_obj_head(fields@, name).union(
            custom_fields_versions(fields@, name),
        ),
        Json::Arr(items) => custom_items_versions(items@, name),
        _ => Set::empty(),
    }
}

pub open spec fn custom_fields_versions(fields: Seq<(Vec<u8>, Json)>, name: Seq<u8>) -> Set<Seq<u8>>
    decreases fields, 1int,
{
    if fields.len() == 0 {
        Set::empty()
    } else {
        custom_tree_versions(fields[0].1, name).union(
            custom_fields_versions(fields.drop_first(), name),
        )
    }
}

pub open spec fn custom_items_versions(items: Seq<Json>, name: Seq<u8>) -> Set<Seq<u8>>
    decreases items, 1int,
{
    if items.len() == 0 {
        Set::empty()
    } else {
        custom_tree_versions(items[0], name).union(
            custom_items_versions(items.drop_first(), name),
        )
    }
}

/// Collects into `out` every version the JSON tree under `j` asserts.
#[verifier::loop_isolation(false)]
pub fn collect_custom_tree(j: &Json, name: &Vec<u8>, out: &mut Vec<Vec<u8>>)
    ensures
        view_set(final(out)@) =~= view_set(old(out)@).union(custom_tree_versions(*j, name@)),
    decreases *j,
{
    match j {
        Json::Obj(fields) => {
            let nkey = key_name_vec();
            match json_get(fields, &nkey) {
                Some(Json::Str(nm)) => {
                    match at_version_exec(nm, name) {
                        Some(v) => {
                            proof {
                                lemma_view_set_push(out@, v);
                            }
                            out.push(v);
                        },
                        None => {},
                    }
                },
                _ => {},
            }
            let ghost mid = out@;
            let mut k: usize = 0;
            proof {
                assert(view_set(mid) =~= view_set(old(out)@).union(
                    custom_obj_head(fields@, name@),
                ));
                assert(fields@.skip(0) =~= fields@);
            }
            while k < fields.len()
                invariant
                    0 <= k <= fields.len(),
                    view_set(out@).union(custom_fields_versions(fields@.skip(k as int), name@))
                        =~= view_set(old(out)@).union(custom_tree_versions(*j, name@)),
                decreases fields.len() - k,
            {
                let ghost rest = fields@.skip(k as int);
                proof {
                    assert(rest[0] == fields@[k as int]);
                    assert(rest.drop_first() =~= fields@.skip(k + 1 as int));
                }
                collect_custom_tree(&fields[k].1, name, out);
                k = k + 1;
            }
            proof {
                assert(custom_fields_versions(fields@.skip(fields.len() as int), name@)
                    =~= Set::<Seq<u8>>::empty());
            }
        },
        Json::Arr(items) => {
            let mut k: usize = 0;
            proof {
                assert(items@.skip(0) =~= items@);
            }
            while k < items.len()
                invariant
                    0 <= k <= items.len(),
                    view_set(out@).union(custom_items_versions(items@.skip(k as int), name@))
                        =~= view_set(old(out)@).union(custom_tree_versions(*j, name@)),
                decreases items.len() - k,
            {
                let ghost rest = items@.skip(k as int);
                proof {
                    assert(rest[0] == items@[k as int]);
                    assert(rest.drop_first() =~= items@.skip(k + 1 as int));
                }
                collect_custom_tree(&items[k], name, out);
                k = k + 1;
            }
            proof {
                assert(custom_items_versions(items@.skip(items.len() as int), name@)
                    =~= Set::<Seq<u8>>::empty());
            }
        },
        _ => {},
    }
}

/// Every version a custom descriptor asserts for `name`: the textual
/// captures united with the JSON tree walk (nothing from the walk when the
/// content is not well-formed JSON).
pub open spec fn spec_custom_versions(s: Seq<u8>, name: Seq<u8>) -> Set<Seq<u8>> {
    custom_text_matches(s, name).union(
        (match spec_parse_json(s) {
            Some(j) => custom_tree_versions(j, name),
            None => Set::empty(),
        }),
    )
}

/// Extracts from a custom descriptor every version it asserts for `name`.
pub fn get_dependencies_versions(name: &Vec<u8>, content: &Vec<u8>) -> (r: Vec<Vec<u8>>)
    ensures
        view_set(r@) =~= spec_custom_versions(content@, name@),
{
    let mut out: Vec<Vec<u8>> = Vec::new();
    proof {
        assert(view_set(out@) =~= Set::<Seq<u8>>::empty());
    }
    scan_custom_text(name, content, &mut out);
    match parse_json(content) {
        Some(j) => {
            collect_custom_tree(&j, name, &mut out);
        },
        None => {},
    }
    out
}

} // verus!
