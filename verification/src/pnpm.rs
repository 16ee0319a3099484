//! The line-oriented lockfile extractor: two textual patterns over the raw
//! content, a path segment `/<name>/<version>` and a quoted
//! `"<name>@<version>`, their captures united.

use vstd::prelude::*;

use crate::bytes::{view_set, surround, SLASH, QUOTE, AT};
use crate::scan::{prefix_triplet_matches, scan_prefix_triplets};

verus! {

/// Every version the content asserts for `name`: triplets following
/// `/<name>/`, united with triplets following `"<name>@`.
pub open spec fn spec_pnpm_versions(s: Seq<u8>, name: Seq<u8>) -> Set<Seq<u8>> {
    prefix_triplet_matches(s, seq![SLASH] + name + seq![SLASH]).union(
        prefix_triplet_matches(s, seq![QUOTE] + name + seq![AT]),
    )
}

/// Extracts from raw lockfile text every version it asserts for `name`.
pub fn get_pnpm_versions(name: &Vec<u8>, content: &Vec<u8>) -> (r: Vec<Vec<u8>>)
    ensures
        view_set(r@) =~= spec_pnpm_versions(content@, name@),
{
    let mut out: Vec<Vec<u8>> = Vec::new();
    let pat1 = surround(SLASH, name, SLASH);
    let pat2 = surround(QUOTE, name, AT);
    proof {
        assert(view_set(out@) =~= Set::<Seq<u8>>::empty());
    }
    scan_prefix_triplets(content, &pat1, &mut out);
    scan_prefix_triplets(content, &pat2, &mut out);
    out
}

} // verus!
