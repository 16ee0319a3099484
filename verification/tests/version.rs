use depscan::version::{parse_version, satisfies_range};

fn b(s: &str) -> Vec<u8> {
    s.as_bytes().to_vec()
}

fn sat(v: &str, r: &str) -> bool {
    satisfies_range(&b(v), &b(r))
}

#[test]
fn caret_same_major_higher_minor() {
    assert!(sat("1.4.0", "^1.2.0"));
}

#[test]
fn caret_other_major() {
    assert!(!sat("2.0.0", "^1.2.0"));
}

#[test]
fn caret_equal_minor_patch_unconstrained() {
    assert!(sat("1.2.0", "^1.2.9"));
    assert!(sat("1.2.9", "^1.2.0"));
}

#[test]
fn caret_lower_minor() {
    assert!(!sat("1.1.9", "^1.2.0"));
}

#[test]
fn tilde_higher_patch() {
    assert!(sat("1.2.5", "~1.2.3"));
}

#[test]
fn tilde_other_minor() {
    assert!(!sat("1.3.0", "~1.2.3"));
}

#[test]
fn tilde_lower_patch() {
    assert!(!sat("1.2.2", "~1.2.3"));
}

#[test]
fn exact_equal() {
    assert!(sat("1.2.3", "1.2.3"));
}

#[test]
fn exact_different_patch() {
    assert!(!sat("1.2.3", "1.2.4"));
}

#[test]
fn exact_compares_stripped_version() {
    assert!(sat("^1.2.3", "1.2.3"));
    assert!(sat("~1.2.3", "1.2.3"));
}

#[test]
fn marked_version_against_caret_range() {
    assert!(sat("^1.4.0", "^1.2.0"));
}

#[test]
fn unparsable_version_satisfies_nothing() {
    assert!(!sat("abc", "^1.2.0"));
    assert!(!sat("", "1.2.3"));
    assert!(!sat("1.2", "~1.2.3"));
}

#[test]
fn unparsable_range_is_never_satisfied() {
    assert!(!sat("1.2.3", "^x.y.z"));
    assert!(!sat("1.2.3", "~1.2"));
}

#[test]
fn parse_plain_triplet() {
    assert_eq!(parse_version(&b("1.2.3")), Some((1, 2, 3)));
}

#[test]
fn parse_ignores_trailing_suffix() {
    assert_eq!(parse_version(&b("1.2.3-beta.1")), Some((1, 2, 3)));
    assert_eq!(parse_version(&b("10.20.30+build")), Some((10, 20, 30)));
}

#[test]
fn parse_rejects_short_prefixes() {
    assert_eq!(parse_version(&b("1.2")), None);
    assert_eq!(parse_version(&b("")), None);
    assert_eq!(parse_version(&b("v1.2.3")), None);
    assert_eq!(parse_version(&b(".1.2.3")), None);
}

#[test]
fn parse_oversized_component_counts_as_zero() {
    assert_eq!(parse_version(&b("99999999999.1.2")), Some((0, 1, 2)));
    assert_eq!(parse_version(&b("2147483647.2147483648.3")), Some((2147483647, 0, 3)));
}

#[test]
fn leading_zeros_parse_numerically() {
    assert_eq!(parse_version(&b("01.02.003")), Some((1, 2, 3)));
    assert!(sat("1.2.3", "^01.2.0"));
}
