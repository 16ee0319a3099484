use depscan::requirements::parse_requirements;

fn b(s: &str) -> Vec<u8> {
    s.as_bytes().to_vec()
}

#[test]
fn one_invalid_and_one_valid_line() {
    let (reqs, invalid) = parse_requirements(&b("not-a-valid-line\nleft-pad@1.3.0\n"));
    assert_eq!(reqs.len(), 1);
    assert_eq!(reqs[0].name, b("left-pad"));
    assert_eq!(reqs[0].version, b("1.3.0"));
    assert!(invalid >= 1);
}

#[test]
fn lines_are_trimmed() {
    let (reqs, _) = parse_requirements(&b("  left-pad@1.3.0 \r\n"));
    assert_eq!(reqs.len(), 1);
    assert_eq!(reqs[0].name, b("left-pad"));
    assert_eq!(reqs[0].version, b("1.3.0"));
}

#[test]
fn duplicates_collapse() {
    let (reqs, invalid) = parse_requirements(&b("a@1.0.0\nb@2.0.0\na@1.0.0\n"));
    assert_eq!(reqs.len(), 2);
    assert_eq!(reqs[0].name, b("a"));
    assert_eq!(reqs[1].name, b("b"));
    assert_eq!(invalid, 1);
}

#[test]
fn same_name_other_version_is_another_requirement() {
    let (reqs, _) = parse_requirements(&b("a@1.0.0\na@2.0.0\n"));
    assert_eq!(reqs.len(), 2);
}

#[test]
fn two_at_signs_make_a_line_invalid() {
    let (reqs, invalid) = parse_requirements(&b("a@b@c\n"));
    assert_eq!(reqs.len(), 0);
    assert_eq!(invalid, 2);
}

#[test]
fn empty_content_loads_nothing() {
    let (reqs, invalid) = parse_requirements(&b(""));
    assert_eq!(reqs.len(), 0);
    assert_eq!(invalid, 1);
}
