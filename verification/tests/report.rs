use depscan::aggregate::Aggregator;
use depscan::dirs::candidate_dirs;
use depscan::json::parse_json;
use depscan::manifest::{get_pkg_range, manifest_rows};
use depscan::record::{DepKind, MatchRecord};
use depscan::requirements::parse_requirements;
use depscan::resolve::{evaluate_requirement, process_directory, Snapshot};

fn b(s: &str) -> Vec<u8> {
    s.as_bytes().to_vec()
}

fn s(v: &[u8]) -> String {
    String::from_utf8(v.to_vec()).unwrap()
}

const MANIFEST: &str = r#"{
  "name": "app",
  "version": "1.0.0",
  "dependencies": { "left-pad": "^1.3.0" },
  "devDependencies": { "right-pad": "~2.0.0" }
}"#;

const NESTED_LOCK: &str = r#"{
  "dependencies": { "left-pad": { "version": "1.3.2" } }
}"#;

fn snapshot() -> Snapshot {
    Snapshot::new(
        None,
        Some(&b(NESTED_LOCK)),
        None,
        None,
        Some(&b(MANIFEST)),
    )
}

fn rows_equal(a: &MatchRecord, package: &str, version: &str, mp: bool, mv: bool) -> bool {
    a.package == b(package) && a.version == b(version) && a.match_package == mp
        && a.match_version == mv
}

#[test]
fn satisfied_requirement_reaches_the_found_list() {
    let (reqs, _) = parse_requirements(&b("left-pad@1.3.0\n"));
    let (rows, found) = process_directory(&snapshot(), &b("pkg/a"), &reqs, &Vec::new());
    // The declared `^1.3.0`, stripped, matches the requirement exactly.
    let hit = rows
        .iter()
        .find(|r| r.kind == DepKind::Direct && r.package == b("left-pad"))
        .expect("the declared dependency row is reported");
    assert!(hit.match_package);
    assert!(hit.match_version);
    // The lock-recorded 1.3.2 references the package for the requirement row
    // too, though it is not the exact required version.
    let req_row = rows
        .iter()
        .find(|r| r.kind == DepKind::Root && r.package == b("left-pad") && r.version == b("1.3.0"))
        .expect("the requirement row is reported");
    assert!(req_row.match_package);
    assert!(!req_row.match_version);
    assert!(found.iter().any(|e| e == &b("pkg/a:left-pad@1.3.0")));
}

#[test]
fn unsatisfied_requirement_stays_off_the_found_list() {
    let (reqs, _) = parse_requirements(&b("left-pad@2.0.0\n"));
    let (rows, found) = process_directory(&snapshot(), &b("pkg/a"), &reqs, &Vec::new());
    let hit = rows
        .iter()
        .find(|r| r.kind == DepKind::Root && r.package == b("left-pad") && r.version == b("2.0.0"))
        .expect("the requirement row is reported");
    assert!(hit.match_package);
    assert!(!hit.match_version);
    assert!(!found.iter().any(|e| s(e).contains("left-pad")
        && s(e).contains("2.0.0")));
}

#[test]
fn unreferenced_requirement_is_discarded() {
    let (reqs, _) = parse_requirements(&b("no-such-package@1.0.0\n"));
    let snap = snapshot();
    let none = evaluate_requirement(&snap, None, &b("pkg/a"), &b("no-such-package"), &b("1.0.0"));
    assert!(none.is_none());
    let (rows, _) = process_directory(&snap, &b("pkg/a"), &reqs, &Vec::new());
    assert!(!rows.iter().any(|r| r.package == b("no-such-package")));
}

#[test]
fn manifest_walk_reports_root_and_dependencies() {
    let j = parse_json(&b(MANIFEST)).unwrap();
    let (reqs, _) = parse_requirements(&b("left-pad@^1.2.0\napp@1.0.0\n"));
    let (rows, found) = manifest_rows(Some(&j), &b("pkg/a"), &reqs);
    assert_eq!(rows.len(), 3);
    assert!(rows_equal(&rows[0], "app", "1.0.0", true, true));
    assert_eq!(rows[0].kind, DepKind::Root);
    assert!(rows_equal(&rows[1], "left-pad", "1.3.0", true, true));
    assert_eq!(rows[1].kind, DepKind::Direct);
    assert_eq!(rows[1].declared_by, b("app@1.0.0"));
    assert!(rows_equal(&rows[2], "right-pad", "2.0.0", false, false));
    assert_eq!(rows[2].kind, DepKind::Dev);
    assert_eq!(found.len(), 2);
    assert_eq!(s(&found[0]), "pkg/a:app@1.0.0");
    assert_eq!(s(&found[1]), "pkg/a:left-pad@1.3.0");
}

#[test]
fn declared_range_satisfies_the_requirement_version() {
    // The declared `^1.3.0`, stripped to `1.3.0`, satisfies `^1.2.0`.
    let j = parse_json(&b(MANIFEST)).unwrap();
    let (reqs, _) = parse_requirements(&b("left-pad@^1.2.0\n"));
    let (rows, _) = manifest_rows(Some(&j), &b("d"), &reqs);
    let dep = rows.iter().find(|r| r.package == b("left-pad")).unwrap();
    assert!(dep.match_package);
    assert!(dep.match_version);
}

#[test]
fn kind_text_columns() {
    let j = parse_json(&b(MANIFEST)).unwrap();
    let (reqs, _) = parse_requirements(&b("left-pad@1.3.0\n"));
    let (rows, _) = manifest_rows(Some(&j), &b("d"), &reqs);
    assert_eq!(s(&rows[0].kind_text_vec()), "");
    assert_eq!(s(&rows[1].kind_text_vec()), "direct");
    assert_eq!(s(&rows[2].kind_text_vec()), "dev");
}

#[test]
fn manifest_without_name_yields_no_rows() {
    let j = parse_json(&b(r#"{ "version": "1.0.0" }"#)).unwrap();
    let (reqs, _) = parse_requirements(&b("a@1.0.0\n"));
    let (rows, found) = manifest_rows(Some(&j), &b("d"), &reqs);
    assert!(rows.is_empty());
    assert!(found.is_empty());
}

#[test]
fn pkg_range_prefers_dependencies_over_dev() {
    let j = parse_json(&b(MANIFEST)).unwrap();
    assert_eq!(s(&get_pkg_range(&b("left-pad"), Some(&j))), "^1.3.0");
    assert_eq!(s(&get_pkg_range(&b("right-pad"), Some(&j))), "~2.0.0");
    assert_eq!(s(&get_pkg_range(&b("absent"), Some(&j))), "");
    assert_eq!(s(&get_pkg_range(&b("left-pad"), None)), "");
}

fn record_fields(r: &MatchRecord) -> (String, String, String, bool, bool, String) {
    (
        s(&r.package),
        s(&r.version),
        s(&r.location),
        r.match_package,
        r.match_version,
        s(&r.declared_by),
    )
}

#[test]
fn aggregation_order_does_not_matter() {
    let (reqs, _) = parse_requirements(&b("left-pad@1.3.0\nright-pad@9.9.9\n"));
    let snap = snapshot();
    let (rows_a, found_a) = process_directory(&snap, &b("pkg/a"), &reqs, &Vec::new());
    let (rows_b, found_b) = process_directory(&snap, &b("pkg/b"), &reqs, &Vec::new());
    let (rows_a2, found_a2) = process_directory(&snap, &b("pkg/a"), &reqs, &Vec::new());
    let (rows_b2, found_b2) = process_directory(&snap, &b("pkg/b"), &reqs, &Vec::new());

    let mut one = Aggregator::new();
    one.merge(rows_a, found_a);
    one.merge(rows_b, found_b);
    let (sorted_one, found_one) = one.into_sorted();

    let mut two = Aggregator::new();
    two.merge(rows_b2, found_b2);
    two.merge(rows_a2, found_a2);
    let (sorted_two, found_two) = two.into_sorted();

    assert_eq!(sorted_one.len(), sorted_two.len());
    for (x, y) in sorted_one.iter().zip(sorted_two.iter()) {
        assert_eq!(record_fields(x), record_fields(y));
        assert_eq!(x.kind == DepKind::Root, y.kind == DepKind::Root);
    }
    assert_eq!(found_one, found_two);
}

#[test]
fn report_rows_come_out_sorted() {
    let (reqs, _) = parse_requirements(&b("left-pad@1.3.0\n"));
    let snap = snapshot();
    let (rows_b, found_b) = process_directory(&snap, &b("pkg/b"), &reqs, &Vec::new());
    let (rows_a, found_a) = process_directory(&snap, &b("pkg/a"), &reqs, &Vec::new());
    let mut agg = Aggregator::new();
    agg.merge(rows_b, found_b);
    agg.merge(rows_a, found_a);
    let (rows, found) = agg.into_sorted();
    let keys: Vec<(String, String, String)> = rows
        .iter()
        .map(|r| (s(&r.package), s(&r.version), s(&r.location)))
        .collect();
    let mut expected = keys.clone();
    expected.sort();
    assert_eq!(keys, expected);
    let mut found_sorted: Vec<Vec<u8>> = found.clone();
    found_sorted.sort();
    assert_eq!(found, found_sorted);
}

#[test]
fn candidate_directories_are_selected_and_sorted() {
    let paths = vec![
        b("root/b/package.json"),
        b("root/a/package.json"),
        b("root/.nx/cache/package.json"),
        b("root/a/readme.md"),
        b("root/b/package.json"),
    ];
    let dirs = candidate_dirs(&paths, &b("root"), true);
    let names: Vec<String> = dirs.iter().map(|d| s(d)).collect();
    assert_eq!(names, vec!["root", "root/a", "root/b"]);
}

#[test]
fn candidate_directories_without_root_manifest() {
    let paths = vec![b("root/a/package.json")];
    let dirs = candidate_dirs(&paths, &b("root"), false);
    let names: Vec<String> = dirs.iter().map(|d| s(d)).collect();
    assert_eq!(names, vec!["root/a"]);
}

#[test]
fn yarn_snapshot_contributes_versions() {
    let yarn = "left-pad@^1.3.0:\n  version \"1.3.2\"\n";
    let snap = Snapshot::new(Some(b(yarn)), None, None, None, None);
    let rec = evaluate_requirement(&snap, None, &b("d"), &b("left-pad"), &b("^1.3.0"))
        .expect("referenced package is reported");
    assert!(rec.match_package);
    assert!(rec.match_version);
}

#[test]
fn installed_tree_output_contributes_versions() {
    let npm = r#"{ "dependencies": { "left-pad": { "version": "1.3.2" } } }"#;
    let snap = Snapshot::new(None, None, None, None, None);
    let outputs = vec![b(npm)];
    let (reqs, _) = parse_requirements(&b("left-pad@~1.3.0\n"));
    let (rows, found) = process_directory(&snap, &b("d"), &reqs, &outputs);
    assert_eq!(rows.len(), 1);
    assert!(rows[0].match_package);
    assert!(rows[0].match_version);
    assert_eq!(s(&found[0]), "d:left-pad@~1.3.0");
}

#[test]
fn bare_manifest_path_contributes_the_empty_directory() {
    let paths = vec![b("package.json")];
    let dirs = candidate_dirs(&paths, &b("."), false);
    assert_eq!(dirs.len(), 1);
    assert_eq!(dirs[0], b(""));
}
