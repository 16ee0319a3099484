use depscan::custom::get_dependencies_versions;
use depscan::json::parse_json;
use depscan::lockwalk::{get_npm_versions, get_package_lock_versions};
use depscan::pnpm::get_pnpm_versions;
use depscan::yarn::get_yarn_versions;

fn b(s: &str) -> Vec<u8> {
    s.as_bytes().to_vec()
}

fn as_sorted_strings(vs: Vec<Vec<u8>>) -> Vec<String> {
    let mut out: Vec<String> = vs
        .into_iter()
        .map(|v| String::from_utf8(v).unwrap())
        .collect();
    out.sort();
    out.dedup();
    out
}

const YARN_CONTENT: &str = "\
left-pad@^1.3.0:\n  version \"1.3.2\"\n  resolved \"https://example.test\"\n\
\n\
right-pad@~2.0.0:\n  version \"2.0.1\"\n";

#[test]
fn yarn_record_versions() {
    let vs = get_yarn_versions(&b("left-pad"), &b(YARN_CONTENT));
    assert_eq!(as_sorted_strings(vs), vec!["1.3.2".to_string()]);
    let vs = get_yarn_versions(&b("right-pad"), &b(YARN_CONTENT));
    assert_eq!(as_sorted_strings(vs), vec!["2.0.1".to_string()]);
}

#[test]
fn yarn_unknown_package_yields_nothing() {
    let vs = get_yarn_versions(&b("top-pad"), &b(YARN_CONTENT));
    assert!(vs.is_empty());
}

#[test]
fn yarn_extraction_is_repeatable() {
    let first = get_yarn_versions(&b("left-pad"), &b(YARN_CONTENT));
    let second = get_yarn_versions(&b("left-pad"), &b(YARN_CONTENT));
    assert_eq!(first, second);
}

#[test]
fn pnpm_path_and_quoted_patterns() {
    let content = "packages:\n  /left-pad/1.3.2:\n    dep: \"left-pad@1.3.0\"\n";
    let vs = get_pnpm_versions(&b("left-pad"), &b(content));
    assert_eq!(
        as_sorted_strings(vs),
        vec!["1.3.0".to_string(), "1.3.2".to_string()]
    );
}

#[test]
fn pnpm_extraction_is_repeatable() {
    let content = "/a/1.0.0 \"a@2.0.0\"";
    let first = get_pnpm_versions(&b("a"), &b(content));
    let second = get_pnpm_versions(&b("a"), &b(content));
    assert_eq!(first, second);
}

const PLOCK: &str = r#"{
  "dependencies": {
    "left-pad": {
      "version": "1.3.2",
      "dependencies": {
        "inner": { "version": "0.1.0" },
        "left-pad": { "version": "1.0.0" }
      }
    }
  },
  "packages": {
    "node_modules/left-pad": { "version": "1.3.9" }
  }
}"#;

#[test]
fn package_lock_unites_tree_and_packages_map() {
    let j = parse_json(&b(PLOCK)).expect("well-formed lock document");
    let vs = get_package_lock_versions(&b("left-pad"), &j);
    assert_eq!(
        as_sorted_strings(vs),
        vec!["1.0.0".to_string(), "1.3.2".to_string(), "1.3.9".to_string()]
    );
    let vs = get_package_lock_versions(&b("inner"), &j);
    assert_eq!(as_sorted_strings(vs), vec!["0.1.0".to_string()]);
}

#[test]
fn package_lock_extraction_is_repeatable() {
    let j = parse_json(&b(PLOCK)).expect("well-formed lock document");
    let first = get_package_lock_versions(&b("left-pad"), &j);
    let second = get_package_lock_versions(&b("left-pad"), &j);
    assert_eq!(first, second);
}

#[test]
fn malformed_json_parses_to_nothing() {
    assert!(parse_json(&b("{ not json")).is_none());
    assert!(parse_json(&b("")).is_none());
}

const CUSTOM: &str = r#"{
  "modules": [
    { "name": "left-pad@1.3.2", "license": "MIT" },
    { "name": "right-pad@2.0.1" },
    { "name": "left-pad@not-a-version" }
  ]
}"#;

#[test]
fn custom_descriptor_walk_and_text_pattern() {
    let vs = get_dependencies_versions(&b("left-pad"), &b(CUSTOM));
    assert_eq!(as_sorted_strings(vs), vec!["1.3.2".to_string()]);
    let vs = get_dependencies_versions(&b("right-pad"), &b(CUSTOM));
    assert_eq!(as_sorted_strings(vs), vec!["2.0.1".to_string()]);
}

#[test]
fn custom_text_pattern_survives_malformed_json() {
    let content = "\"name\": \"left-pad@1.3.2\" and the rest is not JSON";
    let vs = get_dependencies_versions(&b("left-pad"), &b(content));
    assert_eq!(as_sorted_strings(vs), vec!["1.3.2".to_string()]);
}

#[test]
fn custom_extraction_is_repeatable() {
    let first = get_dependencies_versions(&b("left-pad"), &b(CUSTOM));
    let second = get_dependencies_versions(&b("left-pad"), &b(CUSTOM));
    assert_eq!(first, second);
}

const NPM_OUTPUT: &str = r#"{
  "name": "app",
  "dependencies": {
    "left-pad": {
      "version": "1.3.2",
      "dependencies": {
        "left-pad": { "version": "0.9.0" }
      }
    }
  }
}"#;

#[test]
fn installed_tree_versions_at_any_depth() {
    let vs = get_npm_versions(&b("left-pad"), &b(NPM_OUTPUT));
    assert_eq!(
        as_sorted_strings(vs),
        vec!["0.9.0".to_string(), "1.3.2".to_string()]
    );
}

#[test]
fn installed_tree_tolerates_malformed_output() {
    let vs = get_npm_versions(&b("left-pad"), &b("npm ERR! something broke"));
    assert!(vs.is_empty());
}

#[test]
fn installed_tree_extraction_is_repeatable() {
    let first = get_npm_versions(&b("left-pad"), &b(NPM_OUTPUT));
    let second = get_npm_versions(&b("left-pad"), &b(NPM_OUTPUT));
    assert_eq!(first, second);
}
