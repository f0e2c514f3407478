use check_package::repo::{Language, Package, Repo};
use check_package::tree::CargoChecker;
use check_package::version::{PackageVersion, Requirement};
use check_package::yarn::{CheckError, JsChecker};

fn v(text: &str) -> PackageVersion {
    PackageVersion::parse(text).unwrap()
}

fn entry(path: &str, version: &str) -> (String, PackageVersion) {
    (path.to_string(), v(version))
}

const TWO_FOUND: &str = "=> Found \"pkg@1.0.0\"\n=> Found \"parent#pkg@2.0.0\"\n";

#[test]
fn yarn_reports_joined_by_a_line_break_read_as_one_after_the_other() {
    let first = "info x\n=> Found \"pkg@1.0.0\"";
    let second = "=> Found \"parent#pkg@2.0.0\"\ndone";
    for sep in ["\n", "\r"] {
        let joined = format!("{first}{sep}{second}");
        let mut expected = JsChecker.find_versions(first, "pkg").unwrap();
        expected.extend(JsChecker.find_versions(second, "pkg").unwrap());
        assert_eq!(JsChecker.find_versions(&joined, "pkg").unwrap(), expected);
        assert_eq!(expected.len(), 2);
    }
}

#[test]
fn yarn_report_reads_the_same_with_carriage_returns() {
    let with_cr = TWO_FOUND.replace('\n', "\r");
    assert_eq!(
        JsChecker.find_versions(&with_cr, "pkg").unwrap(),
        JsChecker.find_versions(TWO_FOUND, "pkg").unwrap()
    );
    assert_eq!(
        JsChecker.find_versions(&with_cr, "pkg").unwrap(),
        vec![entry("pkg", "1.0.0"), entry("parent#pkg", "2.0.0")]
    );
}

#[test]
fn indented_found_lines_are_read() {
    let stdout = " \t=> Found \"pkg@1.0.0\"\n\u{3000}=> Found \"a#pkg@1.1.0\"";
    assert_eq!(
        JsChecker.find_versions(stdout, "pkg").unwrap(),
        vec![entry("pkg", "1.0.0"), entry("a#pkg", "1.1.0")]
    );
}

#[test]
fn malformed_found_lines_are_ignored() {
    let stdout = "=> Found \"pkg@1.0.0\n=> Found \"pkg@1.0.0\" extra\n=> Found \"pkg@1.0\"\n=> Found \"@1.0.0\"\n=> Found \"pkg@1.0.0.0\"\n=> Found \"p\"kg@1.0.0\"\nx => Found \"pkg@1.0.0\"";
    assert!(JsChecker.find_versions(stdout, "pkg").unwrap().is_empty());
}

#[test]
fn empty_report_has_no_entries() {
    assert!(JsChecker.find_versions("", "pkg").unwrap().is_empty());
}

#[test]
fn package_path_splits_at_the_last_at_sign() {
    let stdout = "=> Found \"@scope/pkg@1.0.0-alpha.1+build-5\"";
    assert_eq!(
        JsChecker.find_versions(stdout, "@scope/pkg").unwrap(),
        vec![entry("@scope/pkg", "1.0.0-alpha.1+build-5")]
    );
}

#[test]
fn package_with_a_hash_matches_the_whole_path_only() {
    let stdout = "=> Found \"a#b@1.0.0\"\n=> Found \"x#a#b@2.0.0\"";
    assert_eq!(
        JsChecker.find_versions(stdout, "a#b").unwrap(),
        vec![entry("a#b", "1.0.0")]
    );
    assert_eq!(
        JsChecker.find_versions(stdout, "b").unwrap(),
        vec![entry("a#b", "1.0.0"), entry("x#a#b", "2.0.0")]
    );
}

#[test]
fn first_invalid_version_is_the_error() {
    let stdout = "=> Found \"pkg@1.0.0\"\n=> Found \"pkg@01.0.0\"\n=> Found \"pkg@1.2.3-01\"";
    let err = JsChecker.find_versions(stdout, "pkg").unwrap_err();
    assert_eq!(err.text, "01.0.0");
}

fn req(text: &str) -> Requirement {
    Requirement::parse(text).unwrap()
}

#[test]
fn yarn_check_is_false_when_yarn_finds_no_match() {
    let result = JsChecker.check(
        TWO_FOUND.as_bytes().to_vec(),
        b"error We couldn't find a match!".to_vec(),
        "pkg",
        &req("^1.0"),
    );
    assert_eq!(result.unwrap(), false);
}

#[test]
fn yarn_check_answers_whether_a_found_version_matches() {
    let stdout = TWO_FOUND.as_bytes().to_vec();
    assert!(JsChecker.check(stdout.clone(), Vec::new(), "pkg", &req("^2")).unwrap());
    assert!(JsChecker.check(stdout.clone(), Vec::new(), "pkg", &req("=1.0.0")).unwrap());
    assert!(!JsChecker.check(stdout, Vec::new(), "pkg", &req(">=3.0.0")).unwrap());
}

#[test]
fn yarn_check_decodes_utf8_output() {
    let stdout = "[1/4] \u{1f914}  Why?\n=> Found \"pkg@4.0.5\"\n\u{2728}  Done".as_bytes().to_vec();
    let stderr = "warning \u{e9}t\u{e9}".as_bytes().to_vec();
    assert!(JsChecker.check(stdout, stderr, "pkg", &req("^4.0")).unwrap());
}

#[test]
fn yarn_check_rejects_output_that_is_not_utf8() {
    let bad = vec![b'a', 0xff, b'b'];
    assert!(matches!(
        JsChecker.check(bad.clone(), Vec::new(), "pkg", &req("*")),
        Err(CheckError::StdoutNotUtf8)
    ));
    assert!(matches!(
        JsChecker.check(TWO_FOUND.as_bytes().to_vec(), bad, "pkg", &req("*")),
        Err(CheckError::StderrNotUtf8)
    ));
}

#[test]
fn yarn_check_reports_an_invalid_version() {
    let result = JsChecker.check(
        b"=> Found \"pkg@1.2.3-01\"".to_vec(),
        Vec::new(),
        "pkg",
        &req("*"),
    );
    match result {
        Err(CheckError::InvalidVersion(e)) => assert_eq!(e.text, "1.2.3-01"),
        other => panic!("unexpected {:?}", other),
    }
}

#[test]
fn yarn_check_fails_when_no_line_names_the_package() {
    let result = JsChecker.check(
        b"=> Found \"other@1.0.0\"".to_vec(),
        b"some warning".to_vec(),
        "pkg",
        &req("*"),
    );
    match result {
        Err(CheckError::NoVersionsFound { stdout, stderr }) => {
            assert_eq!(stdout, "=> Found \"other@1.0.0\"");
            assert_eq!(stderr, "some warning");
        }
        other => panic!("unexpected {:?}", other),
    }
}

fn tree(text: &str) -> CargoChecker {
    CargoChecker {
        tree: text.to_string(),
    }
}

#[test]
fn cargo_outputs_joined_by_a_line_feed_read_as_one_after_the_other() {
    let first = "app v0.1.0\n\u{251c}\u{2500}\u{2500} foo v1.0.0";
    let second = "\u{2514}\u{2500}\u{2500} foo v2.0.0 (*)";
    let joined = format!("{first}\n{second}");
    let mut expected = tree(first).find_versions("foo").unwrap();
    expected.extend(tree(second).find_versions("foo").unwrap());
    assert_eq!(tree(&joined).find_versions("foo").unwrap(), expected);
    assert_eq!(expected, vec![v("1.0.0"), v("2.0.0")]);
}

#[test]
fn cargo_word_boundary_follows_unicode_word_characters() {
    assert!(tree("\u{e9}foo v1.0.0").find_versions("foo").unwrap().is_empty());
    assert!(tree("_foo v1.0.0").find_versions("foo").unwrap().is_empty());
    assert_eq!(
        tree("\u{2192}foo v1.0.0").find_versions("foo").unwrap(),
        vec![v("1.0.0")]
    );
    assert!(tree("x-foo v1.0.0").find_versions("foo").unwrap().is_empty());
    assert_eq!(
        tree("foo v2.0.0 x-foo v1.0.0").find_versions("foo").unwrap(),
        vec![v("2.0.0")]
    );
    assert_eq!(
        tree("x-foo v1.0.0\n\u{2514}\u{2500}\u{2500} foo v1.1.0").find_versions("foo").unwrap(),
        vec![v("1.1.0")]
    );
}

#[test]
fn cargo_names_after_a_hyphen_are_other_crates() {
    let checker = tree("app v0.1.0\n\u{2514}\u{2500}\u{2500} xshell v0.2.7\n    \u{2514}\u{2500}\u{2500} xshell-macros v0.2.7 (proc-macro)");
    assert!(checker.find_versions("macros").unwrap().is_empty());
    assert!(checker.find_versions("shell").unwrap().is_empty());
    assert_eq!(checker.find_versions("xshell-macros").unwrap(), vec![v("0.2.7")]);
    assert_eq!(checker.find_versions("xshell").unwrap(), vec![v("0.2.7")]);
}

#[test]
fn cargo_last_mention_on_a_line_counts() {
    assert_eq!(
        tree("foo v1.0.0 foo v2.0.0").find_versions("foo").unwrap(),
        vec![v("2.0.0")]
    );
    assert_eq!(
        tree("foo v1.0.0 (foo v2.0.0)").find_versions("foo").unwrap(),
        vec![v("1.0.0")]
    );
}

#[test]
fn cargo_version_must_end_the_line_or_meet_space_or_parenthesis() {
    assert_eq!(tree("foo v1.0.0(x)").find_versions("foo").unwrap(), vec![v("1.0.0")]);
    assert_eq!(tree("foo v1.0.0\r").find_versions("foo").unwrap(), vec![v("1.0.0")]);
    assert!(tree("foo v1.0.0/x").find_versions("foo").unwrap().is_empty());
    assert!(tree("foo v1.0").find_versions("foo").unwrap().is_empty());
    assert!(tree("foo 1.0.0").find_versions("foo").unwrap().is_empty());
}

#[test]
fn cargo_invalid_version_is_an_error() {
    let checker = tree("foo v1.0.0\nfoo v1.2.3-01\nfoo v01.0.0");
    assert_eq!(checker.find_versions("foo").unwrap_err().text, "1.2.3-01");
    assert_eq!(checker.check("foo", &req("*")).unwrap_err().text, "1.2.3-01");
}

#[test]
fn repo_queries_follow_packages_then_requirements() {
    let repo = Repo {
        folder_path: "/tmp/x".to_string(),
        language: Language::Rust,
        packages: vec![
            Package {
                name: "a".to_string(),
                versions: vec!["^1.0".to_string(), "=2.0.0".to_string()],
            },
            Package {
                name: "b".to_string(),
                versions: vec![">=3".to_string()],
            },
        ],
    };
    let queries = repo.queries();
    assert_eq!(
        queries,
        vec![
            ("a".to_string(), "^1.0".to_string()),
            ("a".to_string(), "=2.0.0".to_string()),
            ("b".to_string(), ">=3".to_string()),
        ]
    );
    assert_eq!(repo.check(&vec![true, false, true]), vec!["a@^1.0", "b@>=3"]);
    assert!(repo.check(&vec![false, false, false]).is_empty());
}

#[test]
fn versions_and_requirements_parse_as_semver() {
    let err = PackageVersion::parse("1.0").unwrap_err();
    assert_eq!(err.text, "1.0");
    assert_eq!(Requirement::parse(">=1.0 <2.0").unwrap_err().text, ">=1.0 <2.0");
    assert_eq!(v("1.2.3+b").as_str(), "1.2.3+b");
    assert_eq!(req("^1.12").as_str(), "^1.12");
    assert!(req("^1.12").matches(&v("1.12.3")));
    assert!(!req("^1.12").matches(&v("2.0.0")));
    assert!(!req("*").matches(&v("1.0.0-rc.1")));
}

fn rust_repo(packages: Vec<(&str, Vec<&str>)>) -> Repo {
    Repo {
        folder_path: "/tmp/x".to_string(),
        language: Language::Rust,
        packages: packages
            .into_iter()
            .map(|(name, versions)| Package {
                name: name.to_string(),
                versions: versions.into_iter().map(str::to_string).collect(),
            })
            .collect(),
    }
}

#[test]
fn rust_project_reports_each_requirement_that_a_listed_version_matches() {
    let checker = tree("app v0.1.0\n\u{251c}\u{2500}\u{2500} regex v1.12.3\n\u{2514}\u{2500}\u{2500} memchr v2.8.0");
    let repo = rust_repo(vec![
        ("regex", vec!["^1.12", ">=2.0.0"]),
        ("memchr", vec!["<2.8.0", "=2.8.0"]),
        ("serde", vec!["*"]),
    ]);
    assert_eq!(
        repo.check_tree(&checker).unwrap(),
        vec!["regex@^1.12", "memchr@=2.8.0"]
    );
}

#[test]
fn rust_project_stops_at_the_first_query_it_cannot_answer() {
    let checker = tree("regex v1.12.3\nbad v1.2.3-01");
    let repo = rust_repo(vec![("regex", vec!["^1.12", "not a requirement"]), ("bad", vec!["*"])]);
    assert_eq!(repo.check_tree(&checker).unwrap_err().text, "not a requirement");
    let repo = rust_repo(vec![("regex", vec!["^1.12"]), ("bad", vec!["*"]), ("x", vec!["?"])]);
    assert_eq!(repo.check_tree(&checker).unwrap_err().text, "1.2.3-01");
}

#[test]
fn every_matching_query_is_reported_once_in_order() {
    let repo = rust_repo(vec![("a", vec!["1", "2"]), ("b", vec!["3"]), ("c", vec![])]);
    assert_eq!(repo.check(&vec![false, true, true]), vec!["a@2", "b@3"]);
    assert_eq!(repo.check(&vec![true, true, true]), vec!["a@1", "a@2", "b@3"]);
}

#[test]
fn errors_carry_the_reason_that_semver_gives() {
    let e = PackageVersion::parse("1.2.3-01").unwrap_err();
    assert_eq!(
        e.cause.to_string(),
        semver::Version::parse("1.2.3-01").unwrap_err().to_string()
    );
    let e = Requirement::parse(">=1.0 <2.0").unwrap_err();
    assert_eq!(
        e.cause.to_string(),
        semver::VersionReq::parse(">=1.0 <2.0").unwrap_err().to_string()
    );
}
