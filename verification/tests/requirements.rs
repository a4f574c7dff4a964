//! Scenario tests for the requirements parser: single entries, hash
//! accumulation, constraint demotion, include flattening, and positioned
//! errors.
use monotrail_core::requirements_txt::RequirementsTxt;
use monotrail_core::requirements_txt::RequirementsTxtError;
use monotrail_core::requirements_txt::VersionOrUrl;
use monotrail_core::requirements_txt::resolve_include;

fn scratch(name: &str) -> String {
    let dir = format!("/tmp/monotrail_core_tests/{}", name);
    let _ = fs_err::remove_dir_all(&dir);
    fs_err::create_dir_all(&dir).unwrap();
    dir
}

#[test]
fn single_requirement_parses_to_one_entry() {
    let dir = scratch("single-requirement");
    let path = format!("{}/requirements.txt", dir);
    fs_err::write(&path, "numpy==1.26\n").unwrap();
    let parsed = RequirementsTxt::parse(&path).unwrap();
    assert_eq!(parsed.requirements.len(), 1);
    assert_eq!(parsed.constraints.len(), 0);
    let entry = &parsed.requirements[0];
    assert_eq!(entry.requirement.name, "numpy");
    assert_eq!(
        entry.requirement.version_or_url,
        Some(VersionOrUrl::VersionSpecifier("==1.26".to_string()))
    );
    assert_eq!(entry.hashes.len(), 0);
    assert!(!entry.editable);
    let _ = fs_err::remove_dir_all(&dir);
}

#[test]
fn hashes_accumulate_in_encounter_order() {
    let dir = scratch("hashes-order");
    let path = format!("{}/requirements.txt", dir);
    fs_err::write(&path, "numpy==1.26 --hash=sha256:abc --hash=sha256:def\n").unwrap();
    let parsed = RequirementsTxt::parse(&path).unwrap();
    assert_eq!(parsed.requirements.len(), 1);
    let entry = &parsed.requirements[0];
    assert_eq!(entry.requirement.name, "numpy");
    assert_eq!(entry.hashes, vec!["sha256:abc".to_string(), "sha256:def".to_string()]);
    let _ = fs_err::remove_dir_all(&dir);
}

#[test]
fn hash_with_whitespace_form_and_editable() {
    let dir = scratch("hash-ws-editable");
    let path = format!("{}/requirements.txt", dir);
    fs_err::write(&path, "-e flask==2.0 --hash sha256:0102\n# comment\nnumpy\n").unwrap();
    let parsed = RequirementsTxt::parse(&path).unwrap();
    assert_eq!(parsed.requirements.len(), 2);
    assert!(parsed.requirements[0].editable);
    assert_eq!(parsed.requirements[0].requirement.name, "flask");
    assert_eq!(parsed.requirements[0].hashes, vec!["sha256:0102".to_string()]);
    assert!(!parsed.requirements[1].editable);
    assert_eq!(parsed.requirements[1].requirement.name, "numpy");
    assert_eq!(parsed.requirements[1].requirement.version_or_url, None);
    let _ = fs_err::remove_dir_all(&dir);
}

#[test]
fn constraints_include_demotes_requirements() {
    let dir = scratch("constraints-demote");
    let outer = format!("{}/requirements.txt", dir);
    let inner = format!("{}/constraints.txt", dir);
    fs_err::write(&inner, "numpy==1.26 --hash=sha256:abc\n-e flask==2.0\n").unwrap();
    fs_err::write(&outer, "-c constraints.txt\npandas\n").unwrap();
    let parsed = RequirementsTxt::parse(&outer).unwrap();
    // Nothing from the constraints file reaches the requirements list, and
    // the demoted entries keep neither hashes nor editable flags.
    assert_eq!(parsed.requirements.len(), 1);
    assert_eq!(parsed.requirements[0].requirement.name, "pandas");
    assert_eq!(parsed.constraints.len(), 2);
    assert_eq!(parsed.constraints[0].name, "numpy");
    assert_eq!(parsed.constraints[1].name, "flask");
    let _ = fs_err::remove_dir_all(&dir);
}

#[test]
fn nested_constraints_stay_constraints() {
    let dir = scratch("nested-constraints");
    fs_err::create_dir_all(format!("{}/sub", dir)).unwrap();
    let outer = format!("{}/requirements.txt", dir);
    fs_err::write(format!("{}/sub/inner.txt", dir), "django==3.0\n").unwrap();
    fs_err::write(format!("{}/mid.txt", dir), "-r sub/inner.txt\nflask\n").unwrap();
    fs_err::write(&outer, "-c mid.txt\n").unwrap();
    let parsed = RequirementsTxt::parse(&outer).unwrap();
    // Even requirements reached through a nested `-r` inside a `-c` include
    // can never regain requirement status.
    assert_eq!(parsed.requirements.len(), 0);
    let names: Vec<&str> = parsed.constraints.iter().map(|r| r.name.as_str()).collect();
    assert_eq!(names, vec!["django", "flask"]);
    let _ = fs_err::remove_dir_all(&dir);
}

#[test]
fn three_level_include_chain_flattens() {
    let dir = scratch("include-chain");
    fs_err::create_dir_all(format!("{}/sub/leaf", dir)).unwrap();
    fs_err::write(format!("{}/sub/leaf/inner.txt", dir), "django==3.0\n").unwrap();
    fs_err::write(format!("{}/sub/mid.txt", dir), "flask==2.0\n-r leaf/inner.txt\n").unwrap();
    let root = format!("{}/root.txt", dir);
    fs_err::write(&root, "-r sub/mid.txt\nnumpy==1.0\n").unwrap();
    let parsed = RequirementsTxt::parse(&root).unwrap();
    // Each include resolves relative to its own file's directory, and the
    // chain flattens fully, depth first, into the top-level result.
    let names: Vec<&str> = parsed.requirements.iter().map(|e| e.requirement.name.as_str()).collect();
    assert_eq!(names, vec!["flask", "django", "numpy"]);
    assert!(parsed.constraints.is_empty());
    let _ = fs_err::remove_dir_all(&dir);
}

#[test]
fn include_resolution_is_relative_to_including_file() {
    assert_eq!(resolve_include("a/b/reqs.txt", "sub.txt"), "a/b/sub.txt");
    assert_eq!(resolve_include("reqs.txt", "sub.txt"), "sub.txt");
    assert_eq!(resolve_include("a/b/reqs.txt", "/abs/sub.txt"), "/abs/sub.txt");
}

#[test]
fn invalid_specifier_error_brackets_the_substring() {
    let dir = scratch("invalid-specifier");
    let path = format!("{}/requirements.txt", dir);
    fs_err::write(&path, "numpy[ö]==1.29\n").unwrap();
    let err = RequirementsTxt::parse(&path).unwrap_err();
    match err {
        RequirementsTxtError::Pep508 { start, end, ref file, .. } => {
            // The offset range exactly brackets the offending substring,
            // in bytes of the original buffer.
            assert_eq!(start, 0);
            assert_eq!(end, 15);
            assert_eq!(file, &path);
        },
        ref other => panic!("expected a specifier error, got {:?}", other),
    }
    match err {
        RequirementsTxtError::Pep508 { ref message, .. } => {
            // The delegated parser's own rendered error is carried along.
            assert!(
                message.contains("Expected an alphanumeric character starting the extra name"),
                "got {:?}",
                message
            );
        },
        _ => unreachable!(),
    }
    let _ = fs_err::remove_dir_all(&dir);
}

#[test]
fn environment_references_are_rejected_with_a_position() {
    let dir = scratch("env-reference");
    let path = format!("{}/requirements.txt", dir);
    fs_err::write(&path, "numpy @ https://example.invalid/${VERSION}/numpy.whl\n").unwrap();
    let err = RequirementsTxt::parse(&path).unwrap_err();
    // A specifier holding `${` is refused before the delegated parser sees
    // it: that parser would expand such references from the process
    // environment.
    assert!(matches!(err, RequirementsTxtError::Parser { location: 0, .. }), "got {:?}", err);
    let _ = fs_err::remove_dir_all(&dir);
}

#[test]
fn missing_hash_keyword_is_a_positioned_error() {
    let dir = scratch("missing-hash-keyword");
    let path = format!("{}/requirements.txt", dir);
    fs_err::write(&path, "numpy==1.26 --sha=abc\n").unwrap();
    let err = RequirementsTxt::parse(&path).unwrap_err();
    assert!(matches!(err, RequirementsTxtError::Parser { .. }));
    let _ = fs_err::remove_dir_all(&dir);
}

#[test]
fn missing_include_reports_both_files() {
    let dir = scratch("missing-include");
    let path = format!("{}/requirements.txt", dir);
    fs_err::write(&path, "-r missing.txt\n").unwrap();
    let err = RequirementsTxt::parse(&path).unwrap_err();
    match &err {
        RequirementsTxtError::Subfile { file, location, source } => {
            assert_eq!(file, &path);
            assert_eq!(*location, 2);
            assert!(matches!(**source, RequirementsTxtError::IO { .. }));
        },
        other => panic!("expected an include error, got {:?}", other),
    }
    let chain = err.chain();
    let expected = vec![
        format!("Failed to parse {} position 2 due to an error in an included file", path),
        format!(
            "failed to open file `{}/missing.txt`: No such file or directory (os error 2)",
            dir
        ),
    ];
    assert_eq!(chain, expected);
    let _ = fs_err::remove_dir_all(&dir);
}

#[test]
fn self_including_file_stops_at_the_depth_bound() {
    let dir = scratch("self-include");
    let path = format!("{}/loop.txt", dir);
    fs_err::write(&path, "-r loop.txt\n").unwrap();
    let err = RequirementsTxt::parse(&path).unwrap_err();
    // The include chain is bounded, so a self-including file fails with a
    // positioned error instead of recursing forever.
    let mut depth = 0usize;
    let mut cur = &err;
    loop {
        match cur {
            RequirementsTxtError::Subfile { source, .. } => {
                depth += 1;
                cur = source;
            },
            RequirementsTxtError::Parser { message, .. } => {
                assert!(message.contains("depth"));
                break;
            },
            other => panic!("unexpected error {:?}", other),
        }
    }
    assert!(depth >= 1);
    let _ = fs_err::remove_dir_all(&dir);
}

#[test]
fn unknown_flag_is_a_positioned_error() {
    let dir = scratch("unknown-flag");
    let path = format!("{}/requirements.txt", dir);
    fs_err::write(&path, "--index-url https://example.invalid\n").unwrap();
    let err = RequirementsTxt::parse(&path).unwrap_err();
    assert!(matches!(err, RequirementsTxtError::Parser { location: 0, .. }));
    let _ = fs_err::remove_dir_all(&dir);
}

#[test]
fn backslash_newline_continues_a_requirement() {
    let dir = scratch("continuation");
    let path = format!("{}/requirements.txt", dir);
    fs_err::write(&path, "numpy==1.26 \\\n  --hash=sha256:abc\n").unwrap();
    let parsed = RequirementsTxt::parse(&path).unwrap();
    assert_eq!(parsed.requirements.len(), 1);
    assert_eq!(parsed.requirements[0].requirement.name, "numpy");
    assert_eq!(parsed.requirements[0].hashes, vec!["sha256:abc".to_string()]);
    let _ = fs_err::remove_dir_all(&dir);
}

#[test]
fn empty_file_parses_to_an_empty_result() {
    let dir = scratch("empty-file");
    let path = format!("{}/requirements.txt", dir);
    fs_err::write(&path, "").unwrap();
    let parsed = RequirementsTxt::parse(&path).unwrap();
    assert!(parsed.requirements.is_empty());
    assert!(parsed.constraints.is_empty());
    let blank = format!("{}/blank.txt", dir);
    fs_err::write(&blank, "  \n\n# only a comment\n").unwrap();
    let parsed = RequirementsTxt::parse(&blank).unwrap();
    assert!(parsed.requirements.is_empty());
    assert!(parsed.constraints.is_empty());
    let _ = fs_err::remove_dir_all(&dir);
}
