use sorla_providers::manifest::{changed_file_list, parse_manifest_version, rewrite_manifest_version};
use sorla_providers::provider_map::{
    canonical_provider_key, detect_changed_providers, find_provider, matches_any, matches_pattern,
    ProviderEntry, ProviderMap, ProviderSpec, SharedCrateSpec,
};
use sorla_providers::release::{
    bump_version, bumped_version, matrix_plan, parse_provider_matrix_args,
    parse_provider_version_args, parse_version_bump, select_matrix_providers, SemVersion,
    VersionBump, VersionCommand,
};

fn strings(items: &[&str]) -> Vec<String> {
    items.iter().map(|s| s.to_string()).collect()
}

fn test_map() -> ProviderMap {
    ProviderMap {
        providers: vec![
            ProviderEntry {
                key: "hubspot".into(),
                spec: ProviderSpec {
                    package: "provider-hubspot".into(),
                    manifest_path: "providers/provider-hubspot/Cargo.toml".into(),
                    paths: strings(&["providers/provider-hubspot/**"]),
                    depends_on: strings(&["sorla-provider-common"]),
                },
            },
            ProviderEntry {
                key: "salesforce".into(),
                spec: ProviderSpec {
                    package: "provider-salesforce".into(),
                    manifest_path: "providers/provider-salesforce/Cargo.toml".into(),
                    paths: strings(&["providers/provider-salesforce/**"]),
                    depends_on: strings(&["sorla-provider-common"]),
                },
            },
        ],
        shared_crates: vec![SharedCrateSpec {
            paths: strings(&["crates/sorla-provider-common/**"]),
            affects: strings(&["hubspot", "salesforce"]),
        }],
        rebuild_all_paths: strings(&["Cargo.lock", ".github/workflows/**"]),
    }
}

#[test]
fn provider_version_parsing_reads_explicit_package_version() {
    let parsed = parse_manifest_version(
        r#"[package]
name = "provider-hubspot"
version = "0.1.3"

[dependencies]
"#,
    )
    .expect("version should parse");

    assert_eq!(parsed, "0.1.3");
}

#[test]
fn provider_version_parsing_rejects_workspace_version() {
    let err = parse_manifest_version(
        r#"[package]
name = "provider-hubspot"
version.workspace = true
"#,
    )
    .unwrap_err();

    assert!(err.contains("explicit [package] version"));
}

#[test]
fn provider_version_parsing_ignores_dependency_versions() {
    let err = parse_manifest_version(
        r#"[package]
name = "provider-hubspot"

[dependencies]
serde = "1"
"#,
    )
    .unwrap_err();

    assert!(err.contains("explicit [package] version"));
}

#[test]
fn provider_version_parsing_trims_and_handles_crlf() {
    let parsed = parse_manifest_version("[workspace]\r\nversion = \"9.9.9\"\r\n[package]\r\n  version   =  \"0.2.0\"  \r\n").unwrap();
    assert_eq!(parsed, "0.2.0");
    assert_eq!(
        parse_manifest_version("").unwrap_err(),
        "provider package version must be an explicit [package] version"
    );
}

#[test]
fn provider_version_bumping_updates_only_manifest_version() {
    let updated = rewrite_manifest_version(
        "[package]\nname = \"provider-hubspot\"\nversion = \"0.1.3\"\n\n[dependencies]\nserde = \"1\"\n",
        "0.1.4",
    )
    .unwrap();
    assert!(updated.contains("version = \"0.1.4\""));
    assert!(updated.contains("serde = \"1\""));
    assert_eq!(
        updated,
        "[package]\nname = \"provider-hubspot\"\nversion = \"0.1.4\"\n\n[dependencies]\nserde = \"1\"\n"
    );
    assert_eq!(parse_manifest_version(&updated).unwrap(), "0.1.4");
}

#[test]
fn provider_version_bumping_reports_missing_package_version() {
    assert!(rewrite_manifest_version("[package]\nname = \"provider-hubspot\"\n", "0.1.4").is_none());
}

#[test]
fn read_lines_trims_empty_entries() {
    let lines = changed_file_list("\n providers/provider-hubspot/src/lib.rs \n\nCargo.lock\n");
    assert_eq!(lines, vec!["providers/provider-hubspot/src/lib.rs", "Cargo.lock"]);
}

#[test]
fn provider_change_selects_only_that_provider() {
    let selected = detect_changed_providers(&test_map(), &strings(&["providers/provider-hubspot/src/lib.rs"]));
    assert_eq!(selected, vec!["hubspot".to_string()]);
}

#[test]
fn shared_crate_change_selects_all_dependents() {
    let selected = detect_changed_providers(&test_map(), &strings(&["crates/sorla-provider-common/src/lib.rs"]));
    assert_eq!(selected, vec!["hubspot".to_string(), "salesforce".to_string()]);
}

#[test]
fn root_lockfile_change_selects_all_providers() {
    let selected = detect_changed_providers(&test_map(), &strings(&["Cargo.lock"]));
    assert_eq!(selected, vec!["hubspot".to_string(), "salesforce".to_string()]);
}

#[test]
fn empty_change_list_selects_all_providers() {
    let selected = detect_changed_providers(&test_map(), &vec![]);
    assert_eq!(selected, vec!["hubspot".to_string(), "salesforce".to_string()]);
}

#[test]
fn unrelated_change_selects_no_providers() {
    let selected = detect_changed_providers(&test_map(), &strings(&["docs/readme.md"]));
    assert!(selected.is_empty());
}

#[test]
fn path_matching_supports_exact_and_recursive_patterns() {
    assert!(matches_pattern("Cargo.lock", "Cargo.lock"));
    assert!(matches_pattern(".github/workflows/ci.yml", ".github/workflows/**"));
    assert!(matches_pattern(".github/workflows", ".github/workflows/**"));
    assert!(!matches_pattern(".github/actions/ci.yml", ".github/workflows/**"));
    assert!(!matches_pattern(".github/workflowsx", ".github/workflows/**"));
    assert!(matches_any("Cargo.lock", &strings(&["x", "Cargo.lock"])));
    assert!(!matches_any("Cargo.lock", &vec![]));
}

#[test]
fn canonical_provider_accepts_package_name() {
    assert_eq!(canonical_provider_key(&test_map(), "provider-salesforce").unwrap(), "salesforce");
    assert_eq!(canonical_provider_key(&test_map(), "hubspot").unwrap(), "hubspot");
    assert_eq!(canonical_provider_key(&test_map(), "provider-hubspot/Cargo").unwrap(), "hubspot");
}

#[test]
fn canonical_provider_rejects_unknown_provider() {
    let err = canonical_provider_key(&test_map(), "unknown").unwrap_err();
    assert!(err.contains("unknown provider"));
    assert_eq!(err, "unknown provider: unknown");
}

#[test]
fn find_provider_returns_the_spec_of_the_key() {
    let map = test_map();
    let spec = find_provider(&map, "provider-salesforce").unwrap();
    assert_eq!(spec.manifest_path, "providers/provider-salesforce/Cargo.toml");
    assert_eq!(find_provider(&map, "nope").unwrap_err(), "unknown provider: nope");
}

#[test]
fn workflow_matrix_generation_can_select_one_or_all() {
    let map = test_map();
    let one = select_matrix_providers(&map, "hubspot", None).unwrap();
    let all = select_matrix_providers(&map, "all", None).unwrap();

    assert_eq!(one, vec!["hubspot".to_string()]);
    assert_eq!(all, vec!["hubspot".to_string(), "salesforce".to_string()]);
    let changed = strings(&["providers/provider-salesforce/src/lib.rs"]);
    assert_eq!(select_matrix_providers(&map, "all", Some(&changed)).unwrap(), vec!["salesforce".to_string()]);
    assert_eq!(select_matrix_providers(&map, "missing", None).unwrap_err(), "unknown provider: missing");
}

#[test]
fn matrix_plan_copies_specs_and_flags_unknown_names() {
    let map = test_map();
    let plan = matrix_plan(&map, &strings(&["salesforce", "ghost"]));
    assert_eq!(plan.len(), 2);
    let first = plan[0].as_ref().unwrap();
    assert_eq!(first.provider, "salesforce");
    assert_eq!(first.package, "provider-salesforce");
    assert_eq!(first.manifest_path, "providers/provider-salesforce/Cargo.toml");
    assert_eq!(first.depends_on, vec!["sorla-provider-common".to_string()]);
    assert_eq!(plan[1].as_ref().unwrap_err(), "unknown provider selected: ghost");
}

#[test]
fn provider_version_command_validates_arguments() {
    assert!(parse_provider_version_args(&vec![]).unwrap_err().contains("usage"));
    assert!(parse_provider_version_args(&strings(&["set", "foundationdb"])).unwrap_err().contains("usage"));
    assert!(parse_provider_version_args(&strings(&["set", "foundationdb", "not-semver"]))
        .unwrap_err()
        .contains("invalid version"));
    assert!(parse_provider_version_args(&strings(&["bump", "foundationdb"])).unwrap_err().contains("usage"));
    assert!(parse_provider_version_args(&strings(&["nope"])).unwrap_err().contains("unknown provider-version"));
}

#[test]
fn provider_version_command_reads_set_bump_and_list() {
    assert_eq!(parse_provider_version_args(&strings(&["list"])).unwrap(), VersionCommand::ListVersions);
    match parse_provider_version_args(&strings(&["set", "rag-mock", "1.2.3-beta.1+build.5"])).unwrap() {
        VersionCommand::SetVersion { provider, version } => {
            assert_eq!(provider, "rag-mock");
            assert_eq!((version.major, version.minor, version.patch), (1, 2, 3));
            assert_eq!(version.pre, "beta.1");
            assert_eq!(version.build, "build.5");
            assert_eq!(version.to_text(), "1.2.3-beta.1+build.5");
        }
        other => panic!("unexpected command {other:?}"),
    }
    assert_eq!(
        parse_provider_version_args(&strings(&["bump", "rag-mock", "minor"])).unwrap(),
        VersionCommand::BumpVersion { provider: "rag-mock".into(), bump: "minor".into() }
    );
}

#[test]
fn version_bumps_follow_semver() {
    let v = || SemVersion { major: 1, minor: 2, patch: 3, pre: String::new(), build: String::new() };
    assert_eq!(bump_version(v(), VersionBump::Patch).to_text(), "1.2.4");
    assert_eq!(bump_version(v(), VersionBump::Minor).to_text(), "1.3.0");
    assert_eq!(bump_version(v(), VersionBump::Major).to_text(), "2.0.0");
    assert_eq!(bump_version(v(), VersionBump::Unchanged).to_text(), "1.2.3");
    assert_eq!(parse_version_bump("patch"), Ok(VersionBump::Patch));
    assert_eq!(
        parse_version_bump("weird").unwrap_err(),
        "version bump must be one of none, patch, minor, major"
    );
    assert_eq!(bumped_version("0.1.3", "patch").unwrap().unwrap().to_text(), "0.1.4");
    assert!(bumped_version("0.1", "patch").unwrap_err().starts_with("invalid existing version: "));
    assert_eq!(
        bumped_version("0.1.3", "sideways").unwrap_err(),
        "version bump must be one of none, patch, minor, major"
    );
    assert!(bumped_version("0.1.18446744073709551615", "patch").unwrap().is_none());
}

#[test]
fn provider_matrix_command_validates_arguments() {
    assert!(parse_provider_matrix_args(&strings(&["--provider"])).unwrap_err().contains("requires a value"));
    assert!(parse_provider_matrix_args(&strings(&["--changed-files"])).unwrap_err().contains("requires a value"));
    assert!(parse_provider_matrix_args(&strings(&["--version-bump", "weird"])).unwrap_err().contains("version bump"));
    assert!(parse_provider_matrix_args(&strings(&["--bogus"])).unwrap_err().contains("unknown provider-matrix"));
}

#[test]
fn provider_matrix_command_accepts_single_provider() {
    let one = parse_provider_matrix_args(&strings(&["--provider", "sharepoint-mock"])).unwrap();
    assert_eq!(one.provider, "sharepoint-mock");
    assert_eq!(one.changed_files, None);
    assert_eq!(one.version_bump, "none");
    let two = parse_provider_matrix_args(&strings(&[
        "--provider",
        "provider-sharepoint-mock",
        "--version-bump",
        "patch",
        "--changed-files",
        "changed.txt",
    ]))
    .unwrap();
    assert_eq!(two.provider, "provider-sharepoint-mock");
    assert_eq!(two.version_bump, "patch");
    assert_eq!(two.changed_files.as_deref(), Some("changed.txt"));
    let defaults = parse_provider_matrix_args(&vec![]).unwrap();
    assert_eq!(defaults.provider, "all");
}
