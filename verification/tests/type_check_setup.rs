use carrick::cloud_storage::CloudRepoData;
use carrick::packages::{Dependency, PackageJson, Packages};
use carrick::type_check::{
    after_failed_install, after_failed_install_blaming, bare_name, corpus_internal_package_names,
    names_in_specs, npm_unresolvable_packages, pin_toolchain, stderr_tail,
    synthetic_type_check_dependencies, unresolvable_manifest_keys, InstallState, InstallStep,
};

fn deps(list: &[(&str, &str)]) -> Vec<Dependency> {
    list.iter()
        .map(|(name, version)| Dependency { name: name.to_string(), version: version.to_string() })
        .collect()
}

fn manifest(name: &str, dependencies: &[(&str, &str)], resolutions: &[(&str, &str)]) -> PackageJson {
    PackageJson {
        name: Some(name.to_string()),
        version: Some("1.0.0".to_string()),
        dependencies: deps(dependencies),
        dev_dependencies: vec![],
        peer_dependencies: vec![],
        resolutions: deps(resolutions),
    }
}

fn packages(manifests: Vec<PackageJson>) -> Packages {
    let mut packages = Packages::empty();
    for m in &manifests {
        packages.source_paths.push(format!("{}/package.json", m.name.as_ref().unwrap()));
        for d in &m.dependencies {
            packages.merged_dependencies.push(d.clone());
        }
    }
    packages.package_jsons = manifests;
    packages
}

fn get<'a>(found: &'a Vec<Dependency>, name: &str) -> Option<&'a str> {
    found.iter().find(|d| d.name == name).map(|d| d.version.as_str())
}

#[test]
fn synthetic_type_check_deps_exclude_workspace_internal_packages() {
    // Installing a workspace package from the registry fails and aborts the
    // whole type pass: any name that a scanned manifest declares itself is
    // left out, while real dependencies from both sides stay.
    let packages = packages(vec![
        manifest("@meridian/contracts", &[("zod", "3.23.0")], &[]),
        manifest("catalog-api", &[("@meridian/contracts", "0.1.0"), ("koa", "2.15.3")], &[]),
    ]);
    let found = synthetic_type_check_dependencies(&packages, &vec![]);
    assert!(
        get(&found, "@meridian/contracts").is_none(),
        "workspace-internal package must not be npm-installed"
    );
    assert_eq!(get(&found, "koa"), Some("2.15.3"));
    assert_eq!(get(&found, "zod"), Some("3.23.0"));
}

#[test]
fn synthetic_type_check_deps_exclude_non_registry_version_protocols() {
    let packages = packages(vec![manifest(
        "app",
        &[
            (
                "@metamask/controller-utils",
                "patch:@metamask/controller-utils@npm%3A11.1.0#~/.yarn/patches/x.patch",
            ),
            ("shared-lib", "workspace:^1.2.3"),
            ("linked", "portal:../linked-1.0"),
            ("local", "file:../local-2.0"),
            ("pinned", "github:user/repo#v1.2.3"),
            ("tarball", "https://example.com/pkg-1.2.3.tgz"),
            ("sshgit", "ssh://git@example.com/org/repo.git#semver:1.2.3"),
            ("aliased", "npm:real-pkg@2.1.0"),
            ("koa", "2.15.3"),
        ],
        &[],
    )]);
    let found = synthetic_type_check_dependencies(&packages, &vec![]);
    for dropped in [
        "@metamask/controller-utils",
        "shared-lib",
        "linked",
        "local",
        "pinned",
        "tarball",
        "sshgit",
    ] {
        assert!(
            get(&found, dropped).is_none(),
            "non-registry protocol spec for {dropped} must be dropped, got {:?}",
            get(&found, dropped)
        );
    }
    assert_eq!(
        get(&found, "aliased"),
        Some("npm:real-pkg@2.1.0"),
        "npm: aliases are registry-resolvable and must survive"
    );
    assert_eq!(get(&found, "koa"), Some("2.15.3"));
}

#[test]
fn synthetic_type_check_deps_apply_resolutions_npm_aliases() {
    // Resolution keys may be `name@range` selectors (scoped names keep their
    // leading @) or plain names.
    let packages = packages(vec![manifest(
        "app",
        &[
            ("@types/readable-stream-2", "^2.3.15"),
            ("readable-stream-3", "^3.6.2"),
            ("koa", "2.15.3"),
            ("sneaky", "^1.0.0"),
        ],
        &[
            ("@types/readable-stream-2@^2.3.15", "npm:@types/readable-stream@^2.3.15"),
            ("readable-stream-3", "npm:readable-stream@^3.6.2"),
            ("koa", "2.15.3"),
            // An alias whose target is itself a non-registry spec is not
            // applied: it would smuggle a git spec past the filter.
            ("sneaky", "npm:pkg@github:user/repo"),
        ],
    )]);
    let found = synthetic_type_check_dependencies(&packages, &vec![]);
    assert_eq!(
        get(&found, "@types/readable-stream-2"),
        Some("npm:@types/readable-stream@^2.3.15"),
        "selector-keyed resolutions alias must replace the bare range"
    );
    assert_eq!(
        get(&found, "readable-stream-3"),
        Some("npm:readable-stream@^3.6.2"),
        "plain-keyed resolutions alias must replace the bare range"
    );
    assert_eq!(
        get(&found, "koa"),
        Some("2.15.3"),
        "non-alias resolutions (plain version pins) must not remap"
    );
    assert!(
        !found.iter().any(|d| d.version.contains("github:")),
        "an npm: alias with a non-registry target must not be applied, got {found:?}"
    );
}

#[test]
fn synthetic_type_check_deps_exclude_tree_walked_internal_names() {
    // Only the service's own manifest is loaded; a workspace member never is.
    let mut packages = packages(vec![manifest(
        "catalog-api",
        &[("@meridian/contracts", "0.1.0"), ("koa", "2.15.3")],
        &[],
    )]);
    packages.internal_names.push("@meridian/contracts".to_string());
    let found = synthetic_type_check_dependencies(&packages, &vec![]);
    assert!(
        get(&found, "@meridian/contracts").is_none(),
        "tree-walked internal name must not be npm-installed"
    );
    assert_eq!(get(&found, "koa"), Some("2.15.3"));
}

#[test]
fn synthetic_type_check_deps_exclude_corpus_repo_packages() {
    // The package is another service of the scanned repositories: its types
    // arrive with that service's bundle.
    let packages = packages(vec![manifest(
        "repo-a-api",
        &[("@acme/shared-contracts", "0.4.2"), ("koa", "2.15.3")],
        &[],
    )]);
    let corpus_internal = vec!["@acme/shared-contracts".to_string()];
    let found = synthetic_type_check_dependencies(&packages, &corpus_internal);
    assert!(
        get(&found, "@acme/shared-contracts").is_none(),
        "a package that is itself a service in the scanned corpus must not be npm-installed"
    );
    assert_eq!(get(&found, "koa"), Some("2.15.3"));
}

#[test]
fn corpus_internal_names_union_all_repos_with_serialized_fallback() {
    let mut packages_a = packages(vec![manifest("@acme/shared-contracts", &[], &[])]);
    packages_a.internal_names.push("@acme/shared-tooling".to_string());
    let packages_b = packages(vec![manifest("repo-b-api", &[], &[])]);

    let mut repo_a = CloudRepoData::bare("acme/repo-a", None, "deadbeef");
    repo_a.packages = Some(packages_a);
    let mut repo_b = CloudRepoData::bare("acme/repo-b", None, "deadbeef");
    repo_b.package_json = Some("{}".to_string());

    // The second record has only its serialized form, read by the caller.
    let names =
        corpus_internal_package_names(&vec![repo_a, repo_b], &vec![None, Some(packages_b)]);
    assert!(names.contains(&"@acme/shared-contracts".to_string()));
    assert!(names.contains(&"@acme/shared-tooling".to_string()));
    assert!(names.contains(&"repo-b-api".to_string()), "serialized fallback must count");
}

#[test]
fn npm_unresolvable_packages_parses_etarget_stderr() {
    let stderr = "\
npm error code ETARGET
npm error notarget No matching version found for @acme/shared-contracts@0.4.2.
npm error notarget In most cases you or one of your dependencies are requesting
npm error notarget a package version that doesn't exist.
npm error A complete log of this run can be found in: /home/user/.npm/_logs/debug-0.log
";
    assert_eq!(npm_unresolvable_packages(stderr), vec!["@acme/shared-contracts".to_string()]);
}

#[test]
fn npm_unresolvable_packages_parses_unscoped_and_legacy_prefix() {
    let stderr = "\
npm ERR! code ETARGET
npm ERR! notarget No matching version found for left-pad-utils@9.9.9.
npm ERR! notarget No matching version found for left-pad-utils@9.9.9.
";
    assert_eq!(npm_unresolvable_packages(stderr), vec!["left-pad-utils".to_string()]);
}

#[test]
fn npm_unresolvable_packages_parses_e404_stderr() {
    let stderr = "\
npm error code E404
npm error 404 Not Found - GET https://registry.npmjs.org/@acme%2fghost-pkg - Not found
npm error 404
npm error 404  '@acme/ghost-pkg@^1.0.0' is not in this registry.
npm error 404
npm error 404 Note that you can also install from a
npm error 404 tarball, folder, http url, or git url.
";
    assert_eq!(npm_unresolvable_packages(stderr), vec!["@acme/ghost-pkg".to_string()]);
}

#[test]
fn npm_unresolvable_packages_ignores_other_failure_classes() {
    let stderr = "\
npm error code ERESOLVE
npm error ERESOLVE unable to resolve dependency tree
npm error Found: typescript@5.8.3
npm error Could not resolve dependency:
npm error peer typescript@\">=4.2\" from ts-node@10.9.2
";
    assert!(npm_unresolvable_packages(stderr).is_empty());
}

#[test]
fn unresolvable_manifest_keys_match_direct_and_alias_targets() {
    let dependencies = deps(&[
        ("@acme/ghost-pkg", "1.0.0"),
        ("aliased", "npm:ghost-target@2.0.0"),
        ("koa", "2.15.3"),
    ]);
    let blamed = vec![
        "@acme/ghost-pkg".to_string(),
        // npm blames the alias target, not the manifest key.
        "ghost-target".to_string(),
        // Transitive dependency (not a manifest key): nothing to drop.
        "not-in-manifest".to_string(),
    ];
    assert_eq!(
        unresolvable_manifest_keys(&dependencies, &blamed),
        vec!["@acme/ghost-pkg".to_string(), "aliased".to_string()]
    );
}

#[test]
fn bare_names_keep_their_scope() {
    assert_eq!(bare_name("@acme/pkg@1.0.0"), "@acme/pkg");
    assert_eq!(bare_name("koa@2"), "koa");
    assert_eq!(bare_name("koa"), "koa");
    assert_eq!(bare_name("@acme/pkg"), "@acme/pkg");
}

#[test]
fn names_in_specs_are_distinct() {
    let specs = vec![
        Some("koa@2.0.0.".to_string()),
        None,
        Some("@a/b@1".to_string()),
        Some("koa@3".to_string()),
    ];
    assert_eq!(names_in_specs(&specs), vec!["koa".to_string(), "@a/b".to_string()]);
}

#[test]
fn toolchain_pins_replace_what_was_merged() {
    let pinned = pin_toolchain(deps(&[("typescript", "4.0.0"), ("koa", "2.15.3")]));
    assert_eq!(get(&pinned, "typescript"), Some("5.8.3"));
    assert_eq!(get(&pinned, "ts-node"), Some("10.9.2"));
    assert_eq!(get(&pinned, "koa"), Some("2.15.3"));
    assert_eq!(pinned.len(), 3);
}

#[test]
fn stderr_tail_keeps_the_last_part() {
    assert_eq!(stderr_tail("short"), "short");
    let long = format!("{}{}", "a".repeat(500), "b".repeat(2000));
    assert_eq!(stderr_tail(&long), "b".repeat(2000));
}

#[test]
fn failed_install_drops_exactly_what_is_blamed_and_retries() {
    let state = InstallState::start(deps(&[("ghost", "1.0.0"), ("koa", "2.15.3")]));
    let stderr = "npm error notarget No matching version found for ghost@1.0.0.\n";
    match after_failed_install(state, stderr) {
        InstallStep::Retry(state) => {
            assert_eq!(state.dependencies.len(), 1);
            assert_eq!(state.dependencies[0].name, "koa");
            assert_eq!(state.dropped, vec!["ghost".to_string()]);
            // Nothing more to drop: the failure is final, with its history.
            match after_failed_install(state, stderr) {
                InstallStep::Fail(message) => {
                    assert!(message
                        .contains("Dropped unresolvable dependencies before failing: ghost."));
                    assert!(message.contains("npm stderr (tail):\n"));
                }
                InstallStep::Retry(_) => panic!("nothing is left to drop"),
            }
        }
        InstallStep::Fail(message) => panic!("{}", message),
    }
}

#[test]
fn install_is_retried_a_bounded_number_of_times() {
    let mut state = InstallState::start(deps(&[("a", "1"), ("b", "1"), ("c", "1"), ("d", "1")]));
    for name in ["a", "b", "c"] {
        let blamed = vec![name.to_string()];
        state = match after_failed_install_blaming(state, &blamed, "x") {
            InstallStep::Retry(state) => state,
            InstallStep::Fail(message) => panic!("{}", message),
        };
    }
    let blamed = vec!["d".to_string()];
    match after_failed_install_blaming(state, &blamed, "x") {
        InstallStep::Fail(message) => assert!(message.contains("a, b, c")),
        InstallStep::Retry(_) => panic!("the rounds are used up"),
    }
}

#[test]
fn a_declared_package_is_not_installed_under_an_alias_either() {
    let packages =
        packages(vec![manifest("foo", &[("foo", "1.0.0"), ("koa", "2.15.3")], &[("foo", "npm:bar@1.0.0")])]);
    let found = synthetic_type_check_dependencies(&packages, &vec![]);
    assert!(get(&found, "foo").is_none());
    assert_eq!(get(&found, "koa"), Some("2.15.3"));
}
