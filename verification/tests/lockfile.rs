use vex::lockfile::{parse_lockfile, render_lockfile, validate_commit, LockedPackage, LockedSource, Lockfile, LOCKFILE_VERSION};

fn git_package(name: &str, deps: &[&str]) -> LockedPackage {
    LockedPackage {
        name: name.to_string(),
        version: "1.2.3".to_string(),
        source: LockedSource::Git {
            url: format!("https://example.com/{name}.git"),
            branch: Some("main".to_string()),
            tag: None,
            rev: None,
            commit: "0123456789abcdef0123456789abcdef01234567".to_string(),
            resolved: format!(".vex/deps/{name}"),
        },
        dependencies: deps.iter().map(|d| d.to_string()).collect(),
    }
}

#[test]
fn lockfile_round_trip_preserves_git_commits_and_edges() {
    let lockfile = Lockfile {
        version: LOCKFILE_VERSION,
        packages: vec![LockedPackage {
            name: "math".to_string(),
            version: "1.2.3".to_string(),
            source: LockedSource::Git {
                url: "https://example.com/math.git".to_string(),
                branch: Some("main".to_string()),
                tag: None,
                rev: None,
                commit: "0123456789abcdef0123456789abcdef01234567".to_string(),
                resolved: ".vex/deps/math".to_string(),
            },
            dependencies: vec!["core".to_string()],
        }],
    };

    let rendered = render_lockfile(lockfile.clone());
    let parsed = parse_lockfile(&rendered).expect("rendered lockfile must parse");
    assert_eq!(parsed, lockfile);
}

#[test]
fn version_one_lockfile_is_treated_as_unresolved() {
    let parsed = parse_lockfile("{ version = 1, package = [] }").expect("legacy lockfile should trigger regeneration");
    assert!(parsed.packages.is_empty());
}

#[test]
fn rejects_non_object_id_git_commits() {
    let err = parse_lockfile(
        r#"{
            version = 2,
            package = [{
                name = "bad",
                version = "1.0.0",
                source = "git",
                git = "https://example.com/bad.git",
                commit = "--help",
                resolved = ".vex/deps/bad",
                dependencies = []
            }]
        }"#,
    )
    .expect_err("Git commits must be full object IDs");
    assert!(err.contains("invalid Git commit"), "{err}");
}

#[test]
fn empty_lockfile_text() {
    assert_eq!(render_lockfile(Lockfile::empty()), "{\n    version = 2,\n    package = []\n}\n");
    assert_eq!(Lockfile::empty().version, 2);
}

#[test]
fn rendered_package_block_is_exact() {
    let lockfile = Lockfile {
        version: 2,
        packages: vec![LockedPackage {
            name: "local".to_string(),
            version: "0.1.0".to_string(),
            source: LockedSource::Path { requested: "../lo\"cal".to_string(), resolved: "../local".to_string() },
            dependencies: vec!["a".to_string(), "b".to_string()],
        }],
    };
    assert_eq!(
        render_lockfile(lockfile),
        "{\n    version = 2,\n    package = [\n        {\n            name = \"local\",\n            version = \"0.1.0\",\n            source = \"path\",\n            path = \"../lo\\\"cal\",\n            resolved = \"../local\",\n            dependencies = [\"a\", \"b\"]\n        }\n    ]\n}\n"
    );
}

#[test]
fn normalized_sorts_packages_and_dedups_edges() {
    let lockfile = Lockfile {
        version: 2,
        packages: vec![git_package("zeta", &["b", "a", "b"]), git_package("alpha", &[])],
    };
    let normalized = lockfile.normalized();
    assert_eq!(normalized.packages[0].name, "alpha");
    assert_eq!(normalized.packages[1].name, "zeta");
    assert_eq!(normalized.packages[1].dependencies, vec!["a".to_string(), "b".to_string()]);
}

#[test]
fn normalizing_twice_changes_nothing() {
    let lockfile = Lockfile {
        version: 2,
        packages: vec![git_package("b", &["y", "x", "x"]), git_package("a", &["z"]), git_package("c", &[])],
    };
    let once = lockfile.normalized();
    let twice = once.clone().normalized();
    assert_eq!(once, twice);
}

#[test]
fn package_lookup_finds_the_first_of_that_name() {
    let lockfile = Lockfile { version: 2, packages: vec![git_package("a", &[]), git_package("b", &["a"])] };
    assert_eq!(lockfile.package("b").map(|p| p.dependencies.clone()), Some(vec!["a".to_string()]));
    assert!(lockfile.package("c").is_none());
}

#[test]
fn round_trip_of_several_packages_is_the_normal_form() {
    let lockfile = Lockfile {
        version: 2,
        packages: vec![
            git_package("zeta", &["core"]),
            LockedPackage {
                name: "core".to_string(),
                version: "0.1.0".to_string(),
                source: LockedSource::Path { requested: "../core".to_string(), resolved: "../core".to_string() },
                dependencies: vec![],
            },
        ],
    };
    let parsed = parse_lockfile(&render_lockfile(lockfile.clone())).expect("must parse");
    assert_eq!(parsed, lockfile.normalized());
}

#[test]
fn commit_ids_must_be_full_hex() {
    assert!(validate_commit("0123456789abcdef0123456789abcdef01234567", "p").is_ok());
    assert!(validate_commit(&"a".repeat(64), "p").is_ok());
    assert_eq!(
        validate_commit("0123", "p"),
        Err("lockfile package `p` has invalid Git commit `0123`; expected a full hexadecimal object ID".to_string())
    );
    assert!(validate_commit(&"g".repeat(40), "p").is_err());
}

#[test]
fn lockfile_errors_are_named() {
    assert_eq!(
        parse_lockfile("{ version = \"2\" }"),
        Err("`vex.lock` field `version` must be an integer".to_string())
    );
    assert_eq!(
        parse_lockfile("{ version = 3 }"),
        Err("unsupported `vex.lock` version `3`; expected `2`".to_string())
    );
    assert_eq!(
        parse_lockfile("{ version = 2, package = 1 }"),
        Err("`vex.lock` field `package` must be an array".to_string())
    );
    assert_eq!(parse_lockfile("{ version = 2 }").map(|l| l.packages.len()), Ok(0));
    assert_eq!(
        parse_lockfile("{ version = 2, package = [1] }"),
        Err("lockfile package entry must be an object".to_string())
    );
    assert_eq!(
        parse_lockfile("{ version = 2, package = [{ name = \"a\", version = \"1\", source = \"svn\" }] }"),
        Err("unknown lockfile source `svn` for package `a`".to_string())
    );
    assert_eq!(
        parse_lockfile("{ version = 2, package = [{ name = 1 }] }"),
        Err("lockfile field `name` must be a string".to_string())
    );
    assert_eq!(
        parse_lockfile("{ version = 2, package = [{ name = \"a\", version = \"1\", source = \"path\", dependencies = [1] }] }"),
        Err("lockfile field `dependencies` must contain only strings".to_string())
    );
    assert!(parse_lockfile("not wson").unwrap_err().starts_with("failed to parse `vex.lock`: "));
}

#[test]
fn duplicate_packages_are_refused() {
    let text = "{ version = 2, package = [\
        { name = \"a\", version = \"1\", source = \"path\", path = \"x\", resolved = \"x\" },\
        { name = \"a\", version = \"2\", source = \"path\", path = \"y\", resolved = \"y\" }] }";
    assert_eq!(parse_lockfile(text), Err("`vex.lock` contains duplicate package `a`".to_string()));
}
