use vex::manifest::{parse_manifest, render_new_manifest, DependencySource, Manifest};

#[test]
fn parses_path_and_git_dependencies() {
    let manifest = parse_manifest(
        r#"{
            name = "app",
            version = 0.1.0,
            dependencies = [
                { name = "local", path = "../local" },
                { name = "remote", git = "https://example.com/remote.git", tag = "v1" }
            ]
        }"#,
        "vex.ws".to_string(),
    )
    .expect("manifest must parse");

    assert_eq!(manifest.dependencies.len(), 2);
    assert!(matches!(manifest.dependencies[0].source, DependencySource::Path { .. }));
    assert!(matches!(manifest.dependencies[1].source, DependencySource::Git { .. }));
}

#[test]
fn rejects_ambiguous_dependency_sources() {
    let err = parse_manifest(
        r#"{
            name = "app",
            dependencies = [
                { name = "bad", path = "../bad", git = "https://example.com/bad.git" }
            ]
        }"#,
        "vex.ws".to_string(),
    )
    .expect_err("path and git cannot be combined");

    assert!(err.contains("path") && err.contains("git"), "{err}");
}

fn parse(text: &str) -> Result<Manifest, String> {
    parse_manifest(text, "vex.ws".to_string())
}

#[test]
fn manifest_fields_and_defaults() {
    let m = parse("{ name = \"app\" }").expect("must parse");
    assert_eq!(m.version, "0.1.0");
    assert!(!m.lib);
    assert_eq!(m.description, None);
    assert_eq!(m.default_entry_path(), "src/main.wave");
    let m = parse("{ name = \"lib\", version = 1.20.3, lib = true, license = \"MIT\" }").expect("must parse");
    assert_eq!(m.version, "1.20.3");
    assert!(m.lib);
    assert_eq!(m.license.as_deref(), Some("MIT"));
    assert_eq!(m.default_entry_path(), "src/lib.wave");
    assert_eq!(m.source_path, "vex.ws");
}

#[test]
fn git_url_survives_parsing() {
    let m = parse("{ name = \"a\", dependencies = [{ name = \"r\", git = \"https://x.org/r.git\", rev = \"abc\" }] }")
        .expect("must parse");
    match &m.dependencies[0].source {
        DependencySource::Git { url, rev, branch, tag } => {
            assert_eq!(url, "https://x.org/r.git");
            assert_eq!(rev.as_deref(), Some("abc"));
            assert!(branch.is_none() && tag.is_none());
        }
        other => panic!("unexpected source {other:?}"),
    }
}

#[test]
fn manifest_errors_are_named() {
    assert_eq!(parse("{ version = 1 }").unwrap_err(), "manifest field `name` must be a string");
    assert_eq!(
        parse("{ name = \"a\", version = true }").unwrap_err(),
        "manifest field `version` must be a version or string"
    );
    assert_eq!(parse("{ name = \"a\", lib = 1 }").unwrap_err(), "manifest field `lib` must be a bool");
    assert_eq!(
        parse("{ name = \"a\", author = 1 }").unwrap_err(),
        "manifest optional text field must be a string"
    );
    assert_eq!(
        parse("{ name = \"a\", dependencies = 1 }").unwrap_err(),
        "manifest field `dependencies` must be an array"
    );
    assert_eq!(parse("{ name = \"a\", dependencies = [1] }").unwrap_err(), "dependency entry must be an object");
    assert_eq!(
        parse("{ name = \"a\", dependencies = [{ path = \"x\" }] }").unwrap_err(),
        "dependency field `name` must be a string"
    );
    assert_eq!(
        parse("{ name = \"a\", dependencies = [{ name = \"\", path = \"x\" }] }").unwrap_err(),
        "dependency name cannot be empty"
    );
    assert_eq!(
        parse("{ name = \"a\", dependencies = [{ name = \"9x\", path = \"x\" }] }").unwrap_err(),
        "invalid dependency name `9x`: use [A-Za-z_][A-Za-z0-9_]*"
    );
    assert_eq!(
        parse("{ name = \"a\", dependencies = [{ name = \"x-y\", path = \"x\" }] }").unwrap_err(),
        "invalid dependency name `x-y`: use [A-Za-z_][A-Za-z0-9_]*"
    );
    assert_eq!(
        parse("{ name = \"a\", dependencies = [{ name = \"x\", git = \"g\", tag = \"t\", rev = \"r\" }] }").unwrap_err(),
        "dependency `x` can specify only one of `branch`, `tag`, or `rev`"
    );
    assert_eq!(
        parse("{ name = \"a\", dependencies = [{ name = \"x\" }] }").unwrap_err(),
        "dependency `x` must specify either `path` or `git`"
    );
    assert_eq!(
        parse("{ name = \"a\", dependencies = [{ name = \"x\", path = \"p\", version = true }] }").unwrap_err(),
        "dependency `x` field `version` must be a version or string"
    );
    assert!(parse("{ name = ").unwrap_err().starts_with("failed to parse manifest: "));
}

#[test]
fn new_manifest_text_is_exact() {
    assert_eq!(
        render_new_manifest("my\"app", "me", true),
        "{\n    name = \"my\\\"app\",\n    version = 0.1.0,\n    lib = true,\n    description = \"my\\\"app Project\",\n    author = \"me\",\n    license = \"Unknown\",\n    dependencies = []\n}\n"
    );
}

#[test]
fn new_manifest_parses_back() {
    let m = parse(&render_new_manifest("demo", "someone", false)).expect("must parse");
    assert_eq!(m.name, "demo");
    assert_eq!(m.author.as_deref(), Some("someone"));
    assert_eq!(m.description.as_deref(), Some("demo Project"));
    assert!(!m.lib);
}
