use vex::lockfile::{LockedPackage, LockedSource, Lockfile};
use vex::manifest::{Dependency, DependencySource, Manifest};
use vex::resolver::{
    checkout_move_needed, git_clone_args, git_rev_parse_args, git_safety_args,
    locked_checkout_needs_fetch,
    check_checkout_at, check_clean_checkout, check_locked_lockfile, check_origin,
    check_package_identity, check_resolve_options, decide_lock_update,
    declared_before, dependency_names, duplicate_dependency_message, git_error, git_reference,
    indent_lines, locked_commit, locking_message, offline_checkout_missing, offline_commit_missing,
    plan_git_commit, request_key, request_key_eq,
    resolve_failure_message, Begin, GitPlan, RequestKey, Resolution, ResolveOptions, Resolver,
    UpdatePolicy,
};

const COMMIT: &str = "0123456789abcdef0123456789abcdef01234567";

fn options(update: UpdatePolicy, locked: bool, offline: bool, dry_run: bool) -> ResolveOptions {
    ResolveOptions { dry_run, update, locked, offline }
}

fn path_key(resolved: &str) -> RequestKey {
    RequestKey::Path { resolved: resolved.to_string(), version: None }
}

fn git_dependency(name: &str, branch: Option<&str>, tag: Option<&str>, rev: Option<&str>) -> Dependency {
    Dependency {
        name: name.to_string(),
        version: None,
        source: DependencySource::Git {
            url: "https://example.com/math.git".to_string(),
            branch: branch.map(str::to_string),
            tag: tag.map(str::to_string),
            rev: rev.map(str::to_string),
        },
    }
}

fn path_dependency(name: &str, version: Option<&str>) -> Dependency {
    Dependency {
        name: name.to_string(),
        version: version.map(str::to_string),
        source: DependencySource::Path { path: format!("../{name}") },
    }
}

fn path_package(name: &str) -> LockedPackage {
    LockedPackage {
        name: name.to_string(),
        version: "1.0.0".to_string(),
        source: LockedSource::Path {
            requested: format!("../{name}"),
            resolved: format!("/work/{name}"),
        },
        dependencies: vec![],
    }
}

fn locked_git(name: &str, branch: Option<&str>) -> Lockfile {
    Lockfile {
        version: 2,
        packages: vec![LockedPackage {
            name: name.to_string(),
            version: "1.2.3".to_string(),
            source: LockedSource::Git {
                url: "https://example.com/math.git".to_string(),
                branch: branch.map(str::to_string),
                tag: None,
                rev: None,
                commit: COMMIT.to_string(),
                resolved: format!(".vex/deps/{name}"),
            },
            dependencies: vec![],
        }],
    }
}

#[test]
fn path_identity_uses_resolved_location() {
    let first = RequestKey::Path {
        resolved: "/tmp/package".to_string(),
        version: Some("1.0.0".to_string()),
    };
    let second = RequestKey::Path {
        resolved: "/tmp/package".to_string(),
        version: Some("1.0.0".to_string()),
    };
    assert_eq!(first, second);
}

#[test]
fn request_keys_compare_by_content() {
    assert!(request_key_eq(&path_key("/a"), &path_key("/a")));
    assert!(!request_key_eq(&path_key("/a"), &path_key("/b")));
    let git = request_key(&git_dependency("math", Some("main"), None, None), &"ignored".to_string());
    assert!(!request_key_eq(&git, &path_key("/a")));
    let path = request_key(&path_dependency("util", Some("2.0.0")), &"/work/util".to_string());
    assert_eq!(
        path,
        RequestKey::Path { resolved: "/work/util".to_string(), version: Some("2.0.0".to_string()) }
    );
}

#[test]
fn resolver_detects_conflicts_cycles_and_repeats() {
    let mut resolver = Resolver::new(options(UpdatePolicy::ReuseLocked, false, false, false), Lockfile::empty());
    assert_eq!(resolver.begin("a", path_key("/a")), Ok(Begin::Resolve));
    resolver.enter("a");
    assert_eq!(resolver.begin("b", path_key("/b")), Ok(Begin::Resolve));
    resolver.enter("b");
    assert_eq!(
        resolver.begin("a", path_key("/a")),
        Err("dependency cycle detected: a -> b -> a".to_string())
    );
    assert_eq!(
        resolver.begin("b", path_key("/elsewhere")),
        Err("package name `b` refers to more than one source or version requirement".to_string())
    );
    resolver.leave();
    resolver.finish(path_package("b"));
    assert_eq!(resolver.begin("b", path_key("/b")), Ok(Begin::AlreadyResolved));
    resolver.leave();
    resolver.finish(path_package("a"));
    assert_eq!(resolver.requests.len(), 2);
    assert!(resolver.visiting.is_empty());
    let lockfile = resolver.into_lockfile();
    assert_eq!(lockfile.version, 2);
    let names: Vec<&str> = lockfile.packages.iter().map(|p| p.name.as_str()).collect();
    assert_eq!(names, ["a", "b"]);
}

#[test]
fn finishing_a_package_twice_keeps_one_entry() {
    let mut resolver = Resolver::new(options(UpdatePolicy::ReuseLocked, false, false, false), Lockfile::empty());
    resolver.finish(path_package("a"));
    let mut again = path_package("a");
    again.version = "2.0.0".to_string();
    resolver.finish(again);
    assert_eq!(resolver.packages.len(), 1);
    assert_eq!(resolver.packages[0].version, "2.0.0");
}

#[test]
fn update_conflicts_with_locked_and_offline() {
    assert_eq!(check_resolve_options(&options(UpdatePolicy::ReuseLocked, true, true, false)), Ok(()));
    assert_eq!(
        check_resolve_options(&options(UpdatePolicy::UpdateAll, true, false, false)),
        Err("`--locked` cannot be used while updating dependencies".to_string())
    );
    assert_eq!(
        check_resolve_options(&options(UpdatePolicy::UpdateSelected(vec!["a".to_string()]), false, true, false)),
        Err("`--offline` cannot be used while updating Git dependencies".to_string())
    );
}

#[test]
fn locked_runs_need_a_current_lockfile() {
    let locked = options(UpdatePolicy::ReuseLocked, true, false, false);
    assert_eq!(
        check_locked_lockfile(&None, &locked),
        Err("`vex.lock` is required by `--locked`\nhelp: run `vex fetch` and commit `vex.lock`".to_string())
    );
    let old = Lockfile { version: 1, packages: vec![] };
    assert_eq!(
        check_locked_lockfile(&Some(old), &locked),
        Err("`vex.lock` version 1 cannot be used with `--locked`; expected version 2\nhelp: run `vex fetch` to regenerate the lockfile".to_string())
    );
    assert_eq!(check_locked_lockfile(&Some(Lockfile::empty()), &locked), Ok(()));
    assert_eq!(check_locked_lockfile(&None, &options(UpdatePolicy::ReuseLocked, false, false, false)), Ok(()));
}

#[test]
fn lockfile_is_written_only_when_it_changes_and_may() {
    let empty = Lockfile::empty();
    let other = locked_git("math", None);
    let plain = options(UpdatePolicy::ReuseLocked, false, false, false);
    assert_eq!(decide_lock_update(&empty, &Lockfile::empty(), &plain), Ok(false));
    assert_eq!(decide_lock_update(&other, &empty, &plain), Ok(true));
    assert_eq!(
        decide_lock_update(&other, &empty, &options(UpdatePolicy::ReuseLocked, true, false, false)),
        Err("`vex.lock` needs to be updated, but `--locked` prevents changes\nhelp: run `vex fetch` and commit the updated `vex.lock`".to_string())
    );
    assert_eq!(
        decide_lock_update(&other, &empty, &options(UpdatePolicy::ReuseLocked, false, false, true)),
        Err("dependency graph differs from `vex.lock`\nhelp: run `vex fetch` to resolve and lock dependencies".to_string())
    );
}

#[test]
fn locking_message_counts_packages() {
    assert_eq!(locking_message(1), "1 package to exact sources");
    assert_eq!(locking_message(0), "0 packages to exact sources");
    assert_eq!(locking_message(12), "12 packages to exact sources");
}

#[test]
fn locked_commit_follows_the_update_policy() {
    let existing = locked_git("math", Some("main"));
    let dep = git_dependency("math", Some("main"), None, None);
    assert_eq!(locked_commit(&existing, &dep, &UpdatePolicy::ReuseLocked), Some(COMMIT.to_string()));
    assert_eq!(locked_commit(&existing, &dep, &UpdatePolicy::UpdateAll), None);
    assert_eq!(
        locked_commit(&existing, &dep, &UpdatePolicy::UpdateSelected(vec!["math".to_string()])),
        None
    );
    assert_eq!(
        locked_commit(&existing, &dep, &UpdatePolicy::UpdateSelected(vec!["other".to_string()])),
        Some(COMMIT.to_string())
    );
    let moved = git_dependency("math", Some("dev"), None, None);
    assert_eq!(locked_commit(&existing, &moved, &UpdatePolicy::ReuseLocked), None);
    let unknown = git_dependency("other", Some("main"), None, None);
    assert_eq!(locked_commit(&existing, &unknown, &UpdatePolicy::ReuseLocked), None);
}

#[test]
fn git_references_name_branch_tag_rev_or_head() {
    let s = |v: &str| Some(v.to_string());
    assert_eq!(git_reference(&s("main"), &s("v1"), &None), "refs/remotes/origin/main^{commit}");
    assert_eq!(git_reference(&None, &s("v1"), &s("abc")), "refs/tags/v1^{commit}");
    assert_eq!(git_reference(&None, &None, &s("abc")), "abc^{commit}");
    assert_eq!(git_reference(&None, &None, &None), "refs/remotes/origin/HEAD^{commit}");
}

#[test]
fn git_plans_follow_the_options() {
    let dep = git_dependency("math", None, Some("v1"), None);
    let commit = Some(COMMIT.to_string());
    let plain = options(UpdatePolicy::ReuseLocked, false, false, false);
    assert_eq!(
        plan_git_commit(&plain, &dep, None),
        Ok(GitPlan::FetchReference("refs/tags/v1^{commit}".to_string()))
    );
    assert_eq!(
        plan_git_commit(&plain, &dep, commit.clone()),
        Ok(GitPlan::CheckoutLocked(COMMIT.to_string()))
    );
    assert_eq!(
        plan_git_commit(&options(UpdatePolicy::ReuseLocked, true, false, false), &dep, None),
        Err("`vex.lock` does not match Git dependency `math`\nhelp: run `vex fetch` to update the lockfile".to_string())
    );
    let dry = options(UpdatePolicy::ReuseLocked, false, false, true);
    assert_eq!(
        plan_git_commit(&dry, &dep, commit.clone()),
        Ok(GitPlan::VerifyCheckout(COMMIT.to_string()))
    );
    assert_eq!(
        plan_git_commit(&dry, &dep, None),
        Err("Git dependency `math` is not pinned in `vex.lock`\nhelp: run `vex fetch` first".to_string())
    );
    let offline = options(UpdatePolicy::ReuseLocked, false, true, false);
    assert_eq!(
        plan_git_commit(&offline, &dep, commit),
        Ok(GitPlan::OfflineCheckout(COMMIT.to_string()))
    );
    assert_eq!(
        plan_git_commit(&offline, &dep, None),
        Err("Git dependency `math` is not pinned for offline use\nhelp: run `vex fetch` while online".to_string())
    );
}

#[test]
fn failure_messages_indent_their_causes() {
    assert_eq!(indent_lines("a\nb"), "a\n  b");
    assert_eq!(
        resolve_failure_message("dep", "vex.ws", "first\nsecond"),
        "failed to resolve dependency `dep` from `vex.ws`\n\nCaused by:\n  first\n  second"
    );
    assert_eq!(
        duplicate_dependency_message("vex.ws", "dep"),
        "manifest `vex.ws` declares dependency `dep` more than once"
    );
}

#[test]
fn repeated_dependency_names_are_found() {
    let deps = vec![path_dependency("b", None), path_dependency("a", None), path_dependency("b", None)];
    assert!(!declared_before(&deps, 0));
    assert!(!declared_before(&deps, 1));
    assert!(declared_before(&deps, 2));
    assert_eq!(dependency_names(&deps[..2]), vec!["a".to_string(), "b".to_string()]);
}

#[test]
fn package_identity_is_checked() {
    let manifest = Manifest {
        name: "util".to_string(),
        version: "1.0.0".to_string(),
        lib: true,
        description: None,
        author: None,
        license: None,
        dependencies: vec![],
        source_path: "/work/util/vex.ws".to_string(),
    };
    assert_eq!(check_package_identity(&path_dependency("util", None), "/work/util/vex.ws", &manifest), Ok(()));
    assert_eq!(
        check_package_identity(&path_dependency("other", None), "/work/util/vex.ws", &manifest),
        Err("dependency is named `other` but `/work/util/vex.ws` declares package `util`".to_string())
    );
    assert_eq!(
        check_package_identity(&path_dependency("util", Some("2.0.0")), "/work/util/vex.ws", &manifest),
        Err("dependency `util` requires version `2.0.0` but source contains version `1.0.0`".to_string())
    );
}

#[test]
fn git_errors_prefer_stderr_then_stdout() {
    assert_eq!(git_error("fetch", "exit status: 1", b"out", b"  boom \n"), "could not fetch (status exit status: 1): boom");
    assert_eq!(git_error("fetch", "1", b" out\n", b"   "), "could not fetch (status 1): out");
    assert_eq!(git_error("fetch", "1", b"", b""), "could not fetch (status 1): <no output>");
}

#[test]
fn resolution_maps_packages_to_locations() {
    let mut lockfile = locked_git("math", None);
    lockfile.packages.push(path_package("util"));
    let resolution = Resolution::from_lockfile(lockfile);
    assert_eq!(resolution.package_count(), 2);
    assert_eq!(
        resolution.dependency_args(),
        vec![
            "--dep-root=.vex/deps".to_string(),
            "--dep=math=.vex/deps/math".to_string(),
            "--dep=util=/work/util".to_string(),
        ]
    );
}

#[test]
fn managed_checkouts_are_checked() {
    assert_eq!(check_origin(".vex/deps/math", "https://a", "https://a"), Ok(()));
    assert_eq!(
        check_origin(".vex/deps/math", "https://b", "https://a"),
        Err("managed checkout `.vex/deps/math` has origin `https://b`, expected `https://a`\nhelp: remove that checkout and run `vex fetch` again".to_string())
    );
    assert_eq!(check_checkout_at(".vex/deps/math", COMMIT, COMMIT), Ok(()));
    assert_eq!(
        check_checkout_at(".vex/deps/math", "abc", COMMIT),
        Err(format!("Git dependency at `.vex/deps/math` is checked out at `abc`, but `vex.lock` pins `{COMMIT}`\nhelp: run `vex fetch`"))
    );
    assert_eq!(check_clean_checkout(".vex/deps/math", ""), Ok(()));
    assert_eq!(
        check_clean_checkout(".vex/deps/math", "M file"),
        Err("managed dependency checkout `.vex/deps/math` has local changes\nhelp: preserve or remove those changes before running Vex".to_string())
    );
}

#[test]
fn offline_errors_name_what_is_missing() {
    assert_eq!(
        offline_checkout_missing("leaf", ".vex/deps/leaf"),
        "locked dependency `leaf` is not available locally in offline mode\n\nCaused by:\n  checkout `.vex/deps/leaf` is missing\n\nhelp: run `vex fetch` while online"
    );
    assert_eq!(
        offline_commit_missing("leaf", "abc", ".vex/deps/leaf"),
        "locked dependency `leaf` is incomplete in offline mode\n\nCaused by:\n  commit `abc` was not found in `.vex/deps/leaf`\n\nhelp: run `vex fetch` while online"
    );
}

#[test]
fn managed_git_commands_end_option_parsing() {
    assert_eq!(git_safety_args(), vec!["-c".to_string(), "protocol.ext.allow=never".to_string()]);
    assert_eq!(
        git_clone_args("--upload-pack=x", ".vex/deps/math"),
        vec!["clone".to_string(), "--".to_string(), "--upload-pack=x".to_string(), ".vex/deps/math".to_string()]
    );
    assert_eq!(
        git_rev_parse_args("refs/tags/v1^{commit}"),
        vec![
            "rev-parse".to_string(),
            "--verify".to_string(),
            "--end-of-options".to_string(),
            "refs/tags/v1^{commit}".to_string(),
        ]
    );
    assert!(locked_checkout_needs_fetch(false));
    assert!(!locked_checkout_needs_fetch(true));
    assert!(checkout_move_needed("abc", COMMIT));
    assert!(!checkout_move_needed(COMMIT, COMMIT));
}

#[test]
fn rerun_against_an_unchanged_lockfile_reuses_its_commits() {
    let existing = locked_git("math", Some("main"));
    let dep = git_dependency("math", Some("main"), None, None);
    let strict = options(UpdatePolicy::ReuseLocked, true, true, false);
    let commit = locked_commit(&existing, &dep, &strict.update);
    assert_eq!(plan_git_commit(&strict, &dep, commit), Ok(GitPlan::OfflineCheckout(COMMIT.to_string())));
    let online = options(UpdatePolicy::ReuseLocked, false, false, false);
    let commit = locked_commit(&existing, &dep, &online.update);
    assert_eq!(plan_git_commit(&online, &dep, commit), Ok(GitPlan::CheckoutLocked(COMMIT.to_string())));
    assert_eq!(decide_lock_update(&existing, &existing.clone(), &strict), Ok(false));
}

fn walk_once(existing: Lockfile) -> Lockfile {
    let mut resolver = Resolver::new(options(UpdatePolicy::ReuseLocked, false, false, false), existing);
    assert_eq!(resolver.begin("app_dep", path_key("/work/util")), Ok(Begin::Resolve));
    resolver.enter("app_dep");
    let dep = git_dependency("math", Some("main"), None, None);
    assert_eq!(resolver.begin("math", request_key(&dep, &String::new())), Ok(Begin::Resolve));
    let mut math = locked_git("math", Some("main")).packages.remove(0);
    math.dependencies = vec!["z".to_string(), "a".to_string(), "z".to_string()];
    resolver.finish(math);
    resolver.leave();
    resolver.finish(path_package("app_dep"));
    resolver.into_lockfile()
}

#[test]
fn same_steps_against_the_written_lock_leave_it_unwritten() {
    let first = walk_once(Lockfile::empty());
    let read_back = first.clone().normalized();
    let second = walk_once(read_back.clone());
    assert_eq!(second, first);
    let strict = options(UpdatePolicy::ReuseLocked, true, true, false);
    assert_eq!(decide_lock_update(&second, &read_back, &strict), Ok(false));
    let dep = git_dependency("math", Some("main"), None, None);
    let commit = locked_commit(&read_back, &dep, &strict.update);
    assert_eq!(plan_git_commit(&strict, &dep, commit), Ok(GitPlan::OfflineCheckout(COMMIT.to_string())));
}
