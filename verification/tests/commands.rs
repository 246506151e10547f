use vex::commands::building::{
    add_mode_flag, declares_main, default_input, split_command_args, wavec_args, BuildMode,
    WaveFile,
};
use vex::commands::deps::{fetch_options, parse_options, resolved_count_text, update_status};
use vex::commands::info::{info_lines, info_request, InfoRequest};
use vex::commands::init;
use vex::commands::help_only;
use vex::commands::setup::{
    display_version, installer_args, parse_setup_args, windows_shell, SetupRequest,
};
use vex::manifest::{Dependency, DependencySource, Manifest};
use vex::resolver::UpdatePolicy;

fn strings(values: &[&str]) -> Vec<String> {
    values.iter().map(|value| value.to_string()).collect()
}

#[test]
fn parses_fetch_policy_options() {
    let options = parse_options(false, &strings(&["--locked", "--offline"]))
        .expect("fetch policy options must parse");
    assert!(options.locked);
    assert!(options.offline);
}

#[test]
fn parses_and_deduplicates_targeted_update_packages() {
    let options = parse_options(true, &strings(&["beta", "alpha", "beta"]))
        .expect("targeted update packages must parse");
    assert_eq!(options.packages.into_iter().collect::<Vec<_>>(), ["alpha", "beta"]);
}

#[test]
fn dependency_options_reject_help_and_unknown_arguments() {
    assert_eq!(
        parse_options(false, &strings(&["--help"])).unwrap_err(),
        "usage: vex fetch [--locked] [--offline]"
    );
    assert_eq!(
        parse_options(false, &strings(&["alpha"])).unwrap_err(),
        "unknown Vex option `alpha`\nusage: vex fetch [--locked] [--offline]"
    );
    assert_eq!(
        parse_options(true, &strings(&["--force"])).unwrap_err(),
        "unknown Vex option `--force`\nusage: vex update [<package>...]"
    );
}

#[test]
fn fetch_and_update_choose_the_update_policy() {
    let fetch = fetch_options(false, &strings(&["--locked"])).unwrap();
    assert!(fetch.locked && !fetch.offline && !fetch.dry_run);
    assert!(matches!(fetch.update, UpdatePolicy::ReuseLocked));
    let all = fetch_options(true, &strings(&[])).unwrap();
    assert!(matches!(all.update, UpdatePolicy::UpdateAll));
    match fetch_options(true, &strings(&["b", "a", "b"])).unwrap().update {
        UpdatePolicy::UpdateSelected(names) => assert_eq!(names, strings(&["a", "b"])),
        other => panic!("unexpected policy {other:?}"),
    }
    assert_eq!(
        fetch_options(true, &strings(&["--locked"])).unwrap_err(),
        "`--locked` cannot be used with `vex update` because update rewrites vex.lock"
    );
    assert_eq!(
        fetch_options(true, &strings(&["--offline"])).unwrap_err(),
        "`--offline` cannot be used with `vex update` because update refreshes Git refs"
    );
}

#[test]
fn update_status_names_what_is_refreshed() {
    assert_eq!(update_status(&UpdatePolicy::ReuseLocked), None);
    assert_eq!(update_status(&UpdatePolicy::UpdateAll), Some("all Git dependencies".to_string()));
    assert_eq!(
        update_status(&UpdatePolicy::UpdateSelected(strings(&["leaf"]))),
        Some("Git package `leaf`".to_string())
    );
    assert_eq!(
        update_status(&UpdatePolicy::UpdateSelected(strings(&["a", "b"]))),
        Some("Git packages `a`, `b`".to_string())
    );
}

#[test]
fn init_options_do_not_treat_help_or_unknown_flags_as_creation() {
    assert_eq!(init::parse_options(&strings(&["--help"])), Ok(None));
    assert!(init::parse_options(&strings(&["--unknown"])).is_err());
    assert!(init::parse_options(&strings(&["--lib", "--lib"])).is_err());
    assert_eq!(init::parse_options(&strings(&["--lib"])), Ok(Some(true)));
}

#[test]
fn init_errors_and_templates_are_exact() {
    assert_eq!(init::parse_options(&strings(&[])), Ok(Some(false)));
    assert_eq!(
        init::parse_options(&strings(&["--unknown"])),
        Err("unknown Vex option `--unknown`".to_string())
    );
    assert_eq!(
        init::parse_options(&strings(&["--lib", "--lib"])),
        Err("`--lib` may only be specified once".to_string())
    );
    assert_eq!(
        init::parse_options(&strings(&["--lib", "--help"])),
        Err("unknown Vex option `--help`".to_string())
    );
    assert_eq!(init::source_file_name(true), "lib.wave");
    assert_eq!(init::source_file_name(false), "main.wave");
    assert_eq!(init::source_template(false), "fun main() {\n    println(\"Hello World\");\n}\n");
    assert_eq!(
        init::source_template(true),
        "fun greet() {\n    println(\"Hello from library\");\n}\n"
    );
}

#[test]
fn installer_arguments_preserve_an_explicit_version() {
    assert_eq!(installer_args(None), ["latest"]);
    assert_eq!(installer_args(Some("0.2.0-pre-beta")), ["--version", "0.2.0-pre-beta"]);
}

#[test]
fn setup_arguments_are_read() {
    assert_eq!(parse_setup_args(&strings(&["wavec"])), Ok(SetupRequest::Install(None)));
    assert_eq!(
        parse_setup_args(&strings(&["wavec", "--version", "1.0", "--version", "2.0"])),
        Ok(SetupRequest::Install(Some("2.0".to_string())))
    );
    assert_eq!(parse_setup_args(&strings(&["--help"])), Ok(SetupRequest::Help));
    assert_eq!(parse_setup_args(&strings(&["wavec", "--help"])), Ok(SetupRequest::Help));
    assert_eq!(
        parse_setup_args(&strings(&["wavec", "--version"])),
        Err("missing value for --version".to_string())
    );
    assert_eq!(
        parse_setup_args(&strings(&["wavec", "--version", "--unknown"])),
        Err("expected a version value after --version, found `--unknown`".to_string())
    );
    assert_eq!(
        parse_setup_args(&strings(&[])),
        Err("usage: vex setup wavec [--version <version>]".to_string())
    );
    assert_eq!(
        parse_setup_args(&strings(&["wavec", "--force"])),
        Err("unknown setup option `--force`\nusage: vex setup wavec [--version <version>]".to_string())
    );
    assert_eq!(display_version(&installer_args(Some("1.2"))), "1.2");
    assert_eq!(display_version(&installer_args(None)), "latest");
    assert_eq!(windows_shell(true), "powershell.exe");
    assert_eq!(windows_shell(false), "pwsh");
}

#[test]
fn info_arguments_are_read() {
    assert_eq!(info_request(&strings(&[])), Ok(InfoRequest::Show));
    assert_eq!(info_request(&strings(&["--help"])), Ok(InfoRequest::Help));
    assert_eq!(
        info_request(&strings(&["extra"])),
        Err("unexpected argument `extra`\nusage: vex info".to_string())
    );
    assert_eq!(
        info_request(&strings(&["-h", "x"])),
        Err("unexpected argument `-h`\nusage: vex info".to_string())
    );
}

#[test]
fn info_report_lists_the_manifest() {
    let manifest = Manifest {
        name: "app".to_string(),
        version: "0.1.0".to_string(),
        lib: false,
        description: Some("demo".to_string()),
        author: None,
        license: Some("MPL-2.0".to_string()),
        dependencies: vec![
            Dependency {
                name: "util".to_string(),
                version: Some("1.0.0".to_string()),
                source: DependencySource::Path { path: "../util".to_string() },
            },
            Dependency {
                name: "math".to_string(),
                version: None,
                source: DependencySource::Git {
                    url: "https://example.com/math.git".to_string(),
                    branch: None,
                    tag: Some("v1".to_string()),
                    rev: None,
                },
            },
        ],
        source_path: "vex.ws".to_string(),
    };
    assert_eq!(
        info_lines(&manifest),
        strings(&[
            "Vex project info",
            "name: app",
            "version: 0.1.0",
            "type: binary",
            "manifest: vex.ws",
            "description: demo",
            "license: MPL-2.0",
            "dependencies: 2",
            "  util 1.0.0 path ../util",
            "  math git https://example.com/math.git tag v1",
        ])
    );
}

#[test]
fn build_arguments_split_at_separator() {
    let command = split_command_args(&strings(&["--locked", "main.wave", "--", "--offline", "x"]));
    assert!(command.locked);
    assert!(!command.offline);
    assert_eq!(command.build_args, strings(&["main.wave"]));
    assert!(command.run_separator_seen);
    assert_eq!(command.run_args, strings(&["--offline", "x"]));
    let plain = split_command_args(&strings(&["--offline", "--emit=obj"]));
    assert!(plain.offline);
    assert!(!plain.run_separator_seen);
    assert_eq!(plain.build_args, strings(&["--emit=obj"]));
    assert!(plain.run_args.is_empty());
}

#[test]
fn mode_flags_are_added() {
    let mut args = strings(&["a.wave"]);
    add_mode_flag(BuildMode::Build, &mut args);
    assert_eq!(args, strings(&["a.wave"]));
    add_mode_flag(BuildMode::Run, &mut args);
    assert_eq!(args, strings(&["a.wave", "--run"]));
    let mut args = strings(&[]);
    add_mode_flag(BuildMode::Check, &mut args);
    assert_eq!(args, strings(&["--emit=check"]));
}

#[test]
fn default_input_prefers_the_entry_then_sorted_sources() {
    let preferred = "src/main.wave".to_string();
    let files = vec![
        WaveFile { path: "src/b.wave".to_string(), has_main: true },
        WaveFile { path: "src/a.wave".to_string(), has_main: false },
        WaveFile { path: "src/c.wave".to_string(), has_main: true },
    ];
    assert_eq!(default_input(BuildMode::Build, false, &preferred, true, &files), Ok(preferred.clone()));
    assert_eq!(default_input(BuildMode::Build, false, &preferred, false, &files), Ok("src/a.wave".to_string()));
    assert_eq!(default_input(BuildMode::Run, false, &preferred, false, &files), Ok("src/b.wave".to_string()));
    assert_eq!(
        default_input(BuildMode::Run, true, &preferred, true, &files),
        Err("library manifest cannot be `vex run` default target. Pass an explicit .wave file.".to_string())
    );
    assert_eq!(
        default_input(BuildMode::Check, false, &preferred, false, &[]),
        Err("no default Wave input found. Expected `src/main.wave` or any `.wave` file in `src/`.".to_string())
    );
    let no_main = vec![WaveFile { path: "src/z.wave".to_string(), has_main: false }];
    assert_eq!(default_input(BuildMode::Run, false, &preferred, false, &no_main), Ok("src/z.wave".to_string()));
}

#[test]
fn main_declarations_are_found() {
    assert!(declares_main("fun main() {}"));
    assert!(declares_main("import(\"x\");\nfun main() {\n}"));
    assert!(!declares_main("fun greet() {}"));
    assert!(!declares_main("fun mainly() {}"));
}

#[test]
fn wavec_invocation_orders_its_parts() {
    let deps = strings(&["--dep-root=.vex/deps"]);
    assert_eq!(
        wavec_args(&deps, &strings(&["-v"]), &strings(&["a.wave", "--run"]), true, &strings(&["x"])),
        strings(&["--dep-root=.vex/deps", "-v", "build", "a.wave", "--run", "--", "x"])
    );
    assert_eq!(
        wavec_args(&deps, &[], &strings(&["a.wave"]), false, &[]),
        strings(&["--dep-root=.vex/deps", "build", "a.wave"])
    );
}

#[test]
fn help_is_recognised_only_alone() {
    assert!(help_only(&strings(&["--help"])));
    assert!(help_only(&strings(&["-h"])));
    assert!(!help_only(&strings(&["--help", "x"])));
    assert!(!help_only(&strings(&[])));
    assert!(!help_only(&strings(&["--locked"])));
}

#[test]
fn resolved_count_is_worded() {
    assert_eq!(resolved_count_text(1), "resolved 1 package");
    assert_eq!(resolved_count_text(0), "resolved 0 packages");
    assert_eq!(resolved_count_text(3), "resolved 3 packages");
}
