use vex::json::Json;
use vex::wavec::{
    build_failure_message, incompatible_wavec_message,
    classify_exit, combined_output, contains_dry_run_flag, dry_run_args, extract_json_object,
    insert_build_flag, validate_dry_run_json_output, validate_plan,
};

fn strings(values: &[&str]) -> Vec<String> {
    values.iter().map(|value| value.to_string()).collect()
}

fn valid_plan() -> &'static str {
    r#"{
            "schema_version": 1,
            "mode": "build",
            "target": "x86_64-unknown-linux-gnu",
            "emit": "bin",
            "emit_kinds": ["bin"],
            "control_mode": null,
            "forced_input_type": null,
            "inputs": [{"path":"src/main.wave","kind":"wave"}],
            "emit_jobs": [],
            "compile": [{"input":"src/main.wave","kind":"wave","output":"target/main.o","command":"wavec <internal>"}],
            "link": {"output":"target/main","inputs":["target/main.o"],"program":"ld.lld","args":["target/main.o"]},
            "execute": null
        }"#
}

#[test]
fn dry_run_schema_v1_is_validated() {
    validate_dry_run_json_output(valid_plan().as_bytes(), b"")
        .expect("schema v1 dry-run plan must be accepted");

    let missing_execute = valid_plan().replace(",\n            \"execute\": null", "");
    let err = validate_dry_run_json_output(missing_execute.as_bytes(), b"")
        .expect_err("execute is required by the v1 contract");
    assert!(err.contains("execute"), "{err}");

    let schema_two = valid_plan().replace("\"schema_version\": 1", "\"schema_version\": 2");
    let err = validate_dry_run_json_output(schema_two.as_bytes(), b"")
        .expect_err("unknown schema version must be rejected");
    assert!(err.contains("schema_version"), "{err}");
}

#[test]
fn dry_run_json_can_be_extracted_from_noisy_output() {
    let output = format!("debug line\n{}\n", valid_plan());
    validate_dry_run_json_output(output.as_bytes(), b"")
        .expect("JSON object should be extracted from mixed output");
}

#[test]
fn dry_run_errors_have_exact_messages() {
    let missing_execute = valid_plan().replace(",\n            \"execute\": null", "");
    assert_eq!(
        validate_dry_run_json_output(missing_execute.as_bytes(), b""),
        Err("dry-run JSON is missing key `execute`".to_string())
    );
    let schema_two = valid_plan().replace("\"schema_version\": 1", "\"schema_version\": 2");
    assert_eq!(
        validate_dry_run_json_output(schema_two.as_bytes(), b""),
        Err("unsupported wavec dry-run schema_version `2`; expected `1`".to_string())
    );
    let no_mode = valid_plan().replace("\"mode\": \"build\",", "");
    assert_eq!(
        validate_dry_run_json_output(no_mode.as_bytes(), b""),
        Err("dry-run JSON is missing string key `mode`".to_string())
    );
    let bad_control = valid_plan().replace("\"control_mode\": null", "\"control_mode\": 3");
    assert_eq!(
        validate_dry_run_json_output(bad_control.as_bytes(), b""),
        Err("dry-run JSON key `control_mode` must be string or null".to_string())
    );
    let bad_link = valid_plan().replace(
        "\"link\": {\"output\":\"target/main\",\"inputs\":[\"target/main.o\"],\"program\":\"ld.lld\",\"args\":[\"target/main.o\"]}",
        "\"link\": true",
    );
    assert_eq!(
        validate_dry_run_json_output(bad_link.as_bytes(), b""),
        Err("dry-run JSON key `link` must be object or null".to_string())
    );
}

#[test]
fn dry_run_without_a_plan_is_rejected() {
    assert_eq!(
        validate_dry_run_json_output(b"no plan here", b"still nothing"),
        Err("wavec dry-run did not return a JSON object plan".to_string())
    );
    let err = validate_dry_run_json_output(b"{ not json }", b"").unwrap_err();
    assert!(err.starts_with("invalid wavec dry-run JSON plan: "), "{err}");
}

#[test]
fn dry_run_plan_may_come_from_stderr() {
    assert_eq!(validate_dry_run_json_output(b"", valid_plan().as_bytes()), Ok(()));
}

#[test]
fn plan_checks_apply_to_parsed_values() {
    assert_eq!(
        validate_plan(&Json::Null),
        Err("wavec dry-run plan must be a JSON object".to_string())
    );
    assert_eq!(
        validate_plan(&Json::Object(vec![("schema_version".to_string(), Json::Number(None))])),
        Err("dry-run JSON is missing numeric key `schema_version`".to_string())
    );
    assert_eq!(
        validate_plan(&Json::Object(vec![("schema_version".to_string(), Json::Number(Some(1)))])),
        Err("dry-run JSON is missing string key `mode`".to_string())
    );
}

#[test]
fn json_object_is_cut_from_first_brace_to_last() {
    assert_eq!(extract_json_object("noise {\"a\": {}} tail"), Some("{\"a\": {}}".to_string()));
    assert_eq!(extract_json_object("no braces"), None);
    assert_eq!(extract_json_object("} before {"), None);
    assert_eq!(extract_json_object("{}"), Some("{}".to_string()));
}

#[test]
fn dry_run_flag_is_found_only_before_separator() {
    assert!(contains_dry_run_flag(&strings(&["a", "--dry-run"])));
    assert!(!contains_dry_run_flag(&strings(&["a", "--", "--dry-run"])));
    assert!(!contains_dry_run_flag(&strings(&[])));
}

#[test]
fn build_flags_go_before_run_arguments() {
    let mut args = strings(&["main.wave", "--", "x"]);
    insert_build_flag(&mut args, "--flag");
    assert_eq!(args, strings(&["main.wave", "--flag", "--", "x"]));
    let mut args = strings(&["main.wave"]);
    insert_build_flag(&mut args, "--flag");
    assert_eq!(args, strings(&["main.wave", "--flag"]));
}

#[test]
fn dry_run_arguments_add_dry_run_and_json_errors() {
    assert_eq!(
        dry_run_args(&strings(&["build", "--", "arg"])),
        strings(&["build", "--dry-run", "--error-format=json", "--", "arg"])
    );
    assert_eq!(
        dry_run_args(&strings(&["build", "--dry-run"])),
        strings(&["build", "--dry-run", "--error-format=json"])
    );
}

#[test]
fn exit_codes_are_classified() {
    assert_eq!(classify_exit(Some(0)), "success");
    assert_eq!(classify_exit(Some(1)), "compile/link/run failure");
    assert_eq!(classify_exit(Some(2)), "usage error");
    assert_eq!(classify_exit(Some(3)), "environment/toolchain/io failure");
    assert_eq!(classify_exit(Some(42)), "unknown failure code");
    assert_eq!(classify_exit(None), "terminated by signal");
}

#[test]
fn combined_output_trims_and_joins_streams() {
    assert_eq!(combined_output(b"  out \n", b"\terr\n"), "out\nerr");
    assert_eq!(combined_output(b"out", b"  "), "out");
    assert_eq!(combined_output(b"", b" err"), "err");
    assert_eq!(combined_output(b" ", b""), "<no output>");
    assert_eq!(combined_output(b"a\xffb", b""), "a\u{fffd}b");
}

#[test]
fn build_errors_are_worded() {
    assert_eq!(
        incompatible_wavec_message("bad plan"),
        "installed wavec is incompatible with Vex: bad plan\nhelp: update wavec or set VEX_WAVEC=/path/to/wavec"
    );
    assert_eq!(build_failure_message(false, "usage error"), "wavec build failed [usage error]");
    assert_eq!(build_failure_message(true, "usage error"), "wavec build dry-run failed [usage error]");
}
