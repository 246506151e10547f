use vex::validate::{collect_inputs, validate_build_invocation, BuildValidationRequest};

fn strings(values: &[&str]) -> Vec<String> {
    values.iter().map(|value| value.to_string()).collect()
}

fn validate(build_args: &[&str]) -> Result<(), String> {
    let build_args = strings(build_args);
    let inputs = collect_inputs(&build_args);
    validate_build_invocation(BuildValidationRequest {
        inputs: &inputs,
        build_args: &build_args,
        run_args: &[],
        run_separator_seen: false,
        global_args: &[],
    })
}

#[test]
fn archive_inputs_follow_wavec_contract() {
    validate(&["src/main.wave", "native.o", "libnative.a", "--emit=obj,bin"])
        .expect("mixed Wave/object/archive input must be accepted");
    validate(&["libnative.a", "--link-only", "--emit=bin"]).expect("archive input must be link-ready");
    validate(&["libnative.a", "--input-type=archive", "--link-only", "--emit=bin"])
        .expect("forced archive input type must be accepted");
    validate(&["libnative.a", "--input-type=lib", "--link-only", "--emit=bin"])
        .expect("lib must be accepted as an archive alias");
}

#[test]
fn obj_emit_rejects_only_link_ready_inputs() {
    let err = validate(&["native.o", "libnative.a", "--emit=obj"])
        .expect_err("obj emit cannot transform link-ready inputs into another object");
    assert!(err.contains("requires at least one compilable input"), "{err}");
}

#[test]
fn check_and_run_conflicts_are_preflighted() {
    let err = validate(&["src/main.wave", "--emit=check,ast"]).expect_err("check must be a standalone control mode");
    assert!(err.contains("check"), "{err}");

    let build_args = strings(&["src/main.wave", "--emit=obj"]);
    let inputs = collect_inputs(&build_args);
    let run_args = strings(&["arg"]);
    let err = validate_build_invocation(BuildValidationRequest {
        inputs: &inputs,
        build_args: &build_args,
        run_args: &run_args,
        run_separator_seen: true,
        global_args: &[],
    })
    .expect_err("run args require --run");
    assert!(err.contains("--run"), "{err}");
}

#[test]
fn relocation_conflicts_match_wavec_rules() {
    let build_args = strings(&["src/main.wave", "--no-pie"]);
    let inputs = collect_inputs(&build_args);
    let global_args = strings(&["-C", "relocation-model=pie"]);
    let err = validate_build_invocation(BuildValidationRequest {
        inputs: &inputs,
        build_args: &build_args,
        run_args: &[],
        run_separator_seen: false,
        global_args: &global_args,
    })
    .expect_err("--no-pie conflicts with pie relocation model");
    assert!(err.contains("relocation-model=pie"), "{err}");
}

#[test]
fn collect_inputs_skips_options_and_their_values() {
    let args = strings(&["a.wave", "-o", "out", "--emit=bin", "-c", "b.o", "--", "c.wave"]);
    assert_eq!(collect_inputs(&args), strings(&["a.wave", "b.o"]));
}

#[test]
fn no_input_is_an_error() {
    assert_eq!(validate(&["--emit=bin"]), Err("build requires at least one input".to_string()));
}

#[test]
fn missing_emit_value_is_an_error() {
    let build_args = strings(&["a.wave", "--emit"]);
    let inputs = strings(&["a.wave"]);
    let err = validate_build_invocation(BuildValidationRequest {
        inputs: &inputs,
        build_args: &build_args,
        run_args: &[],
        run_separator_seen: false,
        global_args: &[],
    });
    assert_eq!(err, Err("missing value for `--emit`".to_string()));
}

#[test]
fn missing_input_type_value_is_an_error() {
    let build_args = strings(&["a.wave", "--input-type"]);
    let inputs = strings(&["a.wave"]);
    let err = validate_build_invocation(BuildValidationRequest {
        inputs: &inputs,
        build_args: &build_args,
        run_args: &[],
        run_separator_seen: false,
        global_args: &[],
    });
    assert_eq!(err, Err("missing value for `--input-type`".to_string()));
}

#[test]
fn unknown_emit_kind_is_named() {
    assert_eq!(validate(&["a.wave", "--emit=bin,exe"]), Err("unsupported emit kind: `exe`".to_string()));
}

#[test]
fn emit_list_is_trimmed() {
    assert_eq!(validate(&["a.wave", "--emit= obj , bin ,"]), Ok(()));
}

#[test]
fn unknown_input_type_is_named() {
    assert_eq!(
        validate(&["a.wave", "--input-type=java"]),
        Err("unsupported input type: `java`. expected wave, ir, bc, asm, obj, archive".to_string())
    );
}

#[test]
fn forced_type_is_case_and_space_insensitive() {
    assert_eq!(validate(&["A.WAVE", "--input-type", " Wave "]), Ok(()));
}

#[test]
fn conflicting_forced_type_is_named() {
    assert_eq!(
        validate(&["a.o", "--input-type=wave"]),
        Err("input `a.o` inferred type `obj` conflicts with `--input-type=wave`".to_string())
    );
}

#[test]
fn unknown_extension_needs_forced_type() {
    assert_eq!(
        validate(&["a.txt"]),
        Err("cannot infer input type for `a.txt`. use `--input-type=<wave,ir,bc,asm,obj,archive>`".to_string())
    );
}

#[test]
fn check_rejects_run_output_and_non_wave() {
    assert_eq!(
        validate(&["a.wave", "--emit=check", "--run"]),
        Err("`--emit=check` cannot be combined with `--run`".to_string())
    );
    assert_eq!(
        validate(&["a.wave", "--emit=check", "--link-only"]),
        Err("`--emit=check` cannot be combined with `--link-only`".to_string())
    );
    assert_eq!(
        validate(&["a.wave", "--emit=check", "-o", "x"]),
        Err("`--emit=check` cannot be combined with `-o/--output/--out-dir`".to_string())
    );
    assert_eq!(
        validate(&["a.wave", "b.ll", "--emit=check"]),
        Err("`--emit=check` accepts only `.wave` inputs".to_string())
    );
    assert_eq!(validate(&["a.wave", "--emit=check"]), Ok(()));
}

#[test]
fn link_only_rules() {
    assert_eq!(
        validate(&["a.o", "--link-only", "--emit=obj"]),
        Err("`--link-only` requires `--emit=bin`".to_string())
    );
    assert_eq!(
        validate(&["a.wave", "--link-only"]),
        Err("`--link-only` accepts only link-ready inputs (`.o`, `.obj`, `.a`)".to_string())
    );
}

#[test]
fn run_and_link_kind_rules() {
    assert_eq!(validate(&["a.wave", "--run", "--emit=obj"]), Err("`--run` requires `bin` emit".to_string()));
    assert_eq!(validate(&["a.wave", "--run", "--shared"]), Err("`--run` cannot be used with `--shared`".to_string()));
    assert_eq!(
        validate(&["a.wave", "--shared", "--static"]),
        Err("`--shared` and `--static` cannot be used together".to_string())
    );
    assert_eq!(
        validate(&["a.wave", "--pie", "--no-pie"]),
        Err("`--pie` and `--no-pie` cannot be used together".to_string())
    );
    assert_eq!(
        validate(&["a.wave", "--shared", "--pie"]),
        Err("`--shared` cannot be used with `--pie` or `--no-pie`".to_string())
    );
}

#[test]
fn relocation_model_rules() {
    assert_eq!(
        validate(&["a.wave", "--pie", "-Crelocation-model=static"]),
        Err("`--pie` allows only `-C relocation-model=pie`".to_string())
    );
    assert_eq!(
        validate(&["a.wave", "--shared", "-Crelocation-model=static"]),
        Err("`--shared` allows `-C relocation-model=pic|dynamic-no-pic` only".to_string())
    );
    assert_eq!(validate(&["a.wave", "--shared", "-Crelocation-model=pic"]), Ok(()));
    assert_eq!(
        validate(&["a.wave", "--shared", "-C", "relocation-model=pic"]),
        Err("cannot infer input type for `relocation-model=pic`. use `--input-type=<wave,ir,bc,asm,obj,archive>`".to_string())
    );
    assert_eq!(validate(&["a.wave", "-C"]), Err("missing value for `-C`".to_string()));
}

#[test]
fn link_stage_options_need_a_link() {
    assert_eq!(
        validate(&["a.wave", "--emit=obj", "--entry=start"]),
        Err("`--entry`, `--linker-script`, `--no-start-files` require a link stage".to_string())
    );
    assert_eq!(
        validate(&["a.wave", "-c", "--no-start-files"]),
        Err("`--entry`, `--linker-script`, `--no-start-files` require a link stage".to_string())
    );
}

#[test]
fn incompatible_emit_is_named() {
    assert_eq!(
        validate(&["a.ll", "--emit=ast"]),
        Err("no compatible input for emit `ast` with current input set".to_string())
    );
}

#[test]
fn run_args_without_separator_are_an_internal_error() {
    let build_args = strings(&["a.wave"]);
    let inputs = strings(&["a.wave"]);
    let run_args = strings(&["x"]);
    let err = validate_build_invocation(BuildValidationRequest {
        inputs: &inputs,
        build_args: &build_args,
        run_args: &run_args,
        run_separator_seen: false,
        global_args: &[],
    });
    assert_eq!(err, Err("internal error: run args provided without separator marker".to_string()));
}
