//! Preflight checks of a `wavec build` invocation: which emit kinds, input
//! types, link and relocation options can go together.
use vstd::prelude::*;

use crate::text::{
    ascii_lower, cat, cat3, csv_items, ends_with, split_csv, starts_with, str_eq, strip_prefix,
    to_ascii_lowercase, trim, trim_str, views, opt_view,
};

verus! {

broadcast use vstd::string::group_string_axioms;

/// What a build invocation asks for.
#[derive(Debug)]
pub struct BuildValidationRequest<'a> {
    pub inputs: &'a [String],
    pub build_args: &'a [String],
    pub run_args: &'a [String],
    pub run_separator_seen: bool,
    pub global_args: &'a [String],
}

/// The options read from the build arguments, as values.
pub ghost struct ScanState {
    pub emit_kinds: Seq<Seq<char>>,
    pub forced_input_type: Option<Seq<char>>,
    pub link_only: bool,
    pub run: bool,
    pub has_output: bool,
    pub has_out_dir: bool,
    pub shared: bool,
    pub static_link: bool,
    pub pie: bool,
    pub no_pie: bool,
    pub compile_only: bool,
    pub has_entry: bool,
    pub has_linker_script: bool,
    pub has_no_start_files: bool,
}

/// Nothing read yet.
pub open spec fn scan_start() -> ScanState {
    ScanState {
        emit_kinds: Seq::empty(),
        forced_input_type: None,
        link_only: false,
        run: false,
        has_output: false,
        has_out_dir: false,
        shared: false,
        static_link: false,
        pie: false,
        no_pie: false,
        compile_only: false,
        has_entry: false,
        has_linker_script: false,
        has_no_start_files: false,
    }
}

/// The options after the plain flag `t`, if `t` is one.
pub open spec fn flag_set(t: Seq<char>, f: ScanState) -> Option<ScanState> {
    if t == "-c"@ {
        Some(ScanState { compile_only: true, ..f })
    } else if t == "--link-only"@ {
        Some(ScanState { link_only: true, ..f })
    } else if t == "--run"@ {
        Some(ScanState { run: true, ..f })
    } else if t == "--shared"@ {
        Some(ScanState { shared: true, ..f })
    } else if t == "--static"@ {
        Some(ScanState { static_link: true, ..f })
    } else if t == "--pie"@ {
        Some(ScanState { pie: true, ..f })
    } else if t == "--no-pie"@ {
        Some(ScanState { no_pie: true, ..f })
    } else if t == "--no-start-files"@ {
        Some(ScanState { has_no_start_files: true, ..f })
    } else {
        None
    }
}

/// The options that the build scan reads together with the next token.
pub open spec fn value_option(t: Seq<char>) -> bool {
    t == "-o"@ || t == "--output"@ || t == "--out-dir"@ || t == "--target-dir"@ || t
        == "--error-format"@ || t == "--emit"@ || t == "--input-type"@ || t == "--entry"@ || t
        == "--linker-script"@
}

/// The options after the option `t` with the value `v`.
pub open spec fn value_set(t: Seq<char>, v: Seq<char>, f: ScanState) -> ScanState {
    if t == "-o"@ || t == "--output"@ {
        ScanState { has_output: true, ..f }
    } else if t == "--out-dir"@ {
        ScanState { has_out_dir: true, ..f }
    } else if t == "--emit"@ {
        ScanState { emit_kinds: f.emit_kinds + csv_items(v), ..f }
    } else if t == "--input-type"@ {
        ScanState { forced_input_type: Some(v), ..f }
    } else if t == "--entry"@ {
        ScanState { has_entry: true, ..f }
    } else if t == "--linker-script"@ {
        ScanState { has_linker_script: true, ..f }
    } else {
        f
    }
}

/// The options after any other token: the `--option=value` forms, or nothing.
pub open spec fn inline_set(t: Seq<char>, f: ScanState) -> ScanState {
    if "--emit="@.is_prefix_of(t) {
        ScanState { emit_kinds: f.emit_kinds + csv_items(t.skip("--emit="@.len() as int)), ..f }
    } else if "--input-type="@.is_prefix_of(t) {
        ScanState { forced_input_type: Some(t.skip("--input-type="@.len() as int)), ..f }
    } else if "--output="@.is_prefix_of(t) {
        ScanState { has_output: true, ..f }
    } else if "--out-dir="@.is_prefix_of(t) {
        ScanState { has_out_dir: true, ..f }
    } else if "--entry="@.is_prefix_of(t) {
        ScanState { has_entry: true, ..f }
    } else if "--linker-script="@.is_prefix_of(t) {
        ScanState { has_linker_script: true, ..f }
    } else {
        f
    }
}

/// Reading the token at `i`: the index of the next token to read and the
/// options afterwards, or the error for an option whose value is missing.
pub open spec fn scan_step(args: Seq<Seq<char>>, i: int, f: ScanState) -> Result<(int, ScanState), Seq<char>> {
    let t = args[i];
    match flag_set(t, f) {
        Some(g) => Ok((i + 1, g)),
        None => if value_option(t) {
            if t == "--emit"@ && i + 1 >= args.len() {
                Err("missing value for `--emit`"@)
            } else if t == "--input-type"@ && i + 1 >= args.len() {
                Err("missing value for `--input-type`"@)
            } else {
                Ok((i + 2, value_set(t, args[i + 1], f)))
            }
        } else {
            Ok((i + 1, inline_set(t, f)))
        },
    }
}

/// Reading the tokens from `i` on, starting with the options `f`.
pub open spec fn scan(args: Seq<Seq<char>>, i: int, f: ScanState) -> Result<ScanState, Seq<char>>
    decreases args.len() - i,
{
    if i < 0 || i >= args.len() {
        Ok(f)
    } else {
        match scan_step(args, i, f) {
            Err(e) => Err(e),
            Ok((j, g)) => if i < j <= args.len() {
                scan(args, j, g)
            } else {
                Ok(g)
            },
        }
    }
}

/// The emit kinds that wavec knows.
pub open spec fn known_emit(k: Seq<char>) -> bool {
    k == "check"@ || k == "ast"@ || k == "ir"@ || k == "bc"@ || k == "asm"@ || k == "obj"@ || k
        == "bin"@
}

/// The first emit kind that wavec does not know.
pub open spec fn first_unknown_emit(emits: Seq<Seq<char>>) -> Option<Seq<char>>
    decreases emits.len(),
{
    if emits.len() == 0 {
        None
    } else if !known_emit(emits[0]) {
        Some(emits[0])
    } else {
        first_unknown_emit(emits.drop_first())
    }
}

/// The input type an explicit `--input-type` value stands for.
pub open spec fn normalize_type(kind: Seq<char>) -> Result<Seq<char>, Seq<char>> {
    let k = ascii_lower(trim(kind));
    if k == "wave"@ {
        Ok("wave"@)
    } else if k == "ir"@ {
        Ok("ir"@)
    } else if k == "bc"@ {
        Ok("bc"@)
    } else if k == "asm"@ {
        Ok("asm"@)
    } else if k == "obj"@ {
        Ok("obj"@)
    } else if k == "archive"@ || k == "lib"@ {
        Ok("archive"@)
    } else {
        Err("unsupported input type: `"@ + kind + "`. expected wave, ir, bc, asm, obj, archive"@)
    }
}

/// The input type that a file name's extension shows, in any letter case.
pub open spec fn infer_type(input: Seq<char>) -> Option<Seq<char>> {
    let l = ascii_lower(input);
    if ".wave"@.is_suffix_of(l) {
        Some("wave"@)
    } else if ".ll"@.is_suffix_of(l) || ".ir"@.is_suffix_of(l) {
        Some("ir"@)
    } else if ".bc"@.is_suffix_of(l) {
        Some("bc"@)
    } else if ".s"@.is_suffix_of(l) || ".asm"@.is_suffix_of(l) {
        Some("asm"@)
    } else if ".o"@.is_suffix_of(l) || ".obj"@.is_suffix_of(l) {
        Some("obj"@)
    } else if ".a"@.is_suffix_of(l) {
        Some("archive"@)
    } else {
        None
    }
}

/// The type of one input, given the normalized forced type if there is one.
pub open spec fn resolve_one(input: Seq<char>, forced: Option<Seq<char>>) -> Result<Seq<char>, Seq<char>> {
    match forced {
        Some(f) => match infer_type(input) {
            Some(found) => if f != found {
                Err(
                    "input `"@ + input + "` inferred type `"@ + found
                        + "` conflicts with `--input-type="@ + f + "`"@,
                )
            } else {
                Ok(f)
            },
            None => Ok(f),
        },
        None => match infer_type(input) {
            Some(found) => Ok(found),
            None => Err(
                "cannot infer input type for `"@ + input
                    + "`. use `--input-type=<wave,ir,bc,asm,obj,archive>`"@,
            ),
        },
    }
}

/// The types of all inputs, or the error of the first that has none.
pub open spec fn resolve_each(inputs: Seq<Seq<char>>, forced: Option<Seq<char>>) -> Result<Seq<Seq<char>>, Seq<char>>
    decreases inputs.len(),
{
    if inputs.len() == 0 {
        Ok(Seq::empty())
    } else {
        match resolve_each(inputs.drop_last(), forced) {
            Err(e) => Err(e),
            Ok(ts) => match resolve_one(inputs.last(), forced) {
                Err(e) => Err(e),
                Ok(t) => Ok(ts.push(t)),
            },
        }
    }
}

/// The input types, after the forced type (if any) is normalized.
pub open spec fn resolve_types(inputs: Seq<Seq<char>>, forced: Option<Seq<char>>) -> Result<Seq<Seq<char>>, Seq<char>> {
    match forced {
        Some(k) => match normalize_type(k) {
            Err(e) => Err(e),
            Ok(f) => resolve_each(inputs, Some(f)),
        },
        None => resolve_each(inputs, None),
    }
}

/// Inputs that only the linker reads.
pub open spec fn link_ready(kind: Seq<char>) -> bool {
    kind == "obj"@ || kind == "archive"@
}

/// Whether some input can produce the emit kind `emit`.
pub open spec fn compatible(emit: Seq<char>, types: Seq<Seq<char>>) -> bool {
    if emit == "check"@ || emit == "ast"@ {
        types.contains("wave"@)
    } else if emit == "ir"@ {
        types.contains("wave"@) || types.contains("ir"@)
    } else if emit == "bc"@ {
        types.contains("wave"@) || types.contains("ir"@) || types.contains("bc"@)
    } else if emit == "asm"@ || emit == "obj"@ {
        types.contains("wave"@) || types.contains("ir"@) || types.contains("bc"@) || types.contains(
            "asm"@,
        )
    } else if emit == "bin"@ {
        types.contains("wave"@) || types.contains("ir"@) || types.contains("bc"@) || types.contains(
            "asm"@,
        ) || types.contains("obj"@) || types.contains("archive"@)
    } else {
        false
    }
}

/// The first emit kind that no input can produce.
pub open spec fn first_incompatible(emits: Seq<Seq<char>>, types: Seq<Seq<char>>) -> Option<Seq<char>>
    decreases emits.len(),
{
    if emits.len() == 0 {
        None
    } else if !compatible(emits[0], types) {
        Some(emits[0])
    } else {
        first_incompatible(emits.drop_first(), types)
    }
}

/// The relocation model that a `-C` value sets, if it sets one.
pub open spec fn set_model(value: Seq<char>, model: Option<Seq<char>>) -> Option<Seq<char>> {
    if "relocation-model="@.is_prefix_of(value) {
        Some(value.skip("relocation-model="@.len() as int))
    } else {
        model
    }
}

/// Reading `-C` options from `i` on: the last relocation model set.
pub open spec fn codegen_scan(args: Seq<Seq<char>>, i: int, model: Option<Seq<char>>) -> Result<Option<Seq<char>>, Seq<char>>
    decreases args.len() - i,
{
    if i < 0 || i >= args.len() {
        Ok(model)
    } else if args[i] == "-C"@ {
        if i + 1 >= args.len() {
            Err("missing value for `-C`"@)
        } else {
            codegen_scan(args, i + 2, set_model(args[i + 1], model))
        }
    } else if "-C"@.is_prefix_of(args[i]) {
        codegen_scan(args, i + 1, set_model(args[i].skip("-C"@.len() as int), model))
    } else {
        codegen_scan(args, i + 1, model)
    }
}

/// The relocation model of the global arguments, then the build arguments.
pub open spec fn relocation_model(global: Seq<Seq<char>>, build: Seq<Seq<char>>) -> Result<Option<Seq<char>>, Seq<char>> {
    match codegen_scan(global, 0, None) {
        Err(e) => Err(e),
        Ok(m) => codegen_scan(build, 0, m),
    }
}

/// The emit kinds asked for, `bin` when none is.
pub open spec fn effective_emits(f: ScanState) -> Seq<Seq<char>> {
    if f.emit_kinds.len() == 0 {
        seq!["bin"@]
    } else {
        f.emit_kinds
    }
}

/// The checks on `--emit=check`.
pub open spec fn check_mode_result(f: ScanState, emits: Seq<Seq<char>>, types: Seq<Seq<char>>) -> Result<(), Seq<char>> {
    if !emits.contains("check"@) {
        Ok(())
    } else if emits.len() != 1 {
        Err("`check` emit must be used alone"@)
    } else if f.run {
        Err("`--emit=check` cannot be combined with `--run`"@)
    } else if f.link_only {
        Err("`--emit=check` cannot be combined with `--link-only`"@)
    } else if f.has_output || f.has_out_dir {
        Err("`--emit=check` cannot be combined with `-o/--output/--out-dir`"@)
    } else if exists|j: int| 0 <= j < types.len() && types[j] != "wave"@ {
        Err("`--emit=check` accepts only `.wave` inputs"@)
    } else {
        Ok(())
    }
}

/// The checks on `--link-only` and on an object emit from link-ready inputs.
pub open spec fn link_result(f: ScanState, emits: Seq<Seq<char>>, types: Seq<Seq<char>>) -> Result<(), Seq<char>> {
    if f.link_only && (emits.len() != 1 || emits[0] != "bin"@) {
        Err("`--link-only` requires `--emit=bin`"@)
    } else if f.link_only && exists|j: int| 0 <= j < types.len() && !link_ready(types[j]) {
        Err("`--link-only` accepts only link-ready inputs (`.o`, `.obj`, `.a`)"@)
    } else if emits.len() == 1 && emits[0] == "obj"@ && forall|j: int|
        0 <= j < types.len() ==> link_ready(types[j]) {
        Err(
            "`--emit=obj` requires at least one compilable input (`.wave`, `.ll/.ir`, `.bc`, `.s/.asm`)"@,
        )
    } else {
        Ok(())
    }
}

/// The checks on running and on the kind of link.
pub open spec fn mode_result(f: ScanState, emits: Seq<Seq<char>>, run_separator_seen: bool) -> Result<(), Seq<char>> {
    if f.run && !emits.contains("bin"@) {
        Err("`--run` requires `bin` emit"@)
    } else if run_separator_seen && !f.run {
        Err("run arguments after `--` require `--run`"@)
    } else if f.shared && f.run {
        Err("`--run` cannot be used with `--shared`"@)
    } else if f.shared && f.static_link {
        Err("`--shared` and `--static` cannot be used together"@)
    } else if f.pie && f.no_pie {
        Err("`--pie` and `--no-pie` cannot be used together"@)
    } else if f.shared && (f.pie || f.no_pie) {
        Err("`--shared` cannot be used with `--pie` or `--no-pie`"@)
    } else {
        Ok(())
    }
}

/// The checks of the relocation model against `--pie`, `--no-pie` and `--shared`.
pub open spec fn model_result(f: ScanState, model: Option<Seq<char>>) -> Result<(), Seq<char>> {
    if f.pie && model is Some && model->0 != "pie"@ {
        Err("`--pie` allows only `-C relocation-model=pie`"@)
    } else if f.no_pie && model == Some("pie"@) {
        Err("`--no-pie` cannot be used with `-C relocation-model=pie`"@)
    } else if f.shared && model is Some && model->0 != "pic"@ && model->0 != "dynamic-no-pic"@ {
        Err("`--shared` allows `-C relocation-model=pic|dynamic-no-pic` only"@)
    } else {
        Ok(())
    }
}

/// The checks that come after the relocation model: link-stage options,
/// emit/input compatibility, and run arguments.
pub open spec fn final_result(f: ScanState, emits: Seq<Seq<char>>, types: Seq<Seq<char>>, run_args: Seq<Seq<char>>, run_separator_seen: bool) -> Result<(), Seq<char>> {
    let has_link_step = f.link_only || (emits.contains("bin"@) && !f.compile_only);
    if (f.has_entry || f.has_linker_script || f.has_no_start_files) && !has_link_step {
        Err("`--entry`, `--linker-script`, `--no-start-files` require a link stage"@)
    } else if first_incompatible(emits, types) is Some {
        Err(
            "no compatible input for emit `"@ + first_incompatible(emits, types)->0
                + "` with current input set"@,
        )
    } else if run_args.len() > 0 && !run_separator_seen {
        Err("internal error: run args provided without separator marker"@)
    } else {
        Ok(())
    }
}

/// The result of `validate_build_invocation` on the given values.
pub open spec fn validation(inputs: Seq<Seq<char>>, build_args: Seq<Seq<char>>, run_args: Seq<Seq<char>>, run_separator_seen: bool, global_args: Seq<Seq<char>>) -> Result<(), Seq<char>> {
    if inputs.len() == 0 {
        Err("build requires at least one input"@)
    } else {
        match scan(build_args, 0, scan_start()) {
            Err(e) => Err(e),
            Ok(f) => {
                let emits = effective_emits(f);
                if first_unknown_emit(emits) is Some {
                    Err("unsupported emit kind: `"@ + first_unknown_emit(emits)->0 + "`"@)
                } else {
                    match resolve_types(inputs, f.forced_input_type) {
                        Err(e) => Err(e),
                        Ok(types) => {
                            if check_mode_result(f, emits, types) is Err {
                                check_mode_result(f, emits, types)
                            } else if link_result(f, emits, types) is Err {
                                link_result(f, emits, types)
                            } else if mode_result(f, emits, run_separator_seen) is Err {
                                mode_result(f, emits, run_separator_seen)
                            } else {
                                match relocation_model(global_args, build_args) {
                                    Err(e) => Err(e),
                                    Ok(model) => if model_result(f, model) is Err {
                                        model_result(f, model)
                                    } else {
                                        final_result(f, emits, types, run_args, run_separator_seen)
                                    },
                                }
                            }
                        },
                    }
                }
            },
        }
    }
}

/// Whether `token` is an option that takes the next token as its value.
pub open spec fn takes_value(t: Seq<char>) -> bool {
    t == "-o"@ || t == "--output"@ || t == "--out-dir"@ || t == "--target-dir"@ || t == "--emit"@
        || t == "--input-type"@ || t == "--error-format"@ || t == "--entry"@ || t
        == "--linker-script"@
}

/// Whether `token` is an option written with its value after `=`.
pub open spec fn has_inline_value(t: Seq<char>) -> bool {
    "--output="@.is_prefix_of(t) || "--out-dir="@.is_prefix_of(t) || "--target-dir="@.is_prefix_of(t)
        || "--emit="@.is_prefix_of(t) || "--input-type="@.is_prefix_of(t)
        || "--error-format="@.is_prefix_of(t) || "--entry="@.is_prefix_of(t)
        || "--linker-script="@.is_prefix_of(t)
}

/// The inputs among the build arguments from `i` on, up to a `--`.
pub open spec fn inputs_from(args: Seq<Seq<char>>, i: int) -> Seq<Seq<char>>
    decreases args.len() + 1 - i,
{
    if i < 0 || i >= args.len() || args[i] == "--"@ {
        Seq::empty()
    } else if takes_value(args[i]) {
        inputs_from(args, i + 2)
    } else if has_inline_value(args[i]) || (args[i].len() > 0 && args[i][0] == '-') {
        inputs_from(args, i + 1)
    } else {
        seq![args[i]] + inputs_from(args, i + 1)
    }
}

/// The options read so far, held as executable values.
pub struct BuildFlags {
    pub emit_kinds: Vec<String>,
    pub forced_input_type: Option<String>,
    pub link_only: bool,
    pub run: bool,
    pub has_output: bool,
    pub has_out_dir: bool,
    pub shared: bool,
    pub static_link: bool,
    pub pie: bool,
    pub no_pie: bool,
    pub compile_only: bool,
    pub has_entry: bool,
    pub has_linker_script: bool,
    pub has_no_start_files: bool,
}

impl View for BuildFlags {
    type V = ScanState;

    open spec fn view(&self) -> ScanState {
        ScanState {
            emit_kinds: views(self.emit_kinds@),
            forced_input_type: match self.forced_input_type {
                Some(s) => Some(s@),
                None => None,
            },
            link_only: self.link_only,
            run: self.run,
            has_output: self.has_output,
            has_out_dir: self.has_out_dir,
            shared: self.shared,
            static_link: self.static_link,
            pie: self.pie,
            no_pie: self.no_pie,
            compile_only: self.compile_only,
            has_entry: self.has_entry,
            has_linker_script: self.has_linker_script,
            has_no_start_files: self.has_no_start_files,
        }
    }
}

proof fn lemma_views_add(a: Seq<String>, b: Seq<String>)
    ensures
        views(a + b) == views(a) + views(b),
{
    assert(views(a + b) =~= views(a) + views(b));
}

proof fn lemma_views_push(a: Seq<String>, b: String)
    ensures
        views(a.push(b)) == views(a).push(b@),
{
    assert(views(a.push(b)) =~= views(a).push(b@));
}

/// Sets the plain flag `token`; false when `token` is not one.
fn set_flag(token: &str, flags: &mut BuildFlags) -> (r: bool)
    ensures
        match flag_set(token@, old(flags)@) {
            Some(g) => r && final(flags)@ == g,
            None => !r && *final(flags) == *old(flags),
        },
{
    if str_eq(token, "-c") {
        flags.compile_only = true;
    } else if str_eq(token, "--link-only") {
        flags.link_only = true;
    } else if str_eq(token, "--run") {
        flags.run = true;
    } else if str_eq(token, "--shared") {
        flags.shared = true;
    } else if str_eq(token, "--static") {
        flags.static_link = true;
    } else if str_eq(token, "--pie") {
        flags.pie = true;
    } else if str_eq(token, "--no-pie") {
        flags.no_pie = true;
    } else if str_eq(token, "--no-start-files") {
        flags.has_no_start_files = true;
    } else {
        return false;
    }
    true
}

/// Whether `token` takes the next token as its value.
fn is_value_option(token: &str) -> (r: bool)
    ensures
        r == value_option(token@),
{
    str_eq(token, "-o") || str_eq(token, "--output") || str_eq(token, "--out-dir") || str_eq(
        token,
        "--target-dir",
    ) || str_eq(token, "--error-format") || str_eq(token, "--emit") || str_eq(
        token,
        "--input-type",
    ) || str_eq(token, "--entry") || str_eq(token, "--linker-script")
}

/// Appends the comma-separated emit kinds of `value`.
fn add_emit_kinds(value: &str, flags: &mut BuildFlags)
    ensures
        final(flags)@ == (ScanState { emit_kinds: old(flags)@.emit_kinds + csv_items(value@), ..old(flags)@ }),
{
    let mut kinds = split_csv(value);
    let ghost before = flags.emit_kinds@;
    let ghost added = kinds@;
    flags.emit_kinds.append(&mut kinds);
    proof {
        lemma_views_add(before, added);
    }
}

/// Records the option `token` with the value `value`.
fn set_value(token: &str, value: &String, flags: &mut BuildFlags)
    ensures
        final(flags)@ == value_set(token@, value@, old(flags)@),
{
    if str_eq(token, "-o") || str_eq(token, "--output") {
        flags.has_output = true;
    } else if str_eq(token, "--out-dir") {
        flags.has_out_dir = true;
    } else if str_eq(token, "--emit") {
        add_emit_kinds(value.as_str(), flags);
    } else if str_eq(token, "--input-type") {
        flags.forced_input_type = Some(value.clone());
    } else if str_eq(token, "--entry") {
        flags.has_entry = true;
    } else if str_eq(token, "--linker-script") {
        flags.has_linker_script = true;
    }
}

/// Records `token` if it is an option written as `--option=value`.
fn set_inline(token: &str, flags: &mut BuildFlags)
    ensures
        final(flags)@ == inline_set(token@, old(flags)@),
{
    if let Some(value) = strip_prefix(token, "--emit=") {
        add_emit_kinds(value.as_str(), flags);
    } else if let Some(value) = strip_prefix(token, "--input-type=") {
        flags.forced_input_type = Some(value);
    } else if starts_with(token, "--output=") {
        flags.has_output = true;
    } else if starts_with(token, "--out-dir=") {
        flags.has_out_dir = true;
    } else if starts_with(token, "--entry=") {
        flags.has_entry = true;
    } else if starts_with(token, "--linker-script=") {
        flags.has_linker_script = true;
    }
}

/// Reads the token at `i` into `flags`; returns the index of the next token.
fn scan_token(args: &[String], i: usize, flags: &mut BuildFlags) -> (r: Result<usize, String>)
    requires
        i < args@.len(),
    ensures
        match scan_step(views(args@), i as int, old(flags)@) {
            Err(e) => r matches Err(m) && m@ == e,
            Ok((j, g)) => r matches Ok(k) && i < k && k == (if j <= args@.len() { j } else { args@.len() as int }) && final(flags)@ == g,
        },
{
    let ghost a = views(args@);
    let token = args[i].as_str();
    assert(token@ == a[i as int]);
    if set_flag(token, flags) {
        return Ok(i + 1);
    }
    if is_value_option(token) {
        if i + 1 >= args.len() {
            if str_eq(token, "--emit") {
                return Err("missing value for `--emit`".to_string());
            }
            if str_eq(token, "--input-type") {
                return Err("missing value for `--input-type`".to_string());
            }
            set_value(token, &args[i], flags);
            return Ok(args.len());
        }
        assert(args@[i + 1]@ == a[i + 1]);
        set_value(token, &args[i + 1], flags);
        return Ok(i + 2);
    }
    set_inline(token, flags);
    Ok(i + 1)
}

/// Reads every build argument into a fresh set of options.
fn scan_args(args: &[String]) -> (r: Result<BuildFlags, String>)
    ensures
        match scan(views(args@), 0, scan_start()) {
            Err(e) => r matches Err(m) && m@ == e,
            Ok(g) => r matches Ok(fl) && fl@ == g,
        },
{
    let mut flags = BuildFlags {
        emit_kinds: Vec::new(),
        forced_input_type: None,
        link_only: false,
        run: false,
        has_output: false,
        has_out_dir: false,
        shared: false,
        static_link: false,
        pie: false,
        no_pie: false,
        compile_only: false,
        has_entry: false,
        has_linker_script: false,
        has_no_start_files: false,
    };
    assert(flags@ == scan_start()) by {
        assert(views(flags.emit_kinds@) =~= Seq::<Seq<char>>::empty());
    }
    let ghost a = views(args@);
    let mut i: usize = 0;
    while i < args.len()
        invariant
            a == views(args@),
            a.len() == args@.len(),
            scan(a, i as int, flags@) == scan(a, 0, scan_start()),
        decreases args.len() - i,
    {
        let ghost before = flags@;
        match scan_token(args, i, &mut flags) {
            Err(e) => {
                return Err(e);
            },
            Ok(next) => {
                i = next;
            },
        }
    }
    Ok(flags)
}

/// Whether `kind` is an emit kind that wavec knows.
fn is_known_emit(kind: &str) -> (r: bool)
    ensures
        r == known_emit(kind@),
{
    str_eq(kind, "check") || str_eq(kind, "ast") || str_eq(kind, "ir") || str_eq(kind, "bc")
        || str_eq(kind, "asm") || str_eq(kind, "obj") || str_eq(kind, "bin")
}

/// Whether `v` holds `s`.
fn contains_str(v: &[String], s: &str) -> (r: bool)
    ensures
        r == views(v@).contains(s@),
{
    let mut i: usize = 0;
    while i < v.len()
        invariant
            0 <= i <= v@.len(),
            forall|j: int| 0 <= j < i ==> v@[j]@ != s@,
        decreases v.len() - i,
    {
        if str_eq(v[i].as_str(), s) {
            assert(views(v@)[i as int] == s@);
            return true;
        }
        i += 1;
    }
    assert forall|j: int| 0 <= j < views(v@).len() implies views(v@)[j] != s@ by {
        assert(views(v@)[j] == v@[j]@);
    }
    false
}

/// The type that `--input-type` names: `lib` is `archive`; case and
/// surrounding white space do not matter.
fn normalize_input_type(kind: &str) -> (r: Result<String, String>)
    ensures
        match normalize_type(kind@) {
            Ok(t) => r matches Ok(s) && s@ == t,
            Err(e) => r matches Err(m) && m@ == e,
        },
{
    let trimmed = trim_str(kind);
    let k = to_ascii_lowercase(trimmed.as_str());
    let k = k.as_str();
    if str_eq(k, "wave") {
        Ok("wave".to_string())
    } else if str_eq(k, "ir") {
        Ok("ir".to_string())
    } else if str_eq(k, "bc") {
        Ok("bc".to_string())
    } else if str_eq(k, "asm") {
        Ok("asm".to_string())
    } else if str_eq(k, "obj") {
        Ok("obj".to_string())
    } else if str_eq(k, "archive") || str_eq(k, "lib") {
        Ok("archive".to_string())
    } else {
        Err(cat3("unsupported input type: `", kind, "`. expected wave, ir, bc, asm, obj, archive"))
    }
}

/// The input type that the extension of `input` shows.
fn infer_input_type(input: &str) -> (r: Option<&'static str>)
    ensures
        match infer_type(input@) {
            Some(t) => r matches Some(s) && s@ == t,
            None => r is None,
        },
{
    let lower = to_ascii_lowercase(input);
    let l = lower.as_str();
    if ends_with(l, ".wave") {
        Some("wave")
    } else if ends_with(l, ".ll") || ends_with(l, ".ir") {
        Some("ir")
    } else if ends_with(l, ".bc") {
        Some("bc")
    } else if ends_with(l, ".s") || ends_with(l, ".asm") {
        Some("asm")
    } else if ends_with(l, ".o") || ends_with(l, ".obj") {
        Some("obj")
    } else if ends_with(l, ".a") {
        Some("archive")
    } else {
        None
    }
}

/// The type of one input.
fn resolve_input_type(input: &str, forced: &Option<String>) -> (r: Result<String, String>)
    ensures
        match resolve_one(input@, opt_view(*forced)) {
            Ok(t) => r matches Ok(s) && s@ == t,
            Err(e) => r matches Err(m) && m@ == e,
        },
{
    let inferred = infer_input_type(input);
    match forced {
        Some(f) => match inferred {
            Some(found) => {
                if !str_eq(f.as_str(), found) {
                    let mut m = cat3("input `", input, "` inferred type `");
                    m.append(found);
                    m.append("` conflicts with `--input-type=");
                    m.append(f.as_str());
                    m.append("`");
                    Err(m)
                } else {
                    Ok(f.clone())
                }
            },
            None => Ok(f.clone()),
        },
        None => match inferred {
            Some(found) => Ok(found.to_string()),
            None => Err(
                cat3(
                    "cannot infer input type for `",
                    input,
                    "`. use `--input-type=<wave,ir,bc,asm,obj,archive>`",
                ),
            ),
        },
    }
}

/// The type of every input: the forced type where one is given, else the
/// type its extension shows.
fn resolve_input_types(inputs: &[String], forced_input_type: &Option<String>) -> (r: Result<Vec<String>, String>)
    ensures
        match resolve_types(views(inputs@), opt_view(*forced_input_type)) {
            Ok(ts) => r matches Ok(v) && views(v@) == ts,
            Err(e) => r matches Err(m) && m@ == e,
        },
{
    let ghost ins = views(inputs@);
    let forced: Option<String> = match forced_input_type {
        Some(k) => match normalize_input_type(k.as_str()) {
            Ok(t) => Some(t),
            Err(e) => {
                return Err(e);
            },
        },
        None => None,
    };
    let ghost fv = opt_view(forced);
    let mut types: Vec<String> = Vec::new();
    let mut i: usize = 0;
    assert(ins.take(0) =~= Seq::<Seq<char>>::empty());
    assert(views(types@) =~= Seq::<Seq<char>>::empty());
    assert(resolve_types(ins, opt_view(*forced_input_type)) == resolve_each(ins, fv));
    while i < inputs.len()
        invariant
            ins == views(inputs@),
            0 <= i <= inputs@.len(),
            fv == opt_view(forced),
            resolve_types(ins, opt_view(*forced_input_type)) == resolve_each(ins, fv),
            resolve_each(ins.take(i as int), fv) == Ok::<Seq<Seq<char>>, Seq<char>>(views(types@)),
        decreases inputs.len() - i,
    {
        assert(ins.take(i + 1).drop_last() == ins.take(i as int));
        assert(ins.take(i + 1).last() == inputs@[i as int]@);
        match resolve_input_type(inputs[i].as_str(), &forced) {
            Ok(t) => {
                let ghost before = types@;
                types.push(t);
                proof {
                    lemma_views_push(before, types@.last());
                    assert(before.push(types@.last()) == types@);
                }
            },
            Err(e) => {
                proof {
                    assert(resolve_each(ins.take(i + 1), fv) == Err::<Seq<Seq<char>>, Seq<char>>(e@));
                    lemma_resolve_each_err_extends(ins, i as int + 1, fv);
                }
                return Err(e);
            },
        }
        i += 1;
    }
    assert(ins.take(inputs@.len() as int) == ins);
    Ok(types)
}

proof fn lemma_resolve_each_err_extends(ins: Seq<Seq<char>>, k: int, forced: Option<Seq<char>>)
    requires
        0 <= k <= ins.len(),
        resolve_each(ins.take(k), forced) is Err,
    ensures
        resolve_each(ins, forced) == resolve_each(ins.take(k), forced),
    decreases ins.len() - k,
{
    if k < ins.len() {
        assert(ins.take(k + 1).drop_last() == ins.take(k));
        lemma_resolve_each_err_extends(ins, k + 1, forced);
    } else {
        assert(ins.take(k) == ins);
    }
}

/// Whether some input can produce the emit kind `emit`.
fn has_compatible_input(emit: &str, input_types: &[String]) -> (r: bool)
    ensures
        r == compatible(emit@, views(input_types@)),
{
    let has_wave = contains_str(input_types, "wave");
    let has_ir = contains_str(input_types, "ir");
    let has_bc = contains_str(input_types, "bc");
    let has_asm = contains_str(input_types, "asm");
    if str_eq(emit, "check") || str_eq(emit, "ast") {
        has_wave
    } else if str_eq(emit, "ir") {
        has_wave || has_ir
    } else if str_eq(emit, "bc") {
        has_wave || has_ir || has_bc
    } else if str_eq(emit, "asm") || str_eq(emit, "obj") {
        has_wave || has_ir || has_bc || has_asm
    } else if str_eq(emit, "bin") {
        has_wave || has_ir || has_bc || has_asm || contains_str(input_types, "obj") || contains_str(
            input_types,
            "archive",
        )
    } else {
        false
    }
}

/// Whether only the linker reads an input of type `kind`.
fn is_link_ready_input(kind: &str) -> (r: bool)
    ensures
        r == link_ready(kind@),
{
    str_eq(kind, "obj") || str_eq(kind, "archive")
}

/// Records the relocation model that the `-C` value `value` sets, if any.
fn maybe_set_relocation_model(value: &str, relocation_model: &mut Option<String>)
    ensures
        match *final(relocation_model) { Some(m) => Some(m@), None => None::<Seq<char>> }
            == set_model(value@, match *old(relocation_model) { Some(m) => Some(m@), None => None }),
{
    if let Some(model) = strip_prefix(value, "relocation-model=") {
        *relocation_model = Some(model);
    }
}

/// Reads the `-C` options of `args`, updating the relocation model.
fn parse_codegen_args(args: &[String], relocation_model: &mut Option<String>) -> (r: Result<(), String>)
    ensures
        match codegen_scan(views(args@), 0, opt_view(*old(relocation_model))) {
            Ok(m) => r is Ok && opt_view(*final(relocation_model)) == m,
            Err(e) => r matches Err(msg) && msg@ == e,
        },
{
    let ghost a = views(args@);
    let ghost start = opt_view(*relocation_model);
    let mut i: usize = 0;
    while i < args.len()
        invariant
            a == views(args@),
            start == opt_view(*old(relocation_model)),
            codegen_scan(a, i as int, opt_view(*relocation_model)) == codegen_scan(a, 0, start),
        decreases args.len() - i,
    {
        let token = args[i].as_str();
        assert(token@ == a[i as int]);
        if str_eq(token, "-C") {
            let ghost at = i as int;
            i += 1;
            if i >= args.len() {
                assert(codegen_scan(a, at, opt_view(*relocation_model)) == Err::<Option<Seq<char>>, Seq<char>>("missing value for `-C`"@));
                return Err("missing value for `-C`".to_string());
            }
            assert(args@[i as int]@ == a[i as int]);
            maybe_set_relocation_model(args[i].as_str(), relocation_model);
        } else if let Some(value) = strip_prefix(token, "-C") {
            maybe_set_relocation_model(value.as_str(), relocation_model);
        }
        i += 1;
    }
    Ok(())
}

/// The relocation model that the global and then the build arguments set last.
fn detect_relocation_model(global_args: &[String], build_args: &[String]) -> (r: Result<Option<String>, String>)
    ensures
        match relocation_model(views(global_args@), views(build_args@)) {
            Ok(m) => r matches Ok(o) && opt_view(o) == m,
            Err(e) => r matches Err(msg) && msg@ == e,
        },
{
    let mut model: Option<String> = None;
    parse_codegen_args(global_args, &mut model)?;
    parse_codegen_args(build_args, &mut model)?;
    Ok(model)
}

/// Whether `token` is an option that takes the next token as its value.
fn needs_value(token: &str) -> (r: bool)
    ensures
        r == takes_value(token@),
{
    str_eq(token, "-o") || str_eq(token, "--output") || str_eq(token, "--out-dir") || str_eq(
        token,
        "--target-dir",
    ) || str_eq(token, "--emit") || str_eq(token, "--input-type") || str_eq(
        token,
        "--error-format",
    ) || str_eq(token, "--entry") || str_eq(token, "--linker-script")
}

/// Whether `token` is an option written with its value after `=`.
fn is_option_with_inline_value(token: &str) -> (r: bool)
    ensures
        r == has_inline_value(token@),
{
    starts_with(token, "--output=") || starts_with(token, "--out-dir=") || starts_with(
        token,
        "--target-dir=",
    ) || starts_with(token, "--emit=") || starts_with(token, "--input-type=") || starts_with(
        token,
        "--error-format=",
    ) || starts_with(token, "--entry=") || starts_with(token, "--linker-script=")
}

/// The input files among the build arguments: the tokens before a `--` that
/// are neither options nor option values.
pub fn collect_inputs(build_args: &[String]) -> (r: Vec<String>)
    ensures
        views(r@) == inputs_from(views(build_args@), 0),
{
    let ghost a = views(build_args@);
    let mut inputs: Vec<String> = Vec::new();
    let mut i: usize = 0;
    assert(views(inputs@) =~= Seq::<Seq<char>>::empty());
    while i < build_args.len()
        invariant
            a == views(build_args@),
            views(inputs@) + inputs_from(a, i as int) == inputs_from(a, 0),
        decreases build_args.len() - i,
    {
        let token = build_args[i].as_str();
        assert(token@ == a[i as int]);
        if str_eq(token, "--") {
            assert(views(inputs@) + inputs_from(a, i as int) == views(inputs@));
            return inputs;
        }
        if needs_value(token) {
            if i + 1 >= build_args.len() {
                assert(inputs_from(a, i + 2) =~= Seq::<Seq<char>>::empty());
                assert(views(inputs@) + Seq::<Seq<char>>::empty() == views(inputs@));
                return inputs;
            }
            i += 2;
            continue;
        }
        if is_option_with_inline_value(token) {
            i += 1;
            continue;
        }
        let chars = crate::text::chars_of(token);
        if chars.len() > 0 && chars[0] == '-' {
            i += 1;
            continue;
        }
        let ghost before = inputs@;
        inputs.push(build_args[i].clone());
        proof {
            lemma_views_push(before, build_args@[i as int]);
            assert(views(inputs@) + inputs_from(a, i + 1) == views(before) + (seq![a[i as int]] + inputs_from(a, i + 1)));
        }
        i += 1;
    }
    assert(views(inputs@) + inputs_from(a, i as int) == views(inputs@));
    inputs
}

/// The first emit kind in `kinds` that wavec does not know.
fn find_unknown_emit(kinds: &[String]) -> (r: Option<usize>)
    ensures
        match first_unknown_emit(views(kinds@)) {
            Some(k) => r matches Some(i) && i < kinds@.len() && kinds@[i as int]@ == k,
            None => r is None,
        },
{
    let ghost a = views(kinds@);
    let mut i: usize = 0;
    assert(a.skip(0) == a);
    while i < kinds.len()
        invariant
            a == views(kinds@),
            0 <= i <= kinds@.len(),
            first_unknown_emit(a.skip(i as int)) == first_unknown_emit(a),
        decreases kinds.len() - i,
    {
        assert(a.skip(i as int)[0] == kinds@[i as int]@);
        assert(a.skip(i as int).drop_first() == a.skip(i + 1));
        if !is_known_emit(kinds[i].as_str()) {
            return Some(i);
        }
        i += 1;
    }
    assert(a.skip(i as int).len() == 0);
    None
}

/// The first emit kind in `kinds` that no input can produce.
fn find_incompatible_emit(kinds: &[String], types: &[String]) -> (r: Option<usize>)
    ensures
        match first_incompatible(views(kinds@), views(types@)) {
            Some(k) => r matches Some(i) && i < kinds@.len() && kinds@[i as int]@ == k,
            None => r is None,
        },
{
    let ghost a = views(kinds@);
    let mut i: usize = 0;
    assert(a.skip(0) == a);
    while i < kinds.len()
        invariant
            a == views(kinds@),
            0 <= i <= kinds@.len(),
            first_incompatible(a.skip(i as int), views(types@)) == first_incompatible(a, views(types@)),
        decreases kinds.len() - i,
    {
        assert(a.skip(i as int)[0] == kinds@[i as int]@);
        assert(a.skip(i as int).drop_first() == a.skip(i + 1));
        if !has_compatible_input(kinds[i].as_str(), types) {
            return Some(i);
        }
        i += 1;
    }
    assert(a.skip(i as int).len() == 0);
    None
}

/// Whether every type in `types` is `kind`.
fn all_are(types: &[String], kind: &str) -> (r: bool)
    ensures
        r == forall|j: int| 0 <= j < types@.len() ==> views(types@)[j] == kind@,
{
    let mut i: usize = 0;
    while i < types.len()
        invariant
            0 <= i <= types@.len(),
            forall|j: int| 0 <= j < i ==> views(types@)[j] == kind@,
        decreases types.len() - i,
    {
        if !str_eq(types[i].as_str(), kind) {
            assert(views(types@)[i as int] != kind@);
            return false;
        }
        i += 1;
    }
    true
}

/// Whether every type in `types` is read only by the linker.
fn all_link_ready(types: &[String]) -> (r: bool)
    ensures
        r == forall|j: int| 0 <= j < types@.len() ==> link_ready(views(types@)[j]),
{
    let mut i: usize = 0;
    while i < types.len()
        invariant
            0 <= i <= types@.len(),
            forall|j: int| 0 <= j < i ==> link_ready(views(types@)[j]),
        decreases types.len() - i,
    {
        if !is_link_ready_input(types[i].as_str()) {
            assert(!link_ready(views(types@)[i as int]));
            return false;
        }
        i += 1;
    }
    true
}

/// The checks on `--emit=check`.
fn check_mode(flags: &BuildFlags, emits: &[String], types: &[String]) -> (r: Result<(), String>)
    ensures
        match check_mode_result(flags@, views(emits@), views(types@)) {
            Ok(()) => r is Ok,
            Err(e) => r matches Err(m) && m@ == e,
        },
{
    if !contains_str(emits, "check") {
        return Ok(());
    }
    if emits.len() != 1 {
        return Err("`check` emit must be used alone".to_string());
    }
    if flags.run {
        return Err("`--emit=check` cannot be combined with `--run`".to_string());
    }
    if flags.link_only {
        return Err("`--emit=check` cannot be combined with `--link-only`".to_string());
    }
    if flags.has_output || flags.has_out_dir {
        return Err("`--emit=check` cannot be combined with `-o/--output/--out-dir`".to_string());
    }
    if !all_are(types, "wave") {
        return Err("`--emit=check` accepts only `.wave` inputs".to_string());
    }
    Ok(())
}

/// The checks on `--link-only` and on an object emit from link-ready inputs.
fn link_checks(flags: &BuildFlags, emits: &[String], types: &[String]) -> (r: Result<(), String>)
    ensures
        match link_result(flags@, views(emits@), views(types@)) {
            Ok(()) => r is Ok,
            Err(e) => r matches Err(m) && m@ == e,
        },
{
    let ready = all_link_ready(types);
    if flags.link_only {
        if emits.len() != 1 || !str_eq(emits[0].as_str(), "bin") {
            return Err("`--link-only` requires `--emit=bin`".to_string());
        }
        if !ready {
            return Err(
                "`--link-only` accepts only link-ready inputs (`.o`, `.obj`, `.a`)".to_string(),
            );
        }
    }
    if emits.len() == 1 && str_eq(emits[0].as_str(), "obj") && ready {
        return Err(
            "`--emit=obj` requires at least one compilable input (`.wave`, `.ll/.ir`, `.bc`, `.s/.asm`)".to_string(),
        );
    }
    Ok(())
}

/// The checks on running and on the kind of link.
fn mode_checks(flags: &BuildFlags, emits: &[String], run_separator_seen: bool) -> (r: Result<(), String>)
    ensures
        match mode_result(flags@, views(emits@), run_separator_seen) {
            Ok(()) => r is Ok,
            Err(e) => r matches Err(m) && m@ == e,
        },
{
    if flags.run && !contains_str(emits, "bin") {
        return Err("`--run` requires `bin` emit".to_string());
    }
    if run_separator_seen && !flags.run {
        return Err("run arguments after `--` require `--run`".to_string());
    }
    if flags.shared && flags.run {
        return Err("`--run` cannot be used with `--shared`".to_string());
    }
    if flags.shared && flags.static_link {
        return Err("`--shared` and `--static` cannot be used together".to_string());
    }
    if flags.pie && flags.no_pie {
        return Err("`--pie` and `--no-pie` cannot be used together".to_string());
    }
    if flags.shared && (flags.pie || flags.no_pie) {
        return Err("`--shared` cannot be used with `--pie` or `--no-pie`".to_string());
    }
    Ok(())
}

/// The checks of the relocation model against the link options.
fn model_checks(flags: &BuildFlags, model: &Option<String>) -> (r: Result<(), String>)
    ensures
        match model_result(flags@, opt_view(*model)) {
            Ok(()) => r is Ok,
            Err(e) => r matches Err(m) && m@ == e,
        },
{
    if flags.pie {
        if let Some(m) = model {
            if !str_eq(m.as_str(), "pie") {
                return Err("`--pie` allows only `-C relocation-model=pie`".to_string());
            }
        }
    }
    if flags.no_pie {
        if let Some(m) = model {
            if str_eq(m.as_str(), "pie") {
                return Err("`--no-pie` cannot be used with `-C relocation-model=pie`".to_string());
            }
        }
    }
    if flags.shared {
        if let Some(m) = model {
            if !str_eq(m.as_str(), "pic") && !str_eq(m.as_str(), "dynamic-no-pic") {
                return Err(
                    "`--shared` allows `-C relocation-model=pic|dynamic-no-pic` only".to_string(),
                );
            }
        }
    }
    Ok(())
}

/// The checks on link-stage options, emit/input compatibility and run arguments.
fn final_checks(flags: &BuildFlags, emits: &[String], types: &[String], run_args: &[String], run_separator_seen: bool) -> (r: Result<(), String>)
    ensures
        match final_result(flags@, views(emits@), views(types@), views(run_args@), run_separator_seen) {
            Ok(()) => r is Ok,
            Err(e) => r matches Err(m) && m@ == e,
        },
{
    let has_link_step = flags.link_only || (contains_str(emits, "bin") && !flags.compile_only);
    if (flags.has_entry || flags.has_linker_script || flags.has_no_start_files) && !has_link_step {
        return Err(
            "`--entry`, `--linker-script`, `--no-start-files` require a link stage".to_string(),
        );
    }
    if let Some(k) = find_incompatible_emit(emits, types) {
        return Err(
            cat3("no compatible input for emit `", emits[k].as_str(), "` with current input set"),
        );
    }
    if run_args.len() > 0 && !run_separator_seen {
        return Err("internal error: run args provided without separator marker".to_string());
    }
    Ok(())
}

/// Checks a build invocation before wavec sees it: it needs an input; the
/// emit kinds must be known and fit the inputs; `check` stands alone;
/// `--link-only`, `--run`, `--shared`, `--static`, `--pie`, `--no-pie` and
/// the relocation model must not conflict; link-stage options need a link.
/// The error names the first rule broken.
pub fn validate_build_invocation(request: BuildValidationRequest<'_>) -> (r: Result<(), String>)
    ensures
        match validation(
            views(request.inputs@),
            views(request.build_args@),
            views(request.run_args@),
            request.run_separator_seen,
            views(request.global_args@),
        ) {
            Ok(()) => r is Ok,
            Err(e) => r matches Err(m) && m@ == e,
        },
{
    if request.inputs.len() == 0 {
        return Err("build requires at least one input".to_string());
    }
    let mut flags = scan_args(request.build_args)?;
    let ghost f = flags@;
    let mut emit_kinds: Vec<String> = Vec::new();
    std::mem::swap(&mut emit_kinds, &mut flags.emit_kinds);
    if emit_kinds.len() == 0 {
        emit_kinds.push("bin".to_string());
        assert(views(emit_kinds@) =~= seq!["bin"@]);
    }
    assert(views(emit_kinds@) == effective_emits(f));
    if let Some(k) = find_unknown_emit(emit_kinds.as_slice()) {
        return Err(cat3("unsupported emit kind: `", emit_kinds[k].as_str(), "`"));
    }
    let types = resolve_input_types(request.inputs, &flags.forced_input_type)?;
    check_mode(&flags, emit_kinds.as_slice(), types.as_slice())?;
    link_checks(&flags, emit_kinds.as_slice(), types.as_slice())?;
    mode_checks(&flags, emit_kinds.as_slice(), request.run_separator_seen)?;
    let model = detect_relocation_model(request.global_args, request.build_args)?;
    model_checks(&flags, &model)?;
    final_checks(
        &flags,
        emit_kinds.as_slice(),
        types.as_slice(),
        request.run_args,
        request.run_separator_seen,
    )
}

proof fn lemma_no_dash_prefix(p: Seq<char>, x: Seq<char>)
    requires
        p.len() > 0,
        p[0] == '-',
        x.len() > 0,
        x[0] != '-',
    ensures
        !p.is_prefix_of(x),
{
    if p.is_prefix_of(x) {
        assert(x.subrange(0, p.len() as int)[0] == x[0]);
    }
}

proof fn lemma_plain_token(x: Seq<char>, f: ScanState)
    requires
        x.len() > 0,
        x[0] != '-',
    ensures
        flag_set(x, f) is None,
        !value_option(x),
        inline_set(x, f) == f,
        x != "-C"@,
        !"-C"@.is_prefix_of(x),
{
    reveal_strlit("-c");
    reveal_strlit("--link-only");
    reveal_strlit("--run");
    reveal_strlit("--shared");
    reveal_strlit("--static");
    reveal_strlit("--pie");
    reveal_strlit("--no-pie");
    reveal_strlit("--no-start-files");
    reveal_strlit("-o");
    reveal_strlit("--output");
    reveal_strlit("--out-dir");
    reveal_strlit("--target-dir");
    reveal_strlit("--error-format");
    reveal_strlit("--emit");
    reveal_strlit("--input-type");
    reveal_strlit("--entry");
    reveal_strlit("--linker-script");
    reveal_strlit("--emit=");
    reveal_strlit("--input-type=");
    reveal_strlit("--output=");
    reveal_strlit("--out-dir=");
    reveal_strlit("--entry=");
    reveal_strlit("--linker-script=");
    reveal_strlit("-C");
    assert(x[0] != "-C"@[0]);
    lemma_no_dash_prefix("--emit="@, x);
    lemma_no_dash_prefix("--input-type="@, x);
    lemma_no_dash_prefix("--output="@, x);
    lemma_no_dash_prefix("--out-dir="@, x);
    lemma_no_dash_prefix("--entry="@, x);
    lemma_no_dash_prefix("--linker-script="@, x);
    lemma_no_dash_prefix("-C"@, x);
}

/// The type of an input follows from the end of its lower-cased name, the
/// first matching row winning: `.wave` is Wave source, `.ll`/`.ir` LLVM IR,
/// `.bc` bitcode, `.s`/`.asm` assembly, `.o`/`.obj` an object, `.a` an
/// archive; any other name has no type of its own.
pub proof fn law_input_type_by_extension(x: Seq<char>)
    ensures
        ({
            let l = ascii_lower(x);
            &&& ".wave"@.is_suffix_of(l) ==> infer_type(x) == Some("wave"@)
            &&& !".wave"@.is_suffix_of(l) && (".ll"@.is_suffix_of(l) || ".ir"@.is_suffix_of(l))
                ==> infer_type(x) == Some("ir"@)
            &&& !".wave"@.is_suffix_of(l) && !".ll"@.is_suffix_of(l) && !".ir"@.is_suffix_of(l)
                && ".bc"@.is_suffix_of(l) ==> infer_type(x) == Some("bc"@)
            &&& !".wave"@.is_suffix_of(l) && !".ll"@.is_suffix_of(l) && !".ir"@.is_suffix_of(l)
                && !".bc"@.is_suffix_of(l) && (".s"@.is_suffix_of(l) || ".asm"@.is_suffix_of(l))
                ==> infer_type(x) == Some("asm"@)
            &&& !".wave"@.is_suffix_of(l) && !".ll"@.is_suffix_of(l) && !".ir"@.is_suffix_of(l)
                && !".bc"@.is_suffix_of(l) && !".s"@.is_suffix_of(l) && !".asm"@.is_suffix_of(l)
                && (".o"@.is_suffix_of(l) || ".obj"@.is_suffix_of(l)) ==> infer_type(x) == Some("obj"@)
            &&& !".wave"@.is_suffix_of(l) && !".ll"@.is_suffix_of(l) && !".ir"@.is_suffix_of(l)
                && !".bc"@.is_suffix_of(l) && !".s"@.is_suffix_of(l) && !".asm"@.is_suffix_of(l)
                && !".o"@.is_suffix_of(l) && !".obj"@.is_suffix_of(l) && ".a"@.is_suffix_of(l)
                ==> infer_type(x) == Some("archive"@)
            &&& !".wave"@.is_suffix_of(l) && !".ll"@.is_suffix_of(l) && !".ir"@.is_suffix_of(l)
                && !".bc"@.is_suffix_of(l) && !".s"@.is_suffix_of(l) && !".asm"@.is_suffix_of(l)
                && !".o"@.is_suffix_of(l) && !".obj"@.is_suffix_of(l) && !".a"@.is_suffix_of(l)
                ==> infer_type(x) is None
        }),
{
}

/// A build of one input of a recognised type, named without a leading `-`
/// and given no options, passes the preflight (it emits a binary, which any
/// input type can feed).
pub proof fn law_single_input_builds(x: Seq<char>)
    requires
        infer_type(x) is Some,
        x.len() > 0,
        x[0] != '-',
    ensures
        validation(seq![x], seq![x], Seq::empty(), false, Seq::empty()) == Ok::<(), Seq<char>>(()),
{
    let f = scan_start();
    lemma_plain_token(x, f);
    let args = seq![x];
    assert(args[0] == x);
    assert(scan_step(args, 0, f) == Ok::<(int, ScanState), Seq<char>>((1, f)));
    assert(scan(args, 1, f) == Ok::<ScanState, Seq<char>>(f));
    assert(scan(args, 0, f) == Ok::<ScanState, Seq<char>>(f));
    reveal_strlit("bin");
    reveal_strlit("check");
    reveal_strlit("ast");
    reveal_strlit("ir");
    reveal_strlit("bc");
    reveal_strlit("asm");
    reveal_strlit("obj");
    let emits = effective_emits(f);
    assert(emits == seq!["bin"@]);
    assert(emits.drop_first().len() == 0);
    assert(first_unknown_emit(emits.drop_first()) is None);
    assert(known_emit(emits[0]));
    assert(first_unknown_emit(emits) is None);
    let t = infer_type(x)->0;
    assert(args.drop_last().len() == 0);
    assert(resolve_each(args.drop_last(), None) == Ok::<Seq<Seq<char>>, Seq<char>>(Seq::empty()));
    let types = seq![t];
    assert(Seq::<Seq<char>>::empty().push(t) == types);
    assert(resolve_types(args, None) == Ok::<Seq<Seq<char>>, Seq<char>>(types));
    assert(!emits.contains("check"@)) by {
        assert("bin"@.len() != "check"@.len());
    }
    assert(emits[0] != "obj"@) by {
        assert("bin"@[0] != "obj"@[0]);
    }
    assert(codegen_scan(Seq::empty(), 0, None) == Ok::<Option<Seq<char>>, Seq<char>>(None));
    assert(codegen_scan(args, 1, None) == Ok::<Option<Seq<char>>, Seq<char>>(None));
    assert(codegen_scan(args, 0, None) == Ok::<Option<Seq<char>>, Seq<char>>(None));
    assert(types.contains(t)) by {
        assert(types[0] == t);
    }
    assert("bin"@ != "check"@ && "bin"@ != "ast"@ && "bin"@ != "ir"@ && "bin"@ != "bc"@
        && "bin"@ != "asm"@ && "bin"@ != "obj"@) by {
        assert("bin"@[0] != "check"@[0]);
        assert("bin"@[0] != "ast"@[0]);
        assert("bin"@.len() != "ir"@.len());
        assert("bin"@.len() != "bc"@.len());
        assert("bin"@[0] != "asm"@[0]);
        assert("bin"@[0] != "obj"@[0]);
    }
    assert(compatible("bin"@, types));
    assert(emits[0] == "bin"@);
    assert(first_incompatible(emits.drop_first(), types) is None);
    assert(compatible(emits[0], types));
    assert(first_incompatible(emits, types) is None);
}

/// An assembly source is recognised by its name: an input whose lower-cased
/// name ends in `.s` or `.asm` (and not in `.wave`, `.ll`, `.ir` or `.bc`)
/// has the type `asm`, so a build of that one file, with no options, passes
/// the preflight.
pub proof fn law_assembly_inputs_build(x: Seq<char>)
    requires
        ".s"@.is_suffix_of(ascii_lower(x)) || ".asm"@.is_suffix_of(ascii_lower(x)),
        !".wave"@.is_suffix_of(ascii_lower(x)),
        !".ll"@.is_suffix_of(ascii_lower(x)),
        !".ir"@.is_suffix_of(ascii_lower(x)),
        !".bc"@.is_suffix_of(ascii_lower(x)),
        x.len() > 0,
        x[0] != '-',
    ensures
        infer_type(x) == Some("asm"@),
        validation(seq![x], seq![x], Seq::empty(), false, Seq::empty()) == Ok::<(), Seq<char>>(()),
{
    law_input_type_by_extension(x);
    law_single_input_builds(x);
}

} // verus!
