//! The contract with `wavec`: the arguments of its dry run, and the check
//! of the JSON plan that the dry run prints.
use vstd::prelude::*;

use crate::json::{from_str, get, json_document, json_get, Json};
use crate::text::{
    cat, cat3, chars_of, decimal, str_eq, string_of, text_from_bytes, trim, trim_str, utf8_lossy,
    views,
};

verus! {

broadcast use vstd::string::group_string_axioms;

/// Whether the arguments before any `--` ask for `--dry-run`.
pub open spec fn dry_run_from(args: Seq<Seq<char>>, i: int) -> bool
    decreases args.len() - i,
{
    if i < 0 || i >= args.len() || args[i] == "--"@ {
        false
    } else if args[i] == "--dry-run"@ {
        true
    } else {
        dry_run_from(args, i + 1)
    }
}

/// Whether the arguments before any `--` hold `--dry-run`.
pub fn contains_dry_run_flag(args: &[String]) -> (r: bool)
    ensures
        r == dry_run_from(views(args@), 0),
{
    let ghost a = views(args@);
    let mut i: usize = 0;
    while i < args.len()
        invariant
            a == views(args@),
            dry_run_from(a, i as int) == dry_run_from(a, 0),
        decreases args.len() - i,
    {
        assert(args@[i as int]@ == a[i as int]);
        if str_eq(args[i].as_str(), "--") {
            return false;
        }
        if str_eq(args[i].as_str(), "--dry-run") {
            return true;
        }
        i += 1;
    }
    false
}

/// The index of the first `--`.
pub open spec fn separator_index(args: Seq<Seq<char>>) -> Option<int>
    decreases args.len(),
{
    if args.len() == 0 {
        None
    } else if args.last() == "--"@ && separator_index(args.drop_last()) is None {
        Some(args.len() - 1)
    } else {
        separator_index(args.drop_last())
    }
}

/// `flag` added to the build arguments: just before the first `--`, or at the end.
pub open spec fn with_build_flag(args: Seq<Seq<char>>, flag: Seq<char>) -> Seq<Seq<char>> {
    match separator_index(args) {
        Some(i) => args.insert(i, flag),
        None => args.push(flag),
    }
}

proof fn lemma_separator_index(args: Seq<Seq<char>>, k: int)
    requires
        0 <= k <= args.len(),
        forall|j: int| 0 <= j < k ==> args[j] != "--"@,
    ensures
        separator_index(args.take(k)) is None,
    decreases k,
{
    if k > 0 {
        assert(args.take(k).drop_last() == args.take(k - 1));
        lemma_separator_index(args, k - 1);
    }
}

proof fn lemma_separator_index_extend(args: Seq<Seq<char>>, k: int)
    requires
        0 <= k <= args.len(),
        separator_index(args.take(k)) is Some,
    ensures
        separator_index(args) == separator_index(args.take(k)),
    decreases args.len() - k,
{
    if k < args.len() {
        assert(args.take(k + 1).drop_last() == args.take(k));
        lemma_separator_index_extend(args, k + 1);
    } else {
        assert(args.take(k) == args);
    }
}

/// Adds `flag` to the build arguments, before the run arguments if any.
pub fn insert_build_flag(args: &mut Vec<String>, flag: &str)
    ensures
        views(final(args)@) == with_build_flag(views(old(args)@), flag@),
{
    let ghost a = views(args@);
    let mut i: usize = 0;
    while i < args.len()
        invariant
            a == views(args@),
            args@ == old(args)@,
            0 <= i <= args@.len(),
            forall|j: int| 0 <= j < i ==> a[j] != "--"@,
        decreases args.len() - i,
    {
        assert(args@[i as int]@ == a[i as int]);
        if str_eq(args[i].as_str(), "--") {
            proof {
                lemma_separator_index(a, i as int);
                assert(a.take(i + 1).drop_last() == a.take(i as int));
                assert(a.take(i + 1).last() == a[i as int]);
                lemma_separator_index_extend(a, i + 1);
            }
            let ghost before = args@;
            args.insert(i, flag.to_string());
            assert(views(args@) =~= a.insert(i as int, flag@));
            return;
        }
        i += 1;
    }
    proof {
        lemma_separator_index(a, i as int);
        assert(a.take(i as int) == a);
    }
    let ghost before = args@;
    args.push(flag.to_string());
    assert(views(args@) =~= a.push(flag@));
}

/// The arguments of the dry run that checks a build: `--dry-run` unless
/// already there, then `--error-format=json`, both before any `--`.
pub open spec fn dry_run_arguments(args: Seq<Seq<char>>) -> Seq<Seq<char>> {
    let a = if dry_run_from(args, 0) {
        args
    } else {
        with_build_flag(args, "--dry-run"@)
    };
    with_build_flag(a, "--error-format=json"@)
}

/// The arguments of the dry run that checks a build.
pub fn dry_run_args(args: &[String]) -> (r: Vec<String>)
    ensures
        views(r@) == dry_run_arguments(views(args@)),
{
    let mut out: Vec<String> = Vec::new();
    let mut i: usize = 0;
    while i < args.len()
        invariant
            0 <= i <= args@.len(),
            views(out@) == views(args@).take(i as int),
        decreases args.len() - i,
    {
        let ghost before = out@;
        let c = args[i].clone();
        assert(c@ == args@[i as int]@);
        out.push(c);
        assert(views(out@) =~= views(before).push(args@[i as int]@));
        assert(views(args@).take(i + 1) =~= views(args@).take(i as int).push(args@[i as int]@));
        i += 1;
    }
    assert(views(args@).take(args@.len() as int) == views(args@));
    if !contains_dry_run_flag(args) {
        insert_build_flag(&mut out, "--dry-run");
    }
    insert_build_flag(&mut out, "--error-format=json");
    out
}

proof fn lemma_separator_index_shape(args: Seq<Seq<char>>)
    ensures
        match separator_index(args) {
            Some(j) => 0 <= j < args.len() && args[j] == "--"@ && forall|k: int| 0 <= k < j ==> args[k] != "--"@,
            None => forall|k: int| 0 <= k < args.len() ==> args[k] != "--"@,
        },
    decreases args.len(),
{
    if args.len() > 0 {
        let init = args.drop_last();
        lemma_separator_index_shape(init);
        match separator_index(init) {
            Some(j) => {
                assert(init[j] == args[j]);
                assert forall|k: int| 0 <= k < j implies args[k] != "--"@ by {
                    assert(init[k] == args[k]);
                }
            },
            None => {
                assert forall|k: int| 0 <= k < args.len() - 1 implies args[k] != "--"@ by {
                    assert(init[k] == args[k]);
                }
            },
        }
    }
}

proof fn lemma_flags_differ()
    ensures
        "--dry-run"@ != "--"@,
        "--error-format=json"@ != "--"@,
{
    reveal_strlit("--dry-run");
    reveal_strlit("--error-format=json");
    reveal_strlit("--");
    assert("--dry-run"@.len() != "--"@.len());
    assert("--error-format=json"@.len() != "--"@.len());
}

/// A dry run is asked for from `i` on: `--dry-run` comes before any `--`.
proof fn lemma_dry_run_from(args: Seq<Seq<char>>, i: int, d: int)
    requires
        0 <= i <= d < args.len(),
        args[d] == "--dry-run"@,
        forall|k: int| i <= k < d ==> args[k] != "--"@,
    ensures
        dry_run_from(args, i),
    decreases d - i,
{
    lemma_flags_differ();
    if i < d && args[i] != "--dry-run"@ {
        lemma_dry_run_from(args, i + 1, d);
    }
}

/// The witness of a dry run asked for from `i` on.
proof fn lemma_dry_run_witness(args: Seq<Seq<char>>, i: int) -> (d: int)
    requires
        0 <= i,
        dry_run_from(args, i),
    ensures
        i <= d < args.len(),
        args[d] == "--dry-run"@,
        forall|k: int| i <= k < d ==> args[k] != "--"@,
    decreases args.len() - i,
{
    if args[i] == "--dry-run"@ {
        i
    } else {
        lemma_dry_run_witness(args, i + 1)
    }
}

/// The dry run that checks a build always asks wavec for a dry run (before
/// any run arguments), so the check itself never builds or runs anything.
pub proof fn law_dry_run_check_is_dry(args: Seq<Seq<char>>)
    ensures
        dry_run_from(dry_run_arguments(args), 0),
{
    let a = if dry_run_from(args, 0) {
        args
    } else {
        with_build_flag(args, "--dry-run"@)
    };
    lemma_flags_differ();
    // `a` asks for a dry run.
    if !dry_run_from(args, 0) {
        lemma_separator_index_shape(args);
        match separator_index(args) {
            Some(j) => {
                assert forall|k: int| 0 <= k < j implies a[k] != "--"@ by {
                    assert(a[k] == args[k]);
                }
                lemma_dry_run_from(a, 0, j);
            },
            None => {
                assert forall|k: int| 0 <= k < args.len() implies a[k] != "--"@ by {
                    assert(a[k] == args[k]);
                }
                lemma_dry_run_from(a, 0, args.len() as int);
            },
        }
    }
    // Adding `--error-format=json` keeps that.
    let d = lemma_dry_run_witness(a, 0);
    let b = with_build_flag(a, "--error-format=json"@);
    lemma_separator_index_shape(a);
    match separator_index(a) {
        Some(j) => {
            assert(d < j);
            assert forall|k: int| 0 <= k < d implies b[k] != "--"@ by {
                assert(b[k] == a[k]);
            }
            assert(b[d] == a[d]);
            lemma_dry_run_from(b, 0, d);
        },
        None => {
            assert forall|k: int| 0 <= k < d implies b[k] != "--"@ by {
                assert(b[k] == a[k]);
            }
            assert(b[d] == a[d]);
            lemma_dry_run_from(b, 0, d);
        },
    }
}

/// The words for an exit code of wavec; none means a signal ended it.
pub fn classify_exit(code: Option<i32>) -> (r: &'static str)
    ensures
        r@ == match code {
            Some(0) => "success"@,
            Some(1) => "compile/link/run failure"@,
            Some(2) => "usage error"@,
            Some(3) => "environment/toolchain/io failure"@,
            Some(_) => "unknown failure code"@,
            None => "terminated by signal"@,
        },
{
    match code {
        Some(0) => "success",
        Some(1) => "compile/link/run failure",
        Some(2) => "usage error",
        Some(3) => "environment/toolchain/io failure",
        Some(_) => "unknown failure code",
        None => "terminated by signal",
    }
}

/// What a failed run of wavec printed, stdout before stderr, each trimmed.
pub open spec fn combined_text(out: Seq<char>, err: Seq<char>) -> Seq<char> {
    if trim(out).len() > 0 && trim(err).len() > 0 {
        trim(out) + "\n"@ + trim(err)
    } else if trim(out).len() > 0 {
        trim(out)
    } else if trim(err).len() > 0 {
        trim(err)
    } else {
        "<no output>"@
    }
}

/// What a failed run of wavec printed.
pub fn combined_output(stdout: &[u8], stderr: &[u8]) -> (r: String)
    ensures
        r@ == combined_text(utf8_lossy(stdout@), utf8_lossy(stderr@)),
{
    let out = text_from_bytes(stdout);
    let err = text_from_bytes(stderr);
    let out = trim_str(out.as_str());
    let err = trim_str(err.as_str());
    let out_empty = out.as_str().is_empty();
    let err_empty = err.as_str().is_empty();
    if !out_empty && !err_empty {
        cat3(out.as_str(), "\n", err.as_str())
    } else if !out_empty {
        out
    } else if !err_empty {
        err
    } else {
        "<no output>".to_string()
    }
}

/// The first index of `c` in `s`.
pub open spec fn first_index(s: Seq<char>, c: char) -> Option<int>
    decreases s.len(),
{
    if s.len() == 0 {
        None
    } else if s.last() == c && first_index(s.drop_last(), c) is None {
        Some(s.len() - 1)
    } else {
        first_index(s.drop_last(), c)
    }
}

/// The last index of `c` in `s`.
pub open spec fn last_index(s: Seq<char>, c: char) -> Option<int>
    decreases s.len(),
{
    if s.len() == 0 {
        None
    } else if s.last() == c {
        Some(s.len() - 1)
    } else {
        last_index(s.drop_last(), c)
    }
}

/// The text from the first `{` to the last `}`, if the last comes after the first.
pub open spec fn json_object_text(text: Seq<char>) -> Option<Seq<char>> {
    match (first_index(text, '{'), last_index(text, '}')) {
        (Some(start), Some(end)) => if end <= start {
            None
        } else {
            Some(text.subrange(start, end + 1))
        },
        _ => None,
    }
}

proof fn lemma_first_index(s: Seq<char>, c: char, k: int)
    requires
        0 <= k <= s.len(),
        forall|j: int| 0 <= j < k ==> s[j] != c,
    ensures
        first_index(s.take(k), c) is None,
    decreases k,
{
    if k > 0 {
        assert(s.take(k).drop_last() == s.take(k - 1));
        lemma_first_index(s, c, k - 1);
    }
}

proof fn lemma_first_index_extend(s: Seq<char>, c: char, k: int)
    requires
        0 <= k <= s.len(),
        first_index(s.take(k), c) is Some,
    ensures
        first_index(s, c) == first_index(s.take(k), c),
    decreases s.len() - k,
{
    if k < s.len() {
        assert(s.take(k + 1).drop_last() == s.take(k));
        lemma_first_index_extend(s, c, k + 1);
    } else {
        assert(s.take(k) == s);
    }
}

proof fn lemma_last_index(s: Seq<char>, c: char, k: int)
    requires
        0 <= k <= s.len(),
        forall|j: int| k <= j < s.len() ==> s[j] != c,
    ensures
        last_index(s, c) == last_index(s.take(k), c),
    decreases s.len() - k,
{
    if k < s.len() {
        lemma_last_index(s.drop_last(), c, k);
        assert(s.drop_last().take(k) == s.take(k));
    } else {
        assert(s.take(k) == s);
    }
}

/// The index of the first `c` in `cs`.
fn find_char(cs: &[char], c: char) -> (r: Option<usize>)
    ensures
        match first_index(cs@, c) {
            Some(i) => r matches Some(k) && k == i,
            None => r is None,
        },
{
    let mut i: usize = 0;
    while i < cs.len()
        invariant
            0 <= i <= cs@.len(),
            forall|j: int| 0 <= j < i ==> cs@[j] != c,
        decreases cs.len() - i,
    {
        if cs[i] == c {
            proof {
                lemma_first_index(cs@, c, i as int);
                assert(cs@.take(i + 1).drop_last() == cs@.take(i as int));
                assert(cs@.take(i + 1).last() == c);
                lemma_first_index_extend(cs@, c, i + 1);
            }
            return Some(i);
        }
        i += 1;
    }
    proof {
        lemma_first_index(cs@, c, i as int);
        assert(cs@.take(i as int) == cs@);
    }
    None
}

/// The index of the last `c` in `cs`.
fn rfind_char(cs: &[char], c: char) -> (r: Option<usize>)
    ensures
        r matches Some(k) ==> k < cs@.len(),
        match last_index(cs@, c) {
            Some(i) => r matches Some(k) && k == i,
            None => r is None,
        },
{
    let mut k: usize = cs.len();
    while k > 0
        invariant
            0 <= k <= cs@.len(),
            forall|j: int| k <= j < cs@.len() ==> cs@[j] != c,
        decreases k,
    {
        if cs[k - 1] == c {
            proof {
                lemma_last_index(cs@, c, k as int);
                assert(cs@.take(k as int).last() == c);
            }
            return Some(k - 1);
        }
        k -= 1;
    }
    proof {
        lemma_last_index(cs@, c, 0);
    }
    None
}

/// The part of `text` that may be a JSON object: from its first `{` to its last `}`.
pub fn extract_json_object(text: &str) -> (r: Option<String>)
    ensures
        match json_object_text(text@) {
            Some(t) => r matches Some(s) && s@ == t,
            None => r is None,
        },
{
    let cs = chars_of(text);
    let start = match find_char(cs.as_slice(), '{') {
        Some(i) => i,
        None => {
            return None;
        },
    };
    let end = match rfind_char(cs.as_slice(), '}') {
        Some(i) => i,
        None => {
            return None;
        },
    };
    if end <= start {
        return None;
    }
    let n = cs.len();
    assert(end < n);
    Some(string_of(cs.as_slice(), start, end + 1))
}

/// A member that must be a string.
pub open spec fn need_string(o: Seq<(String, Json)>, key: Seq<char>) -> Result<(), Seq<char>> {
    match json_get(o, key) {
        Some(Json::String(_)) => Ok(()),
        _ => Err("dry-run JSON is missing string key `"@ + key + "`"@),
    }
}

/// A member that must be an array.
pub open spec fn need_array(o: Seq<(String, Json)>, key: Seq<char>) -> Result<(), Seq<char>> {
    match json_get(o, key) {
        Some(Json::Array(_)) => Ok(()),
        _ => Err("dry-run JSON is missing array key `"@ + key + "`"@),
    }
}

/// A member that must be a string or null.
pub open spec fn need_string_or_null(o: Seq<(String, Json)>, key: Seq<char>) -> Result<(), Seq<char>> {
    match json_get(o, key) {
        Some(Json::Null) => Ok(()),
        Some(Json::String(_)) => Ok(()),
        Some(_) => Err("dry-run JSON key `"@ + key + "` must be string or null"@),
        None => Err("dry-run JSON is missing key `"@ + key + "`"@),
    }
}

/// The first check's error, else the result of the rest.
pub open spec fn then_check(first: Result<(), Seq<char>>, rest: Result<(), Seq<char>>) -> Result<(), Seq<char>> {
    if first is Err {
        first
    } else {
        rest
    }
}

/// The `link` member: null, or an object with `output`, `inputs`, `program`, `args`.
pub open spec fn need_link(v: Option<Json>) -> Result<(), Seq<char>> {
    match v {
        None => Err("dry-run JSON is missing key `link`"@),
        Some(Json::Null) => Ok(()),
        Some(Json::Object(o)) => then_check(
            need_string(o@, "output"@),
            then_check(
                need_array(o@, "inputs"@),
                then_check(need_string(o@, "program"@), need_array(o@, "args"@)),
            ),
        ),
        Some(_) => Err("dry-run JSON key `link` must be object or null"@),
    }
}

/// The `execute` member: null, or an object with `program` and `args`.
pub open spec fn need_execute(v: Option<Json>) -> Result<(), Seq<char>> {
    match v {
        None => Err("dry-run JSON is missing key `execute`"@),
        Some(Json::Null) => Ok(()),
        Some(Json::Object(o)) => then_check(need_string(o@, "program"@), need_array(o@, "args"@)),
        Some(_) => Err("dry-run JSON key `execute` must be object or null"@),
    }
}

/// The `schema_version` member: the number 1.
pub open spec fn need_schema(o: Seq<(String, Json)>) -> Result<(), Seq<char>> {
    match json_get(o, "schema_version"@) {
        Some(Json::Number(Some(n))) => if n == 1 {
            Ok(())
        } else {
            Err(
                "unsupported wavec dry-run schema_version `"@ + decimal(n as nat)
                    + "`; expected `1`"@,
            )
        },
        _ => Err("dry-run JSON is missing numeric key `schema_version`"@),
    }
}

/// The checks of schema version 1 on a dry-run plan, in order.
pub open spec fn plan_check(v: Json) -> Result<(), Seq<char>> {
    match v {
        Json::Object(obj) => {
            let o = obj@;
            then_check(need_schema(o),
            then_check(need_string(o, "mode"@),
            then_check(need_string(o, "target"@),
            then_check(need_string(o, "emit"@),
            then_check(need_array(o, "emit_kinds"@),
            then_check(need_array(o, "inputs"@),
            then_check(need_array(o, "emit_jobs"@),
            then_check(need_array(o, "compile"@),
            then_check(need_string_or_null(o, "control_mode"@),
            then_check(need_string_or_null(o, "forced_input_type"@),
            then_check(need_link(json_get(o, "link"@)),
            need_execute(json_get(o, "execute"@)))))))))))))
        },
        _ => Err("wavec dry-run plan must be a JSON object"@),
    }
}

/// The check of what a dry run printed: the plan is the JSON object found
/// in stdout, else in stderr; it must parse and pass `plan_check`.
pub open spec fn dry_run_output_check(out: Seq<char>, err: Seq<char>) -> Result<(), Seq<char>> {
    let candidate = match json_object_text(out) {
        Some(t) => Some(t),
        None => json_object_text(err),
    };
    match candidate {
        None => Err("wavec dry-run did not return a JSON object plan"@),
        Some(t) => match json_document(t) {
            Err(e) => Err("invalid wavec dry-run JSON plan: "@ + e),
            Ok(v) => plan_check(v),
        },
    }
}

fn require_string(object: &[(String, Json)], key: &str) -> (r: Result<(), String>)
    ensures
        match need_string(object@, key@) {
            Ok(()) => r is Ok,
            Err(e) => r matches Err(m) && m@ == e,
        },
{
    match get(object, key) {
        Some(Json::String(_)) => Ok(()),
        _ => Err(cat3("dry-run JSON is missing string key `", key, "`")),
    }
}

fn require_array(object: &[(String, Json)], key: &str) -> (r: Result<(), String>)
    ensures
        match need_array(object@, key@) {
            Ok(()) => r is Ok,
            Err(e) => r matches Err(m) && m@ == e,
        },
{
    match get(object, key) {
        Some(Json::Array(_)) => Ok(()),
        _ => Err(cat3("dry-run JSON is missing array key `", key, "`")),
    }
}

fn require_string_or_null(object: &[(String, Json)], key: &str) -> (r: Result<(), String>)
    ensures
        match need_string_or_null(object@, key@) {
            Ok(()) => r is Ok,
            Err(e) => r matches Err(m) && m@ == e,
        },
{
    match get(object, key) {
        Some(Json::Null) => Ok(()),
        Some(Json::String(_)) => Ok(()),
        Some(_) => Err(cat3("dry-run JSON key `", key, "` must be string or null")),
        None => Err(cat3("dry-run JSON is missing key `", key, "`")),
    }
}

pub open spec fn json_opt(o: Option<&Json>) -> Option<Json> {
    match o {
        Some(v) => Some(*v),
        None => None,
    }
}

fn require_link_or_null(value: Option<&Json>) -> (r: Result<(), String>)
    ensures
        match need_link(json_opt(value)) {
            Ok(()) => r is Ok,
            Err(e) => r matches Err(m) && m@ == e,
        },
{
    match value {
        None => Err("dry-run JSON is missing key `link`".to_string()),
        Some(Json::Null) => Ok(()),
        Some(Json::Object(object)) => {
            let o = object.as_slice();
            require_string(o, "output")?;
            require_array(o, "inputs")?;
            require_string(o, "program")?;
            require_array(o, "args")?;
            Ok(())
        },
        Some(_) => Err("dry-run JSON key `link` must be object or null".to_string()),
    }
}

fn require_execute_or_null(value: Option<&Json>) -> (r: Result<(), String>)
    ensures
        match need_execute(json_opt(value)) {
            Ok(()) => r is Ok,
            Err(e) => r matches Err(m) && m@ == e,
        },
{
    match value {
        None => Err("dry-run JSON is missing key `execute`".to_string()),
        Some(Json::Null) => Ok(()),
        Some(Json::Object(object)) => {
            let o = object.as_slice();
            require_string(o, "program")?;
            require_array(o, "args")?;
            Ok(())
        },
        Some(_) => Err("dry-run JSON key `execute` must be object or null".to_string()),
    }
}

fn require_schema(object: &[(String, Json)]) -> (r: Result<(), String>)
    ensures
        match need_schema(object@) {
            Ok(()) => r is Ok,
            Err(e) => r matches Err(m) && m@ == e,
        },
{
    match get(object, "schema_version") {
        Some(Json::Number(Some(n))) => {
            if *n == 1 {
                Ok(())
            } else {
                Err(
                    cat3(
                        "unsupported wavec dry-run schema_version `",
                        crate::text::u64_to_decimal(*n).as_str(),
                        "`; expected `1`",
                    ),
                )
            }
        },
        _ => Err("dry-run JSON is missing numeric key `schema_version`".to_string()),
    }
}

/// The checks of schema version 1 on a parsed dry-run plan.
pub fn validate_plan(value: &Json) -> (r: Result<(), String>)
    ensures
        match plan_check(*value) {
            Ok(()) => r is Ok,
            Err(e) => r matches Err(m) && m@ == e,
        },
{
    let o = match value {
        Json::Object(object) => object.as_slice(),
        _ => {
            return Err("wavec dry-run plan must be a JSON object".to_string());
        },
    };
    require_schema(o)?;
    require_string(o, "mode")?;
    require_string(o, "target")?;
    require_string(o, "emit")?;
    require_array(o, "emit_kinds")?;
    require_array(o, "inputs")?;
    require_array(o, "emit_jobs")?;
    require_array(o, "compile")?;
    require_string_or_null(o, "control_mode")?;
    require_string_or_null(o, "forced_input_type")?;
    require_link_or_null(get(o, "link"))?;
    require_execute_or_null(get(o, "execute"))?;
    Ok(())
}

/// Checks what a wavec dry run printed against schema version 1 of its
/// JSON plan: the plan is found in stdout (else stderr), parsed, and its
/// required members checked in order.
pub fn validate_dry_run_json_output(stdout: &[u8], stderr: &[u8]) -> (r: Result<(), String>)
    ensures
        match dry_run_output_check(utf8_lossy(stdout@), utf8_lossy(stderr@)) {
            Ok(()) => r is Ok,
            Err(e) => r matches Err(m) && m@ == e,
        },
{
    let stdout_text = text_from_bytes(stdout);
    let stderr_text = text_from_bytes(stderr);
    let candidate = match extract_json_object(stdout_text.as_str()) {
        Some(t) => t,
        None => match extract_json_object(stderr_text.as_str()) {
            Some(t) => t,
            None => {
                return Err("wavec dry-run did not return a JSON object plan".to_string());
            },
        },
    };
    let value = match from_str(candidate.as_str()) {
        Ok(v) => v,
        Err(e) => {
            return Err(cat("invalid wavec dry-run JSON plan: ", e.as_str()));
        },
    };
    validate_plan(&value)
}

/// The error of a wavec whose dry-run plan fails the check, with the way
/// to choose another compiler.
pub fn incompatible_wavec_message(err: &str) -> (r: String)
    ensures
        r@ == "installed wavec is incompatible with Vex: "@ + err@
            + "\nhelp: update wavec or set VEX_WAVEC=/path/to/wavec"@,
{
    cat3("installed wavec is incompatible with Vex: ", err, "\nhelp: update wavec or set VEX_WAVEC=/path/to/wavec")
}

/// The error of a failed build (or a failed dry run the user asked for),
/// with the words for its exit.
pub fn build_failure_message(dry_run: bool, exit: &str) -> (r: String)
    ensures
        r@ == (if dry_run { "wavec build dry-run failed ["@ } else { "wavec build failed ["@ }) + exit@
            + "]"@,
{
    if dry_run {
        cat3("wavec build dry-run failed [", exit, "]")
    } else {
        cat3("wavec build failed [", exit, "]")
    }
}

/// Whether the member `key` is a string.
pub open spec fn string_member(o: Seq<(String, Json)>, key: Seq<char>) -> bool {
    json_get(o, key) matches Some(Json::String(_))
}

/// Whether the member `key` is an array.
pub open spec fn array_member(o: Seq<(String, Json)>, key: Seq<char>) -> bool {
    json_get(o, key) matches Some(Json::Array(_))
}

/// Whether the member `key` is null or a string.
pub open spec fn null_or_string_member(o: Seq<(String, Json)>, key: Seq<char>) -> bool {
    json_get(o, key) matches Some(Json::Null) || string_member(o, key)
}

/// Schema version 1 of the dry-run plan, member by member: a plan passes the
/// check exactly when it is an object with `schema_version` 1; strings
/// `mode`, `target` and `emit`; arrays `emit_kinds`, `inputs`, `emit_jobs`
/// and `compile`; `control_mode` and `forced_input_type` null or strings;
/// `link` null or an object with string `output` and `program` and arrays
/// `inputs` and `args`; and `execute` null or an object with a string
/// `program` and an array `args`.
pub proof fn law_plan_schema_v1(v: Json)
    ensures
        plan_check(v) is Ok <==> (v matches Json::Object(obj) && {
            let o = obj@;
            &&& json_get(o, "schema_version"@) == Some(Json::Number(Some(1u64)))
            &&& string_member(o, "mode"@)
            &&& string_member(o, "target"@)
            &&& string_member(o, "emit"@)
            &&& array_member(o, "emit_kinds"@)
            &&& array_member(o, "inputs"@)
            &&& array_member(o, "emit_jobs"@)
            &&& array_member(o, "compile"@)
            &&& null_or_string_member(o, "control_mode"@)
            &&& null_or_string_member(o, "forced_input_type"@)
            &&& (json_get(o, "link"@) matches Some(Json::Null) || (json_get(o, "link"@) matches Some(Json::Object(l))
                && string_member(l@, "output"@) && array_member(l@, "inputs"@)
                && string_member(l@, "program"@) && array_member(l@, "args"@)))
            &&& (json_get(o, "execute"@) matches Some(Json::Null) || (json_get(o, "execute"@) matches Some(Json::Object(e))
                && string_member(e@, "program"@) && array_member(e@, "args"@)))
        }),
{
}

} // verus!
