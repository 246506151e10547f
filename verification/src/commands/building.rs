//! `vex build`, `vex run` and `vex check`: their arguments, the default
//! input, and the wavec invocation they make.
use vstd::prelude::*;

use crate::text::{cat3, str_eq, str_less, str_lt, views};

verus! {

broadcast use vstd::string::group_string_axioms;

/// Which command builds.
#[derive(Clone, Copy, Debug, PartialEq, Eq, Structural)]
pub enum BuildMode {
    Build,
    Run,
    Check,
}

/// The usage line of a build command.
pub fn usage(mode: BuildMode) -> (r: &'static str)
    ensures
        r@ == match mode {
            BuildMode::Build => "usage: vex build [--target <triple>] [--release] [--dry-run] [--locked] [--offline]"@,
            BuildMode::Run => "usage: vex run [--target <triple>] [--release] [--dry-run] [--locked] [--offline] [-- <args...>]"@,
            BuildMode::Check => "usage: vex check [--target <triple>] [--release] [--dry-run] [--locked] [--offline]"@,
        },
{
    match mode {
        BuildMode::Build => "usage: vex build [--target <triple>] [--release] [--dry-run] [--locked] [--offline]",
        BuildMode::Run => "usage: vex run [--target <triple>] [--release] [--dry-run] [--locked] [--offline] [-- <args...>]",
        BuildMode::Check => "usage: vex check [--target <triple>] [--release] [--dry-run] [--locked] [--offline]",
    }
}

/// The arguments of a build command, split: Vex's own `--locked` and
/// `--offline`, the build arguments for wavec, and what follows a `--`.
#[derive(Debug)]
pub struct BuildCommand {
    pub locked: bool,
    pub offline: bool,
    pub build_args: Vec<String>,
    pub run_args: Vec<String>,
    pub run_separator_seen: bool,
}

/// The arguments before the first `--`.
pub open spec fn before_separator(args: Seq<Seq<char>>) -> Seq<Seq<char>>
    decreases args.len(),
{
    if args.len() == 0 || args[0] == "--"@ {
        Seq::empty()
    } else {
        seq![args[0]] + before_separator(args.drop_first())
    }
}

/// The arguments after the first `--`, if there is one.
pub open spec fn after_separator(args: Seq<Seq<char>>) -> Option<Seq<Seq<char>>>
    decreases args.len(),
{
    if args.len() == 0 {
        None
    } else if args[0] == "--"@ {
        Some(args.drop_first())
    } else {
        after_separator(args.drop_first())
    }
}

pub open spec fn is_vex_option(a: Seq<char>) -> bool {
    a == "--locked"@ || a == "--offline"@
}

proof fn lemma_contains_push(s: Seq<Seq<char>>, x: Seq<char>, y: Seq<char>)
    ensures
        s.push(x).contains(y) == (s.contains(y) || x == y),
{
    if s.push(x).contains(y) && !(x == y) {
        let k = choose|k: int| 0 <= k < s.push(x).len() && s.push(x)[k] == y;
        assert(s[k] == y);
    }
    if s.contains(y) {
        let k = choose|k: int| 0 <= k < s.len() && s[k] == y;
        assert(s.push(x)[k] == y);
    }
    if x == y {
        assert(s.push(x)[s.len() as int] == y);
    }
}

/// Splits the arguments of a build command at the first `--`; `--locked` and
/// `--offline` before it are Vex's and are not passed to wavec.
pub fn split_command_args(args: &[String]) -> (r: BuildCommand)
    ensures
        r.locked == before_separator(views(args@)).contains("--locked"@),
        r.offline == before_separator(views(args@)).contains("--offline"@),
        views(r.build_args@) == before_separator(views(args@)).filter(|a: Seq<char>| !is_vex_option(a)),
        r.run_separator_seen == after_separator(views(args@)) is Some,
        views(r.run_args@) == match after_separator(views(args@)) {
            Some(rest) => rest,
            None => Seq::empty(),
        },
{
    let ghost a = views(args@);
    let mut locked = false;
    let mut offline = false;
    let mut build_args: Vec<String> = Vec::new();
    let mut i: usize = 0;
    assert(a.skip(0) == a);
    assert(views(build_args@) =~= Seq::<Seq<char>>::empty());
    while i < args.len() && !str_eq(args[i].as_str(), "--")
        invariant
            a == views(args@),
            0 <= i <= a.len(),
            forall|j: int| 0 <= j < i ==> a[j] != "--"@,
            before_separator(a) == a.take(i as int) + before_separator(a.skip(i as int)),
            after_separator(a) == after_separator(a.skip(i as int)),
            locked == a.take(i as int).contains("--locked"@),
            offline == a.take(i as int).contains("--offline"@),
            views(build_args@) == a.take(i as int).filter(|x: Seq<char>| !is_vex_option(x)),
        decreases args.len() - i,
    {
        let arg = args[i].as_str();
        assert(arg@ == a[i as int]);
        proof {
            let rest = a.skip(i as int);
            assert(rest[0] == a[i as int]);
            assert(rest.drop_first() == a.skip(i + 1));
            assert(a.take(i + 1) == a.take(i as int).push(a[i as int]));
            assert(a.take(i as int) + before_separator(rest) == a.take(i + 1) + before_separator(a.skip(i + 1)));
            a.take(i as int).lemma_filter_push(a[i as int], |x: Seq<char>| !is_vex_option(x));
            lemma_contains_push(a.take(i as int), a[i as int], "--locked"@);
            lemma_contains_push(a.take(i as int), a[i as int], "--offline"@);
            reveal_strlit("--locked");
            reveal_strlit("--offline");
        }
        if str_eq(arg, "--locked") {
            locked = true;
        } else if str_eq(arg, "--offline") {
            offline = true;
        } else {
            let ghost before = build_args@;
            build_args.push(args[i].clone());
            assert(views(build_args@) =~= views(before).push(a[i as int]));
        }
        i += 1;
    }
    let mut run_args: Vec<String> = Vec::new();
    let seen = i < args.len();
    proof {
        if seen {
            assert(a.skip(i as int)[0] == a[i as int]);
        }
        assert(before_separator(a.skip(i as int)) =~= Seq::<Seq<char>>::empty());
        assert(a.take(i as int) + Seq::<Seq<char>>::empty() == a.take(i as int));
    }
    if seen {
        let mut j: usize = i + 1;
        assert(views(run_args@) =~= a.subrange(i + 1, j as int));
        while j < args.len()
            invariant
                a == views(args@),
                i < j <= a.len(),
                views(run_args@) == a.subrange(i + 1, j as int),
            decreases args.len() - j,
        {
            let ghost before = run_args@;
            run_args.push(args[j].clone());
            assert(views(run_args@) =~= views(before).push(a[j as int]));
            assert(a.subrange(i + 1, j + 1) =~= a.subrange(i + 1, j as int).push(a[j as int]));
            j += 1;
        }
        assert(a.skip(i as int).drop_first() =~= a.subrange(i + 1, a.len() as int));
    } else {
        assert(a.skip(i as int).len() == 0);
        assert(a.take(i as int) == a);
    }
    BuildCommand { locked, offline, build_args, run_args, run_separator_seen: seen }
}

/// The build arguments of a mode: `run` adds `--run`, `check` adds `--emit=check`.
pub open spec fn mode_build_args(mode: BuildMode, args: Seq<Seq<char>>) -> Seq<Seq<char>> {
    match mode {
        BuildMode::Build => args,
        BuildMode::Run => args.push("--run"@),
        BuildMode::Check => args.push("--emit=check"@),
    }
}

/// Adds the flag of the mode to the build arguments.
pub fn add_mode_flag(mode: BuildMode, build_args: &mut Vec<String>)
    ensures
        views(final(build_args)@) == mode_build_args(mode, views(old(build_args)@)),
{
    let ghost before = build_args@;
    match mode {
        BuildMode::Build => {},
        BuildMode::Run => {
            build_args.push("--run".to_string());
            assert(views(build_args@) =~= views(before).push("--run"@));
        },
        BuildMode::Check => {
            build_args.push("--emit=check".to_string());
            assert(views(build_args@) =~= views(before).push("--emit=check"@));
        },
    }
}

/// A `.wave` file of `src/`: its path and whether it declares `fun main()`.
#[derive(Debug, Clone)]
pub struct WaveFile {
    pub path: String,
    pub has_main: bool,
}

/// Whether `x` is the least of the paths (that `cond` keeps) of `files`.
pub open spec fn least_path(files: Seq<WaveFile>, mains_only: bool, x: Seq<char>) -> bool {
    &&& exists|i: int| 0 <= i < files.len() && (!mains_only || files[i].has_main) && files[i].path@ == x
    &&& forall|i: int| 0 <= i < files.len() && (!mains_only || files[i].has_main) ==> !str_lt(files[i].path@, x)
}

/// The least path among the files (with `fun main()` when `mains_only`).
fn least_file(files: &[WaveFile], mains_only: bool) -> (r: Option<usize>)
    ensures
        match r {
            Some(k) => k < files@.len() && (!mains_only || files@[k as int].has_main) && least_path(files@, mains_only, files@[k as int].path@),
            None => (files@.len() == 0 || mains_only) && forall|i: int| 0 <= i < files@.len() ==> !files@[i].has_main,
        },
{
    let mut best: Option<usize> = None;
    let mut i: usize = 0;
    while i < files.len()
        invariant
            0 <= i <= files@.len(),
            match best {
                Some(k) => k < i && (!mains_only || files@[k as int].has_main) && forall|j: int|
                    0 <= j < i && (!mains_only || files@[j].has_main) ==> !str_lt(files@[j].path@, files@[k as int].path@),
                None => (i == 0 || mains_only) && forall|j: int| 0 <= j < i ==> !files@[j].has_main,
            },
        decreases files.len() - i,
    {
        if !mains_only || files[i].has_main {
            match best {
                Some(k) => {
                    if str_less(files[i].path.as_str(), files[k].path.as_str()) {
                        proof {
                            assert forall|j: int| 0 <= j <= i && (!mains_only || files@[j].has_main) implies !str_lt(files@[j].path@, files@[i as int].path@) by {
                                if j < i {
                                    if str_lt(files@[j].path@, files@[i as int].path@) {
                                        crate::text::lemma_str_lt_transitive(files@[j].path@, files@[i as int].path@, files@[k as int].path@);
                                    }
                                } else {
                                    crate::text::lemma_str_lt_irreflexive(files@[i as int].path@);
                                }
                            }
                        }
                        best = Some(i);
                    }
                },
                None => {
                    proof {
                        crate::text::lemma_str_lt_irreflexive(files@[i as int].path@);
                    }
                    best = Some(i);
                },
            }
        }
        i += 1;
    }
    assert(i == files@.len());
    proof {
        if let Some(k) = best {
            let x = files@[k as int].path@;
            assert(0 <= k < files@.len() && (!mains_only || files@[k as int].has_main) && files@[k as int].path@ == x);
            assert(exists|j: int| 0 <= j < files@.len() && (!mains_only || files@[j].has_main) && files@[j].path@ == x);
            assert(forall|j: int| 0 <= j < files@.len() && (!mains_only || files@[j].has_main) ==> !str_lt(files@[j].path@, x));
            assert(least_path(files@, mains_only, x));
        }
    }
    best
}

/// The input a build uses when none is given: the manifest's entry file if
/// it exists; for `run`, the least `.wave` file with `fun main()`; else the
/// least `.wave` file. A library has no default for `run`.
pub fn default_input(mode: BuildMode, lib: bool, preferred: &String, preferred_exists: bool, files: &[WaveFile]) -> (r: Result<String, String>)
    ensures
        mode == BuildMode::Run && lib ==> (r matches Err(m) && m@ == "library manifest cannot be `vex run` default target. Pass an explicit .wave file."@),
        !(mode == BuildMode::Run && lib) && preferred_exists ==> (r matches Ok(p) && p@ == preferred@),
        !(mode == BuildMode::Run && lib) && !preferred_exists ==> match r {
            Ok(p) => {
                ||| (mode == BuildMode::Run && least_path(files@, true, p@))
                ||| ((mode != BuildMode::Run || forall|i: int| 0 <= i < files@.len() ==> !files@[i].has_main) && least_path(files@, false, p@))
            },
            Err(m) => files@.len() == 0 && m@ == "no default Wave input found. Expected `"@ + preferred@ + "` or any `.wave` file in `src/`."@,
        },
{
    if mode == BuildMode::Run && lib {
        return Err(
            "library manifest cannot be `vex run` default target. Pass an explicit .wave file.".to_string(),
        );
    }
    if preferred_exists {
        return Ok(preferred.clone());
    }
    if mode == BuildMode::Run {
        if let Some(k) = least_file(files, true) {
            return Ok(files[k].path.clone());
        }
    }
    if let Some(k) = least_file(files, false) {
        proof {
            if mode == BuildMode::Run {
                assert forall|i: int| 0 <= i < files@.len() implies !files@[i].has_main by {
                }
            }
        }
        return Ok(files[k].path.clone());
    }
    assert(files@.len() == 0) by {
        if files@.len() > 0 {
            assert(!false && !files@[0].has_main);
        }
    }
    Err(cat3("no default Wave input found. Expected `", preferred.as_str(), "` or any `.wave` file in `src/`."))
}

/// Whether a source declares `fun main()`.
pub fn declares_main(content: &str) -> (r: bool)
    ensures
        r == exists|i: int| 0 <= i <= content@.len() && "fun main()"@.is_prefix_of(#[trigger] content@.skip(i)),
{
    let cs = crate::text::chars_of(content);
    let pat = crate::text::chars_of("fun main()");
    let mut i: usize = 0;
    while i < cs.len()
        invariant
            cs@ == content@,
            pat@ == "fun main()"@,
            0 <= i <= cs@.len(),
            forall|j: int| 0 <= j < i ==> !"fun main()"@.is_prefix_of(#[trigger] content@.skip(j)),
        decreases cs.len() - i,
    {
        if crate::text::has_prefix_at(cs.as_slice(), i, pat.as_slice()) {
            return true;
        }
        i += 1;
    }
    crate::text::has_prefix_at(cs.as_slice(), cs.len(), pat.as_slice())
}

/// The full wavec invocation of a build.
pub open spec fn wavec_invocation(dependency_args: Seq<Seq<char>>, global_args: Seq<Seq<char>>, build_args: Seq<Seq<char>>, run_separator_seen: bool, run_args: Seq<Seq<char>>) -> Seq<Seq<char>> {
    let head = dependency_args + global_args + seq!["build"@] + build_args;
    if run_separator_seen {
        head + seq!["--"@] + run_args
    } else {
        head
    }
}

fn append_all(out: &mut Vec<String>, items: &[String])
    ensures
        views(final(out)@) == views(old(out)@) + views(items@),
{
    let ghost start = views(out@);
    let mut i: usize = 0;
    assert(views(items@).take(0) =~= Seq::<Seq<char>>::empty());
    assert(start + Seq::<Seq<char>>::empty() == start);
    while i < items.len()
        invariant
            0 <= i <= items@.len(),
            views(out@) == start + views(items@).take(i as int),
        decreases items.len() - i,
    {
        let ghost before = out@;
        let c = items[i].clone();
        assert(c@ == items@[i as int]@);
        out.push(c);
        assert(views(out@) =~= views(before).push(c@));
        assert(views(items@).take(i + 1) =~= views(items@).take(i as int).push(items@[i as int]@));
        i += 1;
    }
    assert(views(items@).take(items@.len() as int) =~= views(items@));
}

/// The arguments wavec is run with: dependency mappings, global options,
/// `build`, the build arguments, then `--` and the run arguments if any.
pub fn wavec_args(dependency_args: &[String], global_args: &[String], build_args: &[String], run_separator_seen: bool, run_args: &[String]) -> (r: Vec<String>)
    ensures
        views(r@) == wavec_invocation(
            views(dependency_args@),
            views(global_args@),
            views(build_args@),
            run_separator_seen,
            views(run_args@),
        ),
{
    let mut out: Vec<String> = Vec::new();
    assert(views(out@) =~= Seq::<Seq<char>>::empty());
    append_all(&mut out, dependency_args);
    append_all(&mut out, global_args);
    let ghost before = out@;
    out.push("build".to_string());
    assert(views(out@) =~= views(before).push("build"@));
    append_all(&mut out, build_args);
    if run_separator_seen {
        let ghost before = out@;
        out.push("--".to_string());
        assert(views(out@) =~= views(before).push("--"@));
        append_all(&mut out, run_args);
    }
    assert(Seq::<Seq<char>>::empty() + views(dependency_args@) == views(dependency_args@));
    out
}

} // verus!
