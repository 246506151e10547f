//! `vex fetch` and `vex update`: their options and the update policy.
use vstd::prelude::*;

use crate::resolver::{ResolveOptions, UpdatePolicy, UpdatePolicyV};
use crate::text::{cat, cat3, join, join_seq, sort_dedup, sorted_unique, str_eq, views};

verus! {

broadcast use vstd::string::group_string_axioms;

/// The options of `vex fetch` and `vex update`.
#[derive(Debug, Default)]
pub struct DependencyOptions {
    pub locked: bool,
    pub offline: bool,
    /// The packages named for update, sorted, without repeats.
    pub packages: Vec<String>,
}

pub ghost struct OptionsScan {
    pub locked: bool,
    pub offline: bool,
    pub names: Seq<Seq<char>>,
}

/// The usage line of the command.
pub open spec fn usage_text(update: bool) -> Seq<char> {
    if update {
        "update [<package>...]"@
    } else {
        "fetch [--locked] [--offline]"@
    }
}

/// Reading the arguments in order: `--locked`, `--offline`, and for an
/// update any package name; help and anything else are errors.
pub open spec fn scan_options(update: bool, args: Seq<Seq<char>>) -> Result<OptionsScan, Seq<char>>
    decreases args.len(),
{
    if args.len() == 0 {
        Ok(OptionsScan { locked: false, offline: false, names: Seq::empty() })
    } else {
        match scan_options(update, args.drop_last()) {
            Err(e) => Err(e),
            Ok(o) => {
                let a = args.last();
                if a == "--locked"@ {
                    Ok(OptionsScan { locked: true, ..o })
                } else if a == "--offline"@ {
                    Ok(OptionsScan { offline: true, ..o })
                } else if a == "-h"@ || a == "--help"@ {
                    Err("usage: vex "@ + usage_text(update))
                } else if update && !(a.len() > 0 && a[0] == '-') {
                    Ok(OptionsScan { names: o.names.push(a), ..o })
                } else {
                    Err("unknown Vex option `"@ + a + "`\nusage: vex "@ + usage_text(update))
                }
            },
        }
    }
}

proof fn lemma_scan_err(update: bool, args: Seq<Seq<char>>, k: int)
    requires
        0 <= k <= args.len(),
        scan_options(update, args.take(k)) is Err,
    ensures
        scan_options(update, args) == scan_options(update, args.take(k)),
    decreases args.len() - k,
{
    if k < args.len() {
        assert(args.take(k + 1).drop_last() == args.take(k));
        lemma_scan_err(update, args, k + 1);
    } else {
        assert(args.take(k) == args);
    }
}

fn usage(update: bool) -> (r: &'static str)
    ensures
        r@ == usage_text(update),
{
    if update {
        "update [<package>...]"
    } else {
        "fetch [--locked] [--offline]"
    }
}

/// Whether `s` starts with `-`.
pub(crate) fn starts_with_dash(s: &str) -> (r: bool)
    ensures
        r == (s@.len() > 0 && s@[0] == '-'),
{
    let cs = crate::text::chars_of(s);
    cs.len() > 0 && cs[0] == '-'
}

/// Reads the options of `vex fetch` (`update` false) or `vex update`.
pub fn parse_options(update: bool, args: &[String]) -> (r: Result<DependencyOptions, String>)
    ensures
        match scan_options(update, views(args@)) {
            Ok(o) => r matches Ok(v) && v.locked == o.locked && v.offline == o.offline && views(
                v.packages@,
            ) == sort_dedup(o.names),
            Err(e) => r matches Err(m) && m@ == e,
        },
{
    let ghost a = views(args@);
    let mut locked = false;
    let mut offline = false;
    let mut names: Vec<String> = Vec::new();
    let mut i: usize = 0;
    assert(a.take(0) =~= Seq::<Seq<char>>::empty());
    assert(views(names@) =~= Seq::<Seq<char>>::empty());
    while i < args.len()
        invariant
            a == views(args@),
            0 <= i <= a.len(),
            scan_options(update, a.take(i as int)) == Ok::<OptionsScan, Seq<char>>(
                OptionsScan { locked, offline, names: views(names@) },
            ),
        decreases args.len() - i,
    {
        assert(a.take(i + 1).drop_last() == a.take(i as int));
        assert(a.take(i + 1).last() == args@[i as int]@);
        let argument = args[i].as_str();
        if str_eq(argument, "--locked") {
            locked = true;
        } else if str_eq(argument, "--offline") {
            offline = true;
        } else if str_eq(argument, "-h") || str_eq(argument, "--help") {
            proof {
                lemma_scan_err(update, a, i + 1);
            }
            return Err(cat("usage: vex ", usage(update)));
        } else if update && !starts_with_dash(argument) {
            let ghost before = names@;
            names.push(args[i].clone());
            assert(views(names@) =~= views(before).push(a[i as int]));
        } else {
            proof {
                lemma_scan_err(update, a, i + 1);
            }
            let mut m = cat3("unknown Vex option `", argument, "`\nusage: vex ");
            m.append(usage(update));
            return Err(m);
        }
        i += 1;
    }
    assert(a.take(a.len() as int) == a);
    Ok(DependencyOptions { locked, offline, packages: sorted_unique(names) })
}

/// The options of a resolution for `vex fetch` or `vex update`: an update
/// refuses `--locked` and `--offline`; it refreshes the packages named, or
/// every one when none is named.
pub open spec fn fetch_options_spec(update: bool, args: Seq<Seq<char>>) -> Result<(bool, bool, UpdatePolicyV), Seq<char>> {
    match scan_options(update, args) {
        Err(e) => Err(e),
        Ok(o) => if update && o.locked {
            Err(
                "`--locked` cannot be used with `vex update` because update rewrites vex.lock"@,
            )
        } else if update && o.offline {
            Err(
                "`--offline` cannot be used with `vex update` because update refreshes Git refs"@,
            )
        } else if !update {
            Ok((o.locked, o.offline, UpdatePolicyV::ReuseLocked))
        } else if o.names.len() == 0 {
            Ok((o.locked, o.offline, UpdatePolicyV::UpdateAll))
        } else {
            Ok((o.locked, o.offline, UpdatePolicyV::UpdateSelected(sort_dedup(o.names))))
        },
    }
}

/// The resolution options of `vex fetch` (`update` false) or `vex update`.
pub fn fetch_options(update: bool, args: &[String]) -> (r: Result<ResolveOptions, String>)
    ensures
        match fetch_options_spec(update, views(args@)) {
            Ok((locked, offline, policy)) => r matches Ok(o) && !o.dry_run && o.locked == locked
                && o.offline == offline && o.update@ == policy,
            Err(e) => r matches Err(m) && m@ == e,
        },
{
    let options = parse_options(update, args)?;
    if update && options.locked {
        return Err(
            "`--locked` cannot be used with `vex update` because update rewrites vex.lock".to_string(),
        );
    }
    if update && options.offline {
        return Err(
            "`--offline` cannot be used with `vex update` because update refreshes Git refs".to_string(),
        );
    }
    let ghost scanned = scan_options(update, views(args@))->Ok_0;
    proof {
        crate::text::lemma_sort_dedup(scanned.names);
        if scanned.names.len() > 0 {
            assert(scanned.names.to_set().contains(scanned.names[0]));
        } else {
            assert(sort_dedup(scanned.names) =~= Seq::<Seq<char>>::empty());
        }
    }
    let policy = if !update {
        UpdatePolicy::ReuseLocked
    } else if options.packages.len() == 0 {
        proof {
            if scanned.names.len() > 0 {
                assert(sort_dedup(scanned.names).to_set().contains(scanned.names[0]));
            }
        }
        UpdatePolicy::UpdateAll
    } else {
        UpdatePolicy::UpdateSelected(options.packages)
    };
    Ok(ResolveOptions { dry_run: false, update: policy, locked: options.locked, offline: options.offline })
}

pub open spec fn backquoted_all(names: Seq<Seq<char>>) -> Seq<Seq<char>> {
    names.map_values(|n: Seq<char>| "`"@ + n + "`"@)
}

/// The status line of an update: what it refreshes.
pub open spec fn update_status_text(p: UpdatePolicyV) -> Option<Seq<char>> {
    match p {
        UpdatePolicyV::ReuseLocked => None,
        UpdatePolicyV::UpdateAll => Some("all Git dependencies"@),
        UpdatePolicyV::UpdateSelected(names) => Some(
            "Git package"@ + (if names.len() == 1 {
                ""@
            } else {
                "s"@
            }) + " "@ + join_seq(backquoted_all(names), ", "@),
        ),
    }
}

/// The status line of an update: what it refreshes.
pub fn update_status(policy: &UpdatePolicy) -> (r: Option<String>)
    ensures
        match update_status_text(policy@) {
            Some(t) => r matches Some(s) && s@ == t,
            None => r is None,
        },
{
    match policy {
        UpdatePolicy::ReuseLocked => None,
        UpdatePolicy::UpdateAll => Some("all Git dependencies".to_string()),
        UpdatePolicy::UpdateSelected(names) => {
            let ghost ns = views(names@);
            let mut quoted: Vec<String> = Vec::new();
            let mut i: usize = 0;
            assert(views(quoted@) =~= backquoted_all(ns.take(0)));
            while i < names.len()
                invariant
                    ns == views(names@),
                    0 <= i <= ns.len(),
                    views(quoted@) == backquoted_all(ns.take(i as int)),
                decreases names.len() - i,
            {
                let ghost before = quoted@;
                quoted.push(cat3("`", names[i].as_str(), "`"));
                assert(backquoted_all(ns.take(i + 1)) =~= backquoted_all(ns.take(i as int)).push(
                    "`"@ + ns[i as int] + "`"@,
                ));
                assert(views(quoted@) =~= views(before).push(quoted@.last()@));
                i += 1;
            }
            assert(ns.take(ns.len() as int) == ns);
            let mut m = "Git package".to_string();
            if names.len() != 1 {
                m.append("s");
            } else {
                proof {
                    reveal_strlit("");
                }
                assert(m@ + ""@ =~= m@);
            }
            m.append(" ");
            m.append(join(quoted.as_slice(), ", ").as_str());
            Some(m)
        },
    }
}

/// How many packages a fetch resolved, as its closing status line says it
/// (the elapsed time follows it).
pub fn resolved_count_text(count: usize) -> (r: String)
    ensures
        r@ == "resolved "@ + crate::text::decimal(count as nat) + (if count == 1 {
            " package"@
        } else {
            " packages"@
        }),
{
    let n = crate::text::u64_to_decimal(count as u64);
    if count == 1 {
        cat3("resolved ", n.as_str(), " package")
    } else {
        cat3("resolved ", n.as_str(), " packages")
    }
}

} // verus!
