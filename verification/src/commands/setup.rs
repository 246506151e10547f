//! `vex setup wavec`: its options and the arguments of the wavec installer.
use vstd::prelude::*;

use crate::text::{cat3, str_eq, views};

verus! {

broadcast use vstd::string::group_string_axioms;

/// The arguments of the installer: `--version <v>` for an explicit version,
/// else `latest`.
pub open spec fn installer_args_spec(version: Option<Seq<char>>) -> Seq<Seq<char>> {
    match version {
        Some(v) => seq!["--version"@, v],
        None => seq!["latest"@],
    }
}

/// The arguments of the wavec installer.
pub fn installer_args(version: Option<&str>) -> (r: Vec<String>)
    ensures
        views(r@) == installer_args_spec(match version { Some(v) => Some(v@), None => None }),
{
    let mut r: Vec<String> = Vec::new();
    match version {
        Some(ver) => {
            r.push("--version".to_string());
            r.push(ver.to_string());
        },
        None => {
            r.push("latest".to_string());
        },
    }
    assert(views(r@) =~= installer_args_spec(match version { Some(v) => Some(v@), None => None }));
    r
}

/// The version to announce: the explicit one, else `latest`.
pub fn display_version(installer_args: &[String]) -> (r: String)
    ensures
        r@ == (if installer_args@.len() == 2 { installer_args@[1]@ } else { "latest"@ }),
{
    if installer_args.len() == 2 {
        installer_args[1].clone()
    } else {
        "latest".to_string()
    }
}

/// The PowerShell that runs the Windows installer.
pub fn windows_shell(is_windows: bool) -> (r: &'static str)
    ensures
        r@ == (if is_windows { "powershell.exe"@ } else { "pwsh"@ }),
{
    if is_windows {
        "powershell.exe"
    } else {
        "pwsh"
    }
}

pub open spec fn setup_usage() -> Seq<char> {
    "usage: vex setup wavec [--version <version>]"@
}

/// What `vex setup` was asked to do.
#[derive(Debug, Clone, PartialEq, Eq)]
pub enum SetupRequest {
    /// Print the usage.
    Help,
    /// Install wavec, of the version given or else the latest.
    Install(Option<String>),
}

pub ghost enum SetupRequestV {
    Help,
    Install(Option<Seq<char>>),
}

impl View for SetupRequest {
    type V = SetupRequestV;

    open spec fn view(&self) -> SetupRequestV {
        match self {
            SetupRequest::Help => SetupRequestV::Help,
            SetupRequest::Install(v) => SetupRequestV::Install(crate::text::opt_view(*v)),
        }
    }
}

pub open spec fn is_help(a: Seq<char>) -> bool {
    a == "-h"@ || a == "--help"@
}

/// Reading `vex setup wavec` options from `i` on: help asks for usage;
/// `--version <v>` takes a value that is not an option, the last one
/// winning; anything else is an error.
pub open spec fn setup_scan(args: Seq<Seq<char>>, i: int, version: Option<Seq<char>>) -> Result<SetupRequestV, Seq<char>>
    decreases args.len() - i,
{
    if i < 1 || i >= args.len() {
        Ok(SetupRequestV::Install(version))
    } else if is_help(args[i]) {
        Ok(SetupRequestV::Help)
    } else if args[i] == "--version"@ {
        if i + 1 >= args.len() {
            Err("missing value for --version"@)
        } else if args[i + 1].len() > 0 && args[i + 1][0] == '-' {
            Err("expected a version value after --version, found `"@ + args[i + 1] + "`"@)
        } else {
            setup_scan(args, i + 2, Some(args[i + 1]))
        }
    } else {
        Err("unknown setup option `"@ + args[i] + "`\n"@ + setup_usage())
    }
}

/// The arguments of `vex setup`: help alone, or `wavec` first, then options.
pub open spec fn setup_request(args: Seq<Seq<char>>) -> Result<SetupRequestV, Seq<char>> {
    if args.len() == 1 && is_help(args[0]) {
        Ok(SetupRequestV::Help)
    } else if args.len() == 0 || args[0] != "wavec"@ {
        Err(setup_usage())
    } else {
        setup_scan(args, 1, None)
    }
}

fn is_help_arg(a: &str) -> (r: bool)
    ensures
        r == is_help(a@),
{
    str_eq(a, "-h") || str_eq(a, "--help")
}

/// Reads the arguments of `vex setup`.
pub fn parse_setup_args(args: &[String]) -> (r: Result<SetupRequest, String>)
    ensures
        match setup_request(views(args@)) {
            Ok(q) => r matches Ok(p) && p@ == q,
            Err(e) => r matches Err(m) && m@ == e,
        },
{
    let ghost a = views(args@);
    assert(args@.len() > 0 ==> args@[0]@ == a[0]);
    if args.len() == 1 && is_help_arg(args[0].as_str()) {
        return Ok(SetupRequest::Help);
    }
    if args.len() == 0 || !str_eq(args[0].as_str(), "wavec") {
        return Err("usage: vex setup wavec [--version <version>]".to_string());
    }
    let mut version: Option<String> = None;
    let mut i: usize = 1;
    while i < args.len()
        invariant
            a == views(args@),
            a.len() == args@.len(),
            1 <= i,
            setup_request(a) == setup_scan(a, 1, None),
            setup_scan(a, i as int, crate::text::opt_view(version)) == setup_scan(a, 1, None),
        decreases args.len() - i,
    {
        assert(args@[i as int]@ == a[i as int]);
        if is_help_arg(args[i].as_str()) {
            return Ok(SetupRequest::Help);
        }
        if str_eq(args[i].as_str(), "--version") {
            if i + 1 >= args.len() {
                return Err("missing value for --version".to_string());
            }
            assert(args@[i + 1]@ == a[i + 1]);
            if crate::commands::deps::starts_with_dash(args[i + 1].as_str()) {
                return Err(cat3("expected a version value after --version, found `", args[i + 1].as_str(), "`"));
            }
            version = Some(args[i + 1].clone());
            i += 2;
        } else {
            let mut m = cat3("unknown setup option `", args[i].as_str(), "`\n");
            m.append("usage: vex setup wavec [--version <version>]");
            return Err(m);
        }
    }
    Ok(SetupRequest::Install(version))
}

} // verus!
