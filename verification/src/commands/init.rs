//! `vex init`: its options and the files of a new project.
use vstd::prelude::*;

use crate::text::{cat, str_eq, views};

verus! {

broadcast use vstd::string::group_string_axioms;

/// Reading the options of `vex init` in order: `--lib` once makes a
/// library; help alone asks for usage (`None`); anything else is an error.
pub open spec fn init_scan(args: Seq<Seq<char>>, i: int, is_lib: bool) -> Result<Option<bool>, Seq<char>>
    decreases args.len() - i,
{
    if i < 0 || i >= args.len() {
        Ok(Some(is_lib))
    } else if args[i] == "--lib"@ && !is_lib {
        init_scan(args, i + 1, true)
    } else if args[i] == "--lib"@ {
        Err("`--lib` may only be specified once"@)
    } else if (args[i] == "-h"@ || args[i] == "--help"@) && args.len() == 1 {
        Ok(None)
    } else {
        Err("unknown Vex option `"@ + args[i] + "`"@)
    }
}

/// The options of `vex init`: whether to make a library, or `None` for help.
pub fn parse_options(args: &[String]) -> (r: Result<Option<bool>, String>)
    ensures
        match init_scan(views(args@), 0, false) {
            Ok(o) => r == Ok::<Option<bool>, String>(o),
            Err(e) => r matches Err(m) && m@ == e,
        },
{
    let ghost a = views(args@);
    let mut is_lib = false;
    let mut i: usize = 0;
    while i < args.len()
        invariant
            a == views(args@),
            a.len() == args@.len(),
            init_scan(a, i as int, is_lib) == init_scan(a, 0, false),
        decreases args.len() - i,
    {
        let argument = args[i].as_str();
        assert(argument@ == a[i as int]);
        if str_eq(argument, "--lib") && !is_lib {
            is_lib = true;
        } else if str_eq(argument, "--lib") {
            return Err("`--lib` may only be specified once".to_string());
        } else if (str_eq(argument, "-h") || str_eq(argument, "--help")) && args.len() == 1 {
            return Ok(None);
        } else {
            return Err(crate::text::cat3("unknown Vex option `", argument, "`"));
        }
        i += 1;
    }
    Ok(Some(is_lib))
}

/// The source file of a new project: `lib.wave` for a library, else `main.wave`.
pub fn source_file_name(is_lib: bool) -> (r: &'static str)
    ensures
        r@ == (if is_lib { "lib.wave"@ } else { "main.wave"@ }),
{
    if is_lib {
        "lib.wave"
    } else {
        "main.wave"
    }
}

/// The first source of a new project.
pub fn source_template(is_lib: bool) -> (r: &'static str)
    ensures
        r@ == (if is_lib {
            "fun greet() {\n    println(\"Hello from library\");\n}\n"@
        } else {
            "fun main() {\n    println(\"Hello World\");\n}\n"@
        }),
{
    if is_lib {
        "fun greet() {\n    println(\"Hello from library\");\n}\n"
    } else {
        "fun main() {\n    println(\"Hello World\");\n}\n"
    }
}

} // verus!
