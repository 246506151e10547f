//! `vex info`: its arguments and the report it prints.
use vstd::prelude::*;

use crate::manifest::{Dependency, DependencySource, DependencySourceV, DependencyV, Manifest, ManifestV, dependency_views};
use crate::text::{cat, cat3, decimal, str_eq, u64_to_decimal, views};

verus! {

broadcast use vstd::string::group_string_axioms;

/// What `vex info` was asked to do.
#[derive(Debug, Clone, Copy, PartialEq, Eq)]
pub enum InfoRequest {
    Help,
    Show,
}

/// Help alone asks for usage; no argument shows the report; any other
/// argument is an error.
pub open spec fn info_request_spec(args: Seq<Seq<char>>) -> Result<InfoRequest, Seq<char>> {
    if args.len() == 1 && (args[0] == "-h"@ || args[0] == "--help"@) {
        Ok(InfoRequest::Help)
    } else if args.len() > 0 {
        Err("unexpected argument `"@ + args[0] + "`\nusage: vex info"@)
    } else {
        Ok(InfoRequest::Show)
    }
}

/// Reads the arguments of `vex info`.
pub fn info_request(args: &[String]) -> (r: Result<InfoRequest, String>)
    ensures
        match info_request_spec(views(args@)) {
            Ok(q) => r == Ok::<InfoRequest, String>(q),
            Err(e) => r matches Err(m) && m@ == e,
        },
{
    if args.len() == 0 {
        return Ok(InfoRequest::Show);
    }
    assert(views(args@)[0] == args@[0]@);
    if args.len() == 1 && (str_eq(args[0].as_str(), "-h") || str_eq(args[0].as_str(), "--help")) {
        return Ok(InfoRequest::Help);
    }
    Err(cat3("unexpected argument `", args[0].as_str(), "`\nusage: vex info"))
}

/// The reference a Git dependency names, as the report shows it.
pub open spec fn reference_suffix(branch: Option<Seq<char>>, tag: Option<Seq<char>>, rev: Option<Seq<char>>) -> Seq<char> {
    match branch {
        Some(b) => " branch "@ + b,
        None => match tag {
            Some(t) => " tag "@ + t,
            None => match rev {
                Some(r) => " rev "@ + r,
                None => ""@,
            },
        },
    }
}

/// The report line of a dependency.
pub open spec fn dependency_line(d: DependencyV) -> Seq<char> {
    let head = match d.version {
        Some(v) => "  "@ + d.name + " "@ + v,
        None => "  "@ + d.name,
    };
    match d.source {
        DependencySourceV::Path { path } => head + " path "@ + path,
        DependencySourceV::Git { url, branch, tag, rev } => head + " git "@ + url + reference_suffix(
            branch,
            tag,
            rev,
        ),
    }
}

pub open spec fn optional_line(label: Seq<char>, value: Option<Seq<char>>) -> Seq<Seq<char>> {
    match value {
        Some(v) => seq![label + v],
        None => Seq::empty(),
    }
}

pub open spec fn dependency_lines(ds: Seq<DependencyV>) -> Seq<Seq<char>> {
    ds.map_values(|d: DependencyV| dependency_line(d))
}

/// The lines of the report on a manifest.
pub open spec fn info_text(m: ManifestV) -> Seq<Seq<char>> {
    seq![
        "Vex project info"@,
        "name: "@ + m.name,
        "version: "@ + m.version,
        "type: "@ + (if m.lib { "library"@ } else { "binary"@ }),
        "manifest: "@ + m.source_path,
    ] + optional_line("description: "@, m.description) + optional_line("author: "@, m.author)
        + optional_line("license: "@, m.license) + seq![
        "dependencies: "@ + decimal(m.dependencies.len()),
    ] + dependency_lines(m.dependencies)
}

fn push_line(lines: &mut Vec<String>, line: String)
    ensures
        views(final(lines)@) == views(old(lines)@).push(line@),
{
    let ghost before = lines@;
    lines.push(line);
    assert(views(lines@) =~= views(before).push(line@));
}

fn push_optional(lines: &mut Vec<String>, label: &str, value: &Option<String>)
    ensures
        views(final(lines)@) == views(old(lines)@) + optional_line(label@, crate::text::opt_view(*value)),
{
    let ghost before = lines@;
    if let Some(v) = value {
        push_line(lines, cat(label, v.as_str()));
    }
    assert(views(lines@) =~= views(before) + optional_line(label@, crate::text::opt_view(*value)));
}

fn reference_of(branch: &Option<String>, tag: &Option<String>, rev: &Option<String>) -> (r: String)
    ensures
        r@ == reference_suffix(
            crate::text::opt_view(*branch),
            crate::text::opt_view(*tag),
            crate::text::opt_view(*rev),
        ),
{
    match branch {
        Some(b) => cat(" branch ", b.as_str()),
        None => match tag {
            Some(t) => cat(" tag ", t.as_str()),
            None => match rev {
                Some(r) => cat(" rev ", r.as_str()),
                None => "".to_string(),
            },
        },
    }
}

/// The report line of a dependency.
fn dependency_report(d: &Dependency) -> (r: String)
    ensures
        r@ == dependency_line(d@),
{
    let mut line = cat("  ", d.name.as_str());
    if let Some(v) = &d.version {
        line.append(" ");
        line.append(v.as_str());
    }
    match &d.source {
        DependencySource::Path { path } => {
            line.append(" path ");
            line.append(path.as_str());
        },
        DependencySource::Git { url, branch, tag, rev } => {
            line.append(" git ");
            line.append(url.as_str());
            line.append(reference_of(branch, tag, rev).as_str());
        },
    }
    line
}

/// The lines that `vex info` prints for a manifest.
pub fn info_lines(manifest: &Manifest) -> (r: Vec<String>)
    ensures
        views(r@) == info_text(manifest@),
{
    let mut lines: Vec<String> = Vec::new();
    assert(views(lines@) =~= Seq::<Seq<char>>::empty());
    push_line(&mut lines, "Vex project info".to_string());
    push_line(&mut lines, cat("name: ", manifest.name.as_str()));
    push_line(&mut lines, cat("version: ", manifest.version.as_str()));
    push_line(&mut lines, cat("type: ", if manifest.lib { "library" } else { "binary" }));
    push_line(&mut lines, cat("manifest: ", manifest.source_path.as_str()));
    push_optional(&mut lines, "description: ", &manifest.description);
    push_optional(&mut lines, "author: ", &manifest.author);
    push_optional(&mut lines, "license: ", &manifest.license);
    let count = u64_to_decimal(manifest.dependencies.len() as u64);
    push_line(&mut lines, cat("dependencies: ", count.as_str()));
    let ghost head = views(lines@);
    let ghost ds = manifest@.dependencies;
    let mut i: usize = 0;
    assert(dependency_lines(ds.take(0)) =~= Seq::<Seq<char>>::empty());
    assert(head + dependency_lines(ds.take(0)) =~= head);
    while i < manifest.dependencies.len()
        invariant
            ds == dependency_views(manifest.dependencies@),
            0 <= i <= ds.len(),
            views(lines@) == head + dependency_lines(ds.take(i as int)),
        decreases manifest.dependencies.len() - i,
    {
        let line = dependency_report(&manifest.dependencies[i]);
        push_line(&mut lines, line);
        assert(dependency_lines(ds.take(i + 1)) =~= dependency_lines(ds.take(i as int)).push(
            dependency_line(ds[i as int]),
        ));
        i += 1;
    }
    assert(ds.take(ds.len() as int) == ds);
    assert(views(lines@) =~= info_text(manifest@));
    lines
}

} // verus!
