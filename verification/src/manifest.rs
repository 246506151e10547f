//! `vex.ws`: the package manifest, how it is read, and the text of a new one.
use vstd::prelude::*;

use crate::text::{
    cat, cat3, decimal, escape_quoted, escape_str, join, join_seq, opt_view, replace_all,
    replace_str, u64_to_decimal, views,
};
use crate::wson::{get, loads, wson_document, wson_get, Wson};

verus! {

broadcast use vstd::string::group_string_axioms;

pub const MANIFEST_FILE: &'static str = "vex.ws";

/// Where a dependency comes from.
#[derive(Debug, Clone, Eq, PartialEq)]
pub enum DependencySource {
    Path { path: String },
    Git { url: String, branch: Option<String>, tag: Option<String>, rev: Option<String> },
}

/// One entry of the manifest's `dependencies`.
#[derive(Debug, Clone, Eq, PartialEq)]
pub struct Dependency {
    pub name: String,
    pub version: Option<String>,
    pub source: DependencySource,
}

/// A package manifest; `source_path` is the file it was read from.
#[derive(Debug, Clone)]
pub struct Manifest {
    pub name: String,
    pub version: String,
    pub lib: bool,
    pub description: Option<String>,
    pub author: Option<String>,
    pub license: Option<String>,
    pub dependencies: Vec<Dependency>,
    pub source_path: String,
}

pub ghost enum DependencySourceV {
    Path { path: Seq<char> },
    Git {
        url: Seq<char>,
        branch: Option<Seq<char>>,
        tag: Option<Seq<char>>,
        rev: Option<Seq<char>>,
    },
}

pub ghost struct DependencyV {
    pub name: Seq<char>,
    pub version: Option<Seq<char>>,
    pub source: DependencySourceV,
}

pub ghost struct ManifestV {
    pub name: Seq<char>,
    pub version: Seq<char>,
    pub lib: bool,
    pub description: Option<Seq<char>>,
    pub author: Option<Seq<char>>,
    pub license: Option<Seq<char>>,
    pub dependencies: Seq<DependencyV>,
    pub source_path: Seq<char>,
}

impl View for DependencySource {
    type V = DependencySourceV;

    open spec fn view(&self) -> DependencySourceV {
        match self {
            DependencySource::Path { path } => DependencySourceV::Path { path: path@ },
            DependencySource::Git { url, branch, tag, rev } => DependencySourceV::Git {
                url: url@,
                branch: opt_view(*branch),
                tag: opt_view(*tag),
                rev: opt_view(*rev),
            },
        }
    }
}

impl View for Dependency {
    type V = DependencyV;

    open spec fn view(&self) -> DependencyV {
        DependencyV { name: self.name@, version: opt_view(self.version), source: self.source@ }
    }
}

pub open spec fn dependency_views(s: Seq<Dependency>) -> Seq<DependencyV> {
    s.map_values(|d: Dependency| d@)
}

impl View for Manifest {
    type V = ManifestV;

    open spec fn view(&self) -> ManifestV {
        ManifestV {
            name: self.name@,
            version: self.version@,
            lib: self.lib,
            description: opt_view(self.description),
            author: opt_view(self.author),
            license: opt_view(self.license),
            dependencies: dependency_views(self.dependencies@),
            source_path: self.source_path@,
        }
    }
}

impl Manifest {
    /// The file a build starts from when none is named: `src/lib.wave` for
    /// a library, `src/main.wave` otherwise.
    pub fn default_entry_path(&self) -> (r: String)
        ensures
            r@ == (if self.lib { "src/lib.wave"@ } else { "src/main.wave"@ }),
    {
        if self.lib {
            "src/lib.wave".to_string()
        } else {
            "src/main.wave".to_string()
        }
    }
}

/// The text of the manifest that `vex init` writes.
pub open spec fn new_manifest_text(name: Seq<char>, author: Seq<char>, is_lib: bool) -> Seq<char> {
    let n = escape_quoted(name);
    "{\n    name = \""@ + n + "\",\n    version = 0.1.0,\n    lib = "@ + (if is_lib {
        "true"@
    } else {
        "false"@
    }) + ",\n    description = \""@ + n + " Project\",\n    author = \""@ + escape_quoted(author)
        + "\",\n    license = \"Unknown\",\n    dependencies = []\n}\n"@
}

/// The manifest of a new project, with its name and author escaped for a
/// WSON string.
pub fn render_new_manifest(project_name: &str, author: &str, is_lib: bool) -> (r: String)
    ensures
        r@ == new_manifest_text(project_name@, author@, is_lib),
{
    let name = escape_wson_string(project_name);
    let mut r = cat3("{\n    name = \"", name.as_str(), "\",\n    version = 0.1.0,\n    lib = ");
    r.append(if is_lib { "true" } else { "false" });
    r.append(",\n    description = \"");
    r.append(name.as_str());
    r.append(" Project\",\n    author = \"");
    r.append(escape_wson_string(author).as_str());
    r.append("\",\n    license = \"Unknown\",\n    dependencies = []\n}\n");
    r
}

/// A backslash before every backslash and double quote.
fn escape_wson_string(value: &str) -> (r: String)
    ensures
        r@ == escape_quoted(value@),
{
    escape_str(value)
}

/// The text that stands for `://` while a manifest is parsed.
pub open spec fn manifest_sentinel() -> Seq<char> {
    "__VEX_WSON_URL_SEPARATOR__"@
}

/// A string of the manifest with the stand-in turned back into `://`.
pub open spec fn restore_separators(s: Seq<char>) -> Seq<char> {
    replace_all(s, manifest_sentinel(), "://"@)
}

/// A version written as numbers, as `1.2.3`.
pub open spec fn version_text(v: Seq<u32>) -> Seq<char> {
    join_seq(v.map_values(|n: u32| decimal(n as nat)), "."@)
}

/// A version field: a WSON version, or a string.
pub open spec fn version_string(w: Wson) -> Option<Seq<char>> {
    match w {
        Wson::Version(v) => Some(version_text(v@)),
        Wson::String(s) => Some(restore_separators(s@)),
        _ => None,
    }
}

pub open spec fn ascii_alpha(c: char) -> bool {
    ('a' <= c && c <= 'z') || ('A' <= c && c <= 'Z')
}

pub open spec fn ascii_alnum(c: char) -> bool {
    ascii_alpha(c) || ('0' <= c && c <= '9')
}

/// A dependency name: `[A-Za-z_][A-Za-z0-9_]*`.
pub open spec fn valid_name(s: Seq<char>) -> bool {
    s.len() > 0 && (ascii_alpha(s[0]) || s[0] == '_') && forall|i: int|
        1 <= i < s.len() ==> ascii_alnum(#[trigger] s[i]) || s[i] == '_'
}

pub open spec fn name_check(name: Seq<char>) -> Result<(), Seq<char>> {
    if name.len() == 0 {
        Err("dependency name cannot be empty"@)
    } else if !valid_name(name) {
        Err("invalid dependency name `"@ + name + "`: use [A-Za-z_][A-Za-z0-9_]*"@)
    } else {
        Ok(())
    }
}

/// A string field that must be there; `field` names it in the error.
pub open spec fn dep_required(w: Option<Wson>, field: Seq<char>) -> Result<Seq<char>, Seq<char>> {
    match w {
        Some(Wson::String(s)) => Ok(restore_separators(s@)),
        _ => Err(field + " must be a string"@),
    }
}

/// A string field that may be missing; `field` names it in the error.
pub open spec fn dep_optional(w: Option<Wson>, field: Seq<char>) -> Result<Option<Seq<char>>, Seq<char>> {
    match w {
        Some(Wson::String(s)) => Ok(Some(restore_separators(s@))),
        Some(_) => Err(field + " must be a string"@),
        None => Ok(None),
    }
}

/// How many of the Git references are given.
pub open spec fn ref_count(branch: Option<Seq<char>>, tag: Option<Seq<char>>, rev: Option<Seq<char>>) -> int {
    (if branch is Some { 1int } else { 0 }) + (if tag is Some { 1int } else { 0 }) + (if rev is Some {
        1int
    } else {
        0
    })
}

/// The source, once the fields of an entry are read.
pub open spec fn dep_source(name: Seq<char>, path: Option<Seq<char>>, git: Option<Seq<char>>, branch: Option<Seq<char>>, tag: Option<Seq<char>>, rev: Option<Seq<char>>) -> Result<DependencySourceV, Seq<char>> {
    if ref_count(branch, tag, rev) > 1 {
        Err("dependency `"@ + name + "` can specify only one of `branch`, `tag`, or `rev`"@)
    } else {
        match (path, git) {
            (Some(p), None) => Ok(DependencySourceV::Path { path: p }),
            (None, Some(url)) => Ok(DependencySourceV::Git { url, branch, tag, rev }),
            (Some(_), Some(_)) => Err(
                "dependency `"@ + name + "` must specify only one of `path` or `git`"@,
            ),
            (None, None) => Err("dependency `"@ + name + "` must specify either `path` or `git`"@),
        }
    }
}

/// The version requirement of an entry.
pub open spec fn dep_version(w: Option<Wson>, name: Seq<char>) -> Result<Option<Seq<char>>, Seq<char>> {
    match w {
        Some(v) => match version_string(v) {
            Some(s) => Ok(Some(s)),
            None => Err("dependency `"@ + name + "` field `version` must be a version or string"@),
        },
        None => Ok(None),
    }
}

/// The entry fields after the name: `path`, `git`, `branch`, `tag`, `rev`, `version`, then the source.
pub open spec fn decode_dep_fields(m: Seq<(String, Wson)>, name: Seq<char>) -> Result<DependencyV, Seq<char>> {
    match dep_optional(wson_get(m, "path"@), "dependency field `path`"@) {
        Err(e) => Err(e),
        Ok(path) => match dep_optional(wson_get(m, "git"@), "dependency field `git`"@) {
            Err(e) => Err(e),
            Ok(git) => match dep_optional(wson_get(m, "branch"@), "dependency field `branch`"@) {
                Err(e) => Err(e),
                Ok(branch) => match dep_optional(wson_get(m, "tag"@), "dependency field `tag`"@) {
                    Err(e) => Err(e),
                    Ok(tag) => match dep_optional(wson_get(m, "rev"@), "dependency field `rev`"@) {
                        Err(e) => Err(e),
                        Ok(rev) => match dep_version(wson_get(m, "version"@), name) {
                            Err(e) => Err(e),
                            Ok(version) => match dep_source(name, path, git, branch, tag, rev) {
                                Err(e) => Err(e),
                                Ok(source) => Ok(DependencyV { name, version, source }),
                            },
                        },
                    },
                },
            },
        },
    }
}

/// One entry of `dependencies`.
pub open spec fn decode_dependency(w: Wson) -> Result<DependencyV, Seq<char>> {
    match w {
        Wson::Object(obj) => {
            let m = obj@;
            match dep_required(wson_get(m, "name"@), "dependency field `name`"@) {
                Err(e) => Err(e),
                Ok(name) => match name_check(name) {
                    Err(e) => Err(e),
                    Ok(()) => decode_dep_fields(m, name),
                },
            }
        },
        _ => Err("dependency entry must be an object"@),
    }
}

/// The entries of `dependencies`, or the error of the first bad one.
pub open spec fn decode_dependency_list(items: Seq<Wson>) -> Result<Seq<DependencyV>, Seq<char>>
    decreases items.len(),
{
    if items.len() == 0 {
        Ok(Seq::empty())
    } else {
        match decode_dependency_list(items.drop_last()) {
            Err(e) => Err(e),
            Ok(ds) => match decode_dependency(items.last()) {
                Err(e) => Err(e),
                Ok(d) => Ok(ds.push(d)),
            },
        }
    }
}

/// The `dependencies` field; missing means none.
pub open spec fn decode_dependencies(w: Option<Wson>) -> Result<Seq<DependencyV>, Seq<char>> {
    match w {
        Some(Wson::Array(items)) => decode_dependency_list(items@),
        Some(_) => Err("manifest field `dependencies` must be an array"@),
        None => Ok(Seq::empty()),
    }
}

/// An optional text field of the manifest.
pub open spec fn text_field(w: Option<Wson>) -> Result<Option<Seq<char>>, Seq<char>> {
    match w {
        Some(Wson::String(s)) => Ok(Some(restore_separators(s@))),
        Some(_) => Err("manifest optional text field must be a string"@),
        None => Ok(None),
    }
}

/// The manifest fields after `name`, `version` and `lib`.
pub open spec fn decode_manifest_rest(m: Seq<(String, Wson)>, name: Seq<char>, version: Seq<char>, lib: bool, source_path: Seq<char>) -> Result<ManifestV, Seq<char>> {
    match text_field(wson_get(m, "description"@)) {
        Err(e) => Err(e),
        Ok(description) => match text_field(wson_get(m, "author"@)) {
            Err(e) => Err(e),
            Ok(author) => match text_field(wson_get(m, "license"@)) {
                Err(e) => Err(e),
                Ok(license) => match decode_dependencies(wson_get(m, "dependencies"@)) {
                    Err(e) => Err(e),
                    Ok(dependencies) => Ok(
                        ManifestV {
                            name,
                            version,
                            lib,
                            description,
                            author,
                            license,
                            dependencies,
                            source_path,
                        },
                    ),
                },
            },
        },
    }
}

/// A manifest read from the entries of its top-level WSON object. A missing
/// version is `0.1.0`; a missing `lib` is false.
pub open spec fn decode_manifest(m: Seq<(String, Wson)>, source_path: Seq<char>) -> Result<ManifestV, Seq<char>> {
    match wson_get(m, "name"@) {
        Some(Wson::String(n)) => {
            let name = restore_separators(n@);
            let version = match wson_get(m, "version"@) {
                Some(v) => match version_string(v) {
                    Some(s) => Ok(s),
                    None => Err("manifest field `version` must be a version or string"@),
                },
                None => Ok("0.1.0"@),
            };
            match version {
                Err(e) => Err(e),
                Ok(version) => match wson_get(m, "lib"@) {
                    Some(Wson::Bool(b)) => decode_manifest_rest(m, name, version, b, source_path),
                    None => decode_manifest_rest(m, name, version, false, source_path),
                    _ => Err("manifest field `lib` must be a bool"@),
                },
            }
        },
        _ => Err("manifest field `name` must be a string"@),
    }
}

/// What `parse_manifest` gives for a text: `://` is protected from the WSON
/// parser, the document is parsed, then read as a manifest.
pub open spec fn manifest_from_text(raw: Seq<char>, source_path: Seq<char>) -> Result<ManifestV, Seq<char>> {
    match wson_document(replace_all(raw, "://"@, manifest_sentinel())) {
        Err(e) => Err("failed to parse manifest: "@ + e),
        Ok(m) => decode_manifest(m, source_path),
    }
}

pub open spec fn manifest_result_view(r: Result<Manifest, String>) -> Result<ManifestV, Seq<char>> {
    match r {
        Ok(m) => Ok(m@),
        Err(e) => Err(e@),
    }
}

/// Turns the stand-in for `://` back.
fn restore_url_separators(value: &str) -> (r: String)
    ensures
        r@ == restore_separators(value@),
{
    proof {
        reveal_strlit("__VEX_WSON_URL_SEPARATOR__");
    }
    replace_str(value, "__VEX_WSON_URL_SEPARATOR__", "://")
}

/// Hides `://` from the WSON parser.
fn protect_url_separators(raw: &str) -> (r: String)
    ensures
        r@ == replace_all(raw@, "://"@, manifest_sentinel()),
{
    proof {
        reveal_strlit("://");
    }
    replace_str(raw, "://", "__VEX_WSON_URL_SEPARATOR__")
}

pub open spec fn version_texts(v: Seq<u32>) -> Seq<Seq<char>> {
    v.map_values(|n: u32| decimal(n as nat))
}

proof fn lemma_version_texts_take(v: Seq<u32>, i: int)
    requires
        0 <= i < v.len(),
    ensures
        version_texts(v.take(i + 1)) == version_texts(v.take(i)).push(decimal(v[i] as nat)),
{
    assert(version_texts(v.take(i + 1)) =~= version_texts(v.take(i)).push(decimal(v[i] as nat)));
}

/// A version field as text: a WSON version joined with dots, or a string.
fn parse_version_string(value: &Wson) -> (r: Option<String>)
    ensures
        match version_string(*value) {
            Some(s) => r matches Some(v) && v@ == s,
            None => r is None,
        },
{
    match value {
        Wson::Version(v) => {
            let ghost nums = v@;
            let mut parts: Vec<String> = Vec::new();
            let mut i: usize = 0;
            assert(version_texts(nums.take(0)) =~= Seq::<Seq<char>>::empty());
            assert(views(parts@) =~= Seq::<Seq<char>>::empty());
            while i < v.len()
                invariant
                    nums == v@,
                    0 <= i <= nums.len(),
                    views(parts@) == version_texts(nums.take(i as int)),
                decreases v.len() - i,
            {
                let ghost before = parts@;
                parts.push(u64_to_decimal(v[i] as u64));
                proof {
                    lemma_version_texts_take(nums, i as int);
                }
                assert(views(parts@) =~= views(before).push(parts@.last()@));
                i += 1;
            }
            assert(nums.take(nums.len() as int) == nums);
            assert(version_texts(nums) == nums.map_values(|n: u32| decimal(n as nat)));
            Some(join(parts.as_slice(), "."))
        },
        Wson::String(v) => Some(restore_url_separators(v.as_str())),
        _ => None,
    }
}

/// A dependency name must match `[A-Za-z_][A-Za-z0-9_]*`.
fn validate_dependency_name(name: &str) -> (r: Result<(), String>)
    ensures
        match name_check(name@) {
            Ok(()) => r is Ok,
            Err(e) => r matches Err(m) && m@ == e,
        },
{
    let cs = crate::text::chars_of(name);
    if cs.len() == 0 {
        return Err("dependency name cannot be empty".to_string());
    }
    let first = cs[0];
    let mut ok = ('a' <= first && first <= 'z') || ('A' <= first && first <= 'Z') || first == '_';
    let mut i: usize = 1;
    while ok && i < cs.len()
        invariant
            cs@ == name@,
            1 <= i <= cs@.len(),
            ok ==> (ascii_alpha(cs@[0]) || cs@[0] == '_'),
            ok ==> forall|j: int| 1 <= j < i ==> ascii_alnum(#[trigger] cs@[j]) || cs@[j] == '_',
            !ok ==> !valid_name(name@),
        decreases cs.len() - i,
    {
        let c = cs[i];
        if !(('a' <= c && c <= 'z') || ('A' <= c && c <= 'Z') || ('0' <= c && c <= '9') || c == '_') {
            ok = false;
        }
        i += 1;
    }
    if ok {
        Ok(())
    } else {
        Err(cat3("invalid dependency name `", name, "`: use [A-Za-z_][A-Za-z0-9_]*"))
    }
}

fn required_string(value: Option<&Wson>, field: &str) -> (r: Result<String, String>)
    ensures
        match dep_required(match value { Some(w) => Some(*w), None => None }, field@) {
            Ok(s) => r matches Ok(v) && v@ == s,
            Err(e) => r matches Err(m) && m@ == e,
        },
{
    match value {
        Some(Wson::String(v)) => Ok(restore_url_separators(v.as_str())),
        _ => Err(cat(field, " must be a string")),
    }
}

fn optional_string(value: Option<&Wson>, field: &str) -> (r: Result<Option<String>, String>)
    ensures
        match dep_optional(match value { Some(w) => Some(*w), None => None }, field@) {
            Ok(s) => r matches Ok(v) && opt_view(v) == s,
            Err(e) => r matches Err(m) && m@ == e,
        },
{
    match value {
        Some(Wson::String(v)) => Ok(Some(restore_url_separators(v.as_str()))),
        Some(_) => Err(cat(field, " must be a string")),
        None => Ok(None),
    }
}

pub open spec fn deref_opt(o: Option<&Wson>) -> Option<Wson> {
    match o {
        Some(w) => Some(*w),
        None => None,
    }
}

fn dependency_version(value: Option<&Wson>, name: &String) -> (r: Result<Option<String>, String>)
    ensures
        match dep_version(deref_opt(value), name@) {
            Ok(s) => r matches Ok(v) && opt_view(v) == s,
            Err(e) => r matches Err(m) && m@ == e,
        },
{
    match value {
        Some(v) => match parse_version_string(v) {
            Some(s) => Ok(Some(s)),
            None => Err(
                cat3("dependency `", name.as_str(), "` field `version` must be a version or string"),
            ),
        },
        None => Ok(None),
    }
}

fn dependency_source(name: &String, path: Option<String>, git: Option<String>, branch: Option<String>, tag: Option<String>, rev: Option<String>) -> (r: Result<DependencySource, String>)
    ensures
        match dep_source(name@, opt_view(path), opt_view(git), opt_view(branch), opt_view(tag), opt_view(rev)) {
            Ok(s) => r matches Ok(v) && v@ == s,
            Err(e) => r matches Err(m) && m@ == e,
        },
{
    let count: u8 = (if branch.is_some() { 1u8 } else { 0u8 }) + (if tag.is_some() { 1u8 } else { 0u8 }) + (if rev.is_some() { 1u8 } else { 0u8 });
    if count > 1 {
        return Err(
            cat3("dependency `", name.as_str(), "` can specify only one of `branch`, `tag`, or `rev`"),
        );
    }
    match (path, git) {
        (Some(path), None) => Ok(DependencySource::Path { path }),
        (None, Some(url)) => Ok(DependencySource::Git { url, branch, tag, rev }),
        (Some(_), Some(_)) => Err(
            cat3("dependency `", name.as_str(), "` must specify only one of `path` or `git`"),
        ),
        (None, None) => Err(
            cat3("dependency `", name.as_str(), "` must specify either `path` or `git`"),
        ),
    }
}

fn parse_dependency(item: &Wson) -> (r: Result<Dependency, String>)
    ensures
        match decode_dependency(*item) {
            Ok(d) => r matches Ok(v) && v@ == d,
            Err(e) => r matches Err(m) && m@ == e,
        },
{
    let obj = match item {
        Wson::Object(obj) => obj.as_slice(),
        _ => {
            return Err("dependency entry must be an object".to_string());
        },
    };
    let name = required_string(get(obj, "name"), "dependency field `name`")?;
    validate_dependency_name(name.as_str())?;
    let path = optional_string(get(obj, "path"), "dependency field `path`")?;
    let git = optional_string(get(obj, "git"), "dependency field `git`")?;
    let branch = optional_string(get(obj, "branch"), "dependency field `branch`")?;
    let tag = optional_string(get(obj, "tag"), "dependency field `tag`")?;
    let rev = optional_string(get(obj, "rev"), "dependency field `rev`")?;
    let version = dependency_version(get(obj, "version"), &name)?;
    let source = dependency_source(&name, path, git, branch, tag, rev)?;
    Ok(Dependency { name, version, source })
}

proof fn lemma_dependency_list_err(items: Seq<Wson>, k: int)
    requires
        0 <= k <= items.len(),
        decode_dependency_list(items.take(k)) is Err,
    ensures
        decode_dependency_list(items) == decode_dependency_list(items.take(k)),
    decreases items.len() - k,
{
    if k < items.len() {
        assert(items.take(k + 1).drop_last() == items.take(k));
        lemma_dependency_list_err(items, k + 1);
    } else {
        assert(items.take(k) == items);
    }
}

/// The `dependencies` field: an array of entries, each an object with a
/// valid `name`, exactly one of `path` or `git`, at most one of `branch`,
/// `tag` or `rev`, and an optional `version`.
fn parse_dependencies(value: Option<&Wson>) -> (r: Result<Vec<Dependency>, String>)
    ensures
        match decode_dependencies(deref_opt(value)) {
            Ok(ds) => r matches Ok(v) && dependency_views(v@) == ds,
            Err(e) => r matches Err(m) && m@ == e,
        },
{
    let items = match value {
        Some(Wson::Array(items)) => items,
        Some(_) => {
            return Err("manifest field `dependencies` must be an array".to_string());
        },
        None => {
            let r: Vec<Dependency> = Vec::new();
            assert(dependency_views(r@) =~= Seq::<DependencyV>::empty());
            return Ok(r);
        },
    };
    let ghost vs = items@;
    let mut out: Vec<Dependency> = Vec::new();
    let mut i: usize = 0;
    assert(vs.take(0) =~= Seq::<Wson>::empty());
    assert(dependency_views(out@) =~= Seq::<DependencyV>::empty());
    assert(decode_dependencies(deref_opt(value)) == decode_dependency_list(vs));
    while i < items.len()
        invariant
            vs == items@,
            decode_dependencies(deref_opt(value)) == decode_dependency_list(vs),
            0 <= i <= vs.len(),
            decode_dependency_list(vs.take(i as int)) == Ok::<Seq<DependencyV>, Seq<char>>(dependency_views(out@)),
        decreases items.len() - i,
    {
        assert(vs.take(i + 1).drop_last() == vs.take(i as int));
        assert(vs.take(i + 1).last() == vs[i as int]);
        match parse_dependency(&items[i]) {
            Ok(d) => {
                let ghost before = out@;
                out.push(d);
                assert(dependency_views(out@) =~= dependency_views(before).push(out@.last()@));
            },
            Err(e) => {
                proof {
                    lemma_dependency_list_err(vs, i as int + 1);
                }
                return Err(e);
            },
        }
        i += 1;
    }
    assert(vs.take(vs.len() as int) == vs);
    Ok(out)
}

fn parse_optional_string(value: Option<&Wson>) -> (r: Result<Option<String>, String>)
    ensures
        match text_field(deref_opt(value)) {
            Ok(s) => r matches Ok(v) && opt_view(v) == s,
            Err(e) => r matches Err(m) && m@ == e,
        },
{
    match value {
        Some(Wson::String(s)) => Ok(Some(restore_url_separators(s.as_str()))),
        Some(_) => Err("manifest optional text field must be a string".to_string()),
        None => Ok(None),
    }
}

/// Reads a manifest from the entries of its top-level WSON object.
pub fn manifest_from_wson(data: &[(String, Wson)], source_path: String) -> (r: Result<Manifest, String>)
    ensures
        manifest_result_view(r) == decode_manifest(data@, source_path@),
{
    let name = match get(data, "name") {
        Some(Wson::String(value)) => restore_url_separators(value.as_str()),
        _ => {
            return Err("manifest field `name` must be a string".to_string());
        },
    };
    let version = match get(data, "version") {
        Some(value) => match parse_version_string(value) {
            Some(v) => v,
            None => {
                return Err("manifest field `version` must be a version or string".to_string());
            },
        },
        None => "0.1.0".to_string(),
    };
    let lib = match get(data, "lib") {
        Some(Wson::Bool(value)) => *value,
        None => false,
        _ => {
            return Err("manifest field `lib` must be a bool".to_string());
        },
    };
    let description = parse_optional_string(get(data, "description"))?;
    let author = parse_optional_string(get(data, "author"))?;
    let license = parse_optional_string(get(data, "license"))?;
    let dependencies = parse_dependencies(get(data, "dependencies"))?;
    Ok(Manifest { name, version, lib, description, author, license, dependencies, source_path })
}

/// Parses the text of a manifest read from `source_path`.
pub fn parse_manifest(raw: &str, source_path: String) -> (r: Result<Manifest, String>)
    ensures
        manifest_result_view(r) == manifest_from_text(raw@, source_path@),
{
    let protected_raw = protect_url_separators(raw);
    let data = match loads(protected_raw.as_str()) {
        Ok(data) => data,
        Err(e) => {
            return Err(cat("failed to parse manifest: ", e.as_str()));
        },
    };
    manifest_from_wson(data.as_slice(), source_path)
}

/// A dependency as the manifest rules allow it: a valid name, and a Git
/// source names at most one of `branch`, `tag` or `rev`.
pub open spec fn well_formed_dependency(d: DependencyV) -> bool {
    &&& valid_name(d.name)
    &&& match d.source {
        DependencySourceV::Git { branch, tag, rev, .. } => ref_count(branch, tag, rev) <= 1,
        DependencySourceV::Path { .. } => true,
    }
}

proof fn lemma_decoded_list_well_formed(items: Seq<Wson>)
    ensures
        decode_dependency_list(items) matches Ok(ds) ==> forall|i: int|
            0 <= i < ds.len() ==> well_formed_dependency(#[trigger] ds[i]),
    decreases items.len(),
{
    if items.len() > 0 {
        lemma_decoded_list_well_formed(items.drop_last());
    }
}

/// Every dependency of a manifest that reads without error has a valid
/// name and, from Git, at most one of `branch`, `tag` or `rev`.
pub proof fn law_manifest_dependencies_well_formed(m: Seq<(String, Wson)>, source_path: Seq<char>)
    ensures
        decode_manifest(m, source_path) matches Ok(man) ==> forall|i: int|
            0 <= i < man.dependencies.len() ==> well_formed_dependency(
                #[trigger] man.dependencies[i],
            ),
{
    match wson_get(m, "dependencies"@) {
        Some(Wson::Array(items)) => lemma_decoded_list_well_formed(items@),
        _ => {},
    }
}

/// The text of the string field `key` of an entry, with `://` restored;
/// none when the field is not a string.
pub open spec fn entry_text(o: Seq<(String, Wson)>, key: Seq<char>) -> Option<Seq<char>> {
    match wson_get(o, key) {
        Some(Wson::String(s)) => Some(restore_separators(s@)),
        _ => None,
    }
}

/// Whether dependency `d` is what the entry `o` says, field by field: its
/// name is the `name` string; its version requirement the `version` field
/// (none when absent); a Git dependency has the `git` string as URL
/// and the `branch`, `tag` and `rev` strings (none when absent) as its
/// references, and no `path`; a path dependency has the `path` string and
/// no `git`.
pub open spec fn read_from_entry(o: Seq<(String, Wson)>, d: DependencyV) -> bool {
    &&& entry_text(o, "name"@) == Some(d.name)
    &&& d.version == match wson_get(o, "version"@) {
        Some(w) => version_string(w),
        None => None,
    }
    &&& match d.source {
        DependencySourceV::Path { path } => entry_text(o, "path"@) == Some(path) && wson_get(o, "git"@) is None,
        DependencySourceV::Git { url, branch, tag, rev } => {
            &&& entry_text(o, "git"@) == Some(url)
            &&& wson_get(o, "path"@) is None
            &&& branch == entry_text(o, "branch"@)
            &&& tag == entry_text(o, "tag"@)
            &&& rev == entry_text(o, "rev"@)
        },
    }
}

proof fn lemma_decoded_entry(w: Wson)
    ensures
        decode_dependency(w) matches Ok(d) ==> (w matches Wson::Object(obj) && read_from_entry(obj@, d)),
{
}

proof fn lemma_decoded_entries(items: Seq<Wson>)
    ensures
        decode_dependency_list(items) matches Ok(ds) ==> ds.len() == items.len() && forall|i: int|
            0 <= i < ds.len() ==> #[trigger] decode_dependency(items[i]) == Ok::<DependencyV, Seq<char>>(ds[i]),
    decreases items.len(),
{
    if items.len() > 0 {
        lemma_decoded_entries(items.drop_last());
        if decode_dependency_list(items) is Ok {
            let ds = decode_dependency_list(items)->Ok_0;
            assert forall|i: int| 0 <= i < ds.len() implies #[trigger] decode_dependency(items[i]) == Ok::<DependencyV, Seq<char>>(ds[i]) by {
                if i < items.len() - 1 {
                    assert(items.drop_last()[i] == items[i]);
                }
            }
        }
    }
}

/// Each dependency of a manifest is read from its own entry, in order: the
/// `i`-th dependency is the `i`-th entry of `dependencies`, with the name,
/// URL, path and Git references that the entry gives under those names.
pub proof fn law_dependencies_read_from_entries(m: Seq<(String, Wson)>, source_path: Seq<char>, i: int)
    requires
        decode_manifest(m, source_path) is Ok,
        0 <= i < decode_manifest(m, source_path)->Ok_0.dependencies.len(),
    ensures
        wson_get(m, "dependencies"@) matches Some(Wson::Array(items)) && i < items@.len() && (items@[i] matches Wson::Object(obj)
            && read_from_entry(obj@, decode_manifest(m, source_path)->Ok_0.dependencies[i])),
{
    let man = decode_manifest(m, source_path)->Ok_0;
    assert(decode_dependencies(wson_get(m, "dependencies"@)) == Ok::<Seq<DependencyV>, Seq<char>>(man.dependencies));
    let items = wson_get(m, "dependencies"@)->Some_0->Array_0@;
    lemma_decoded_entries(items);
    lemma_decoded_entry(items[i]);
}

} // verus!
