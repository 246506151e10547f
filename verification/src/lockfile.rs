//! `vex.lock`: the resolved dependency graph with exact sources, its
//! normal form, its text, and how that text is read back.
use vstd::prelude::*;

use crate::text::{
    cat, cat3, escape_quoted, escape_str, i64_to_decimal, join, join_seq, lemma_sort_dedup,
    lemma_sort_dedup_sorted, lemma_str_lt_asymmetric, lemma_str_lt_irreflexive,
    lemma_str_lt_transitive, lemma_str_lt_trichotomy, opt_view, replace_all, replace_str,
    signed_decimal, sort_dedup, sorted_unique, str_eq, str_less, str_lt, strictly_sorted, views,
};
use crate::wson::{get, loads, wson_document, wson_get, Wson};

verus! {

broadcast use vstd::string::group_string_axioms;

pub const LOCKFILE_NAME: &'static str = "vex.lock";

pub const LOCKFILE_VERSION: i64 = 2;

/// Where a locked package comes from.
#[derive(Debug, Clone, Eq, PartialEq)]
pub enum LockedSource {
    Path { requested: String, resolved: String },
    Git {
        url: String,
        branch: Option<String>,
        tag: Option<String>,
        rev: Option<String>,
        commit: String,
        resolved: String,
    },
}

/// One package of the resolved graph.
#[derive(Debug, Clone, Eq, PartialEq)]
pub struct LockedPackage {
    pub name: String,
    pub version: String,
    pub source: LockedSource,
    pub dependencies: Vec<String>,
}

/// The whole lockfile.
#[derive(Debug, Clone, Eq, PartialEq)]
pub struct Lockfile {
    pub version: i64,
    pub packages: Vec<LockedPackage>,
}

pub ghost enum LockedSourceV {
    Path { requested: Seq<char>, resolved: Seq<char> },
    Git {
        url: Seq<char>,
        branch: Option<Seq<char>>,
        tag: Option<Seq<char>>,
        rev: Option<Seq<char>>,
        commit: Seq<char>,
        resolved: Seq<char>,
    },
}

pub ghost struct LockedPackageV {
    pub name: Seq<char>,
    pub version: Seq<char>,
    pub source: LockedSourceV,
    pub dependencies: Seq<Seq<char>>,
}

pub ghost struct LockfileV {
    pub version: i64,
    pub packages: Seq<LockedPackageV>,
}

impl View for LockedSource {
    type V = LockedSourceV;

    open spec fn view(&self) -> LockedSourceV {
        match self {
            LockedSource::Path { requested, resolved } => LockedSourceV::Path {
                requested: requested@,
                resolved: resolved@,
            },
            LockedSource::Git { url, branch, tag, rev, commit, resolved } => LockedSourceV::Git {
                url: url@,
                branch: opt_view(*branch),
                tag: opt_view(*tag),
                rev: opt_view(*rev),
                commit: commit@,
                resolved: resolved@,
            },
        }
    }
}

impl View for LockedPackage {
    type V = LockedPackageV;

    open spec fn view(&self) -> LockedPackageV {
        LockedPackageV {
            name: self.name@,
            version: self.version@,
            source: self.source@,
            dependencies: views(self.dependencies@),
        }
    }
}

pub open spec fn package_views(s: Seq<LockedPackage>) -> Seq<LockedPackageV> {
    s.map_values(|p: LockedPackage| p@)
}

impl View for Lockfile {
    type V = LockfileV;

    open spec fn view(&self) -> LockfileV {
        LockfileV { version: self.version, packages: package_views(self.packages@) }
    }
}

/// Where to insert a package named `name` into `s`, sorted by name, so that
/// it comes after every package whose name is not greater.
pub open spec fn insert_pos(s: Seq<LockedPackageV>, name: Seq<char>) -> int
    decreases s.len(),
{
    if s.len() == 0 {
        0
    } else if str_lt(name, s.last().name) {
        insert_pos(s.drop_last(), name)
    } else {
        s.len() as int
    }
}

/// `s` sorted by name, stably: packages of equal name keep their order.
pub open spec fn sort_by_name(s: Seq<LockedPackageV>) -> Seq<LockedPackageV>
    decreases s.len(),
{
    if s.len() == 0 {
        s
    } else {
        let r = sort_by_name(s.drop_last());
        r.insert(insert_pos(r, s.last().name), s.last())
    }
}

/// The package with its dependency names sorted and without repeats.
pub open spec fn normalize_package(p: LockedPackageV) -> LockedPackageV {
    LockedPackageV { dependencies: sort_dedup(p.dependencies), ..p }
}

/// The normal form of a lockfile: every dependency list sorted without
/// repeats, and the packages sorted by name.
pub open spec fn normalize(l: LockfileV) -> LockfileV {
    LockfileV {
        version: l.version,
        packages: sort_by_name(l.packages.map_values(|p: LockedPackageV| normalize_package(p))),
    }
}

/// Whether the packages are in order of name.
pub open spec fn sorted_by_name(s: Seq<LockedPackageV>) -> bool {
    forall|i: int, j: int| 0 <= i < j < s.len() ==> !str_lt(s[j].name, s[i].name)
}

/// The first package in the list, if any, named `name`.
pub open spec fn first_named(s: Seq<LockedPackageV>, name: Seq<char>) -> Option<int>
    decreases s.len(),
{
    if s.len() == 0 {
        None
    } else if s[0].name == name {
        Some(0)
    } else {
        match first_named(s.drop_first(), name) {
            Some(i) => Some(i + 1),
            None => None,
        }
    }
}

impl Lockfile {
    /// A lockfile of the current version with no packages.
    pub fn empty() -> (r: Self)
        ensures
            r@ == (LockfileV { version: 2, packages: Seq::empty() }),
    {
        let r = Lockfile { version: LOCKFILE_VERSION, packages: Vec::new() };
        assert(r@.packages =~= Seq::<LockedPackageV>::empty());
        r
    }

    /// The normal form: each package's dependency names sorted without
    /// repeats, and the packages sorted (stably) by name.
    pub fn normalized(self) -> (r: Self)
        ensures
            r@ == normalize(self@),
    {
        let ghost s = self@.packages.map_values(|p: LockedPackageV| normalize_package(p));
        let mut rest = self.packages;
        let mut out: Vec<LockedPackage> = Vec::new();
        let n = rest.len();
        let mut i: usize = 0;
        assert(s.take(0) =~= Seq::<LockedPackageV>::empty());
        assert(package_views(out@) =~= Seq::<LockedPackageV>::empty());
        while rest.len() > 0
            invariant
                n == s.len(),
                i + rest@.len() == n,
                forall|j: int| 0 <= j < rest@.len() ==> normalize_package(#[trigger] rest@[j]@) == s[i + j],
                package_views(out@) == sort_by_name(s.take(i as int)),
            decreases rest.len(),
        {
            let ghost before = rest@;
            let mut p = rest.remove(0);
            assert(normalize_package(p@) == s[i as int]) by {
                assert(before[0] == p);
            }
            assert forall|j: int| 0 <= j < rest@.len() implies normalize_package(#[trigger] rest@[j]@) == s[i + 1 + j] by {
                assert(rest@[j] == before[j + 1]);
            }
            let mut deps: Vec<String> = Vec::new();
            std::mem::swap(&mut deps, &mut p.dependencies);
            p.dependencies = sorted_unique(deps);
            assert(p@ == s[i as int]);
            let ghost o = package_views(out@);
            let mut k = out.len();
            assert(o.take(k as int) == o);
            while k > 0 && str_less(p.name.as_str(), out[k - 1].name.as_str())
                invariant
                    o == package_views(out@),
                    0 <= k <= out@.len(),
                    insert_pos(o, p@.name) == insert_pos(o.take(k as int), p@.name),
                decreases k,
            {
                assert(o.take(k as int).drop_last() == o.take(k - 1));
                assert(o.take(k as int).last() == out@[k - 1]@);
                k -= 1;
            }
            assert(k > 0 ==> o.take(k as int).last() == out@[k - 1]@);
            assert(insert_pos(o, p@.name) == k);
            let ghost pv = p@;
            out.insert(k, p);
            assert(package_views(out@) =~= o.insert(k as int, pv));
            assert(s.take(i + 1).drop_last() == s.take(i as int));
            assert(s.take(i + 1).last() == pv);
            i += 1;
        }
        assert(s.take(n as int) == s);
        Lockfile { version: self.version, packages: out }
    }

    /// The first package named `name`.
    pub fn package(&self, name: &str) -> (r: Option<&LockedPackage>)
        ensures
            match first_named(self@.packages, name@) {
                Some(i) => r matches Some(p) && p@ == self@.packages[i],
                None => r is None,
            },
    {
        let ghost s = self@.packages;
        let mut i: usize = 0;
        assert(s.skip(0) == s);
        while i < self.packages.len()
            invariant
                s == self@.packages,
                0 <= i <= s.len(),
                first_named(s, name@) == match first_named(s.skip(i as int), name@) {
                    Some(j) => Some(j + i),
                    None => None,
                },
            decreases self.packages.len() - i,
        {
            assert(s.skip(i as int)[0] == self.packages@[i as int]@);
            assert(s.skip(i as int).drop_first() == s.skip(i + 1));
            if str_eq(self.packages[i].name.as_str(), name) {
                return Some(&self.packages[i]);
            }
            i += 1;
        }
        assert(s.skip(i as int).len() == 0);
        None
    }
}

/// The text that stands for `://` while a lockfile is parsed.
pub open spec fn lock_sentinel() -> Seq<char> {
    "__VEX_LOCK_URL_SEPARATOR__"@
}

/// A string of the lockfile with the stand-in turned back into `://`.
pub open spec fn restore_url(s: Seq<char>) -> Seq<char> {
    replace_all(s, lock_sentinel(), "://"@)
}

pub open spec fn string_field_error(key: Seq<char>) -> Seq<char> {
    "lockfile field `"@ + key + "` must be a string"@
}

/// A string field that must be there.
pub open spec fn field_string(m: Seq<(String, Wson)>, key: Seq<char>) -> Result<Seq<char>, Seq<char>> {
    match wson_get(m, key) {
        Some(Wson::String(s)) => Ok(restore_url(s@)),
        _ => Err(string_field_error(key)),
    }
}

/// A string field that may be missing.
pub open spec fn field_opt_string(m: Seq<(String, Wson)>, key: Seq<char>) -> Result<Option<Seq<char>>, Seq<char>> {
    match wson_get(m, key) {
        Some(Wson::String(s)) => Ok(Some(restore_url(s@))),
        Some(_) => Err(string_field_error(key)),
        None => Ok(None),
    }
}

/// The strings of an array field, or the error at its first non-string.
pub open spec fn strings_in(vals: Seq<Wson>, key: Seq<char>) -> Result<Seq<Seq<char>>, Seq<char>>
    decreases vals.len(),
{
    if vals.len() == 0 {
        Ok(Seq::empty())
    } else {
        match strings_in(vals.drop_last(), key) {
            Err(e) => Err(e),
            Ok(ss) => match vals.last() {
                Wson::String(s) => Ok(ss.push(restore_url(s@))),
                _ => Err("lockfile field `"@ + key + "` must contain only strings"@),
            },
        }
    }
}

/// A field holding an array of strings; missing means empty.
pub open spec fn field_strings(m: Seq<(String, Wson)>, key: Seq<char>) -> Result<Seq<Seq<char>>, Seq<char>> {
    match wson_get(m, key) {
        Some(Wson::Array(vals)) => strings_in(vals@, key),
        Some(_) => Err("lockfile field `"@ + key + "` must be an array"@),
        None => Ok(Seq::empty()),
    }
}

pub open spec fn is_hex(c: char) -> bool {
    ('0' <= c && c <= '9') || ('a' <= c && c <= 'f') || ('A' <= c && c <= 'F')
}

/// A full Git object ID: 40 or 64 hexadecimal digits.
pub open spec fn valid_commit(c: Seq<char>) -> bool {
    (c.len() == 40 || c.len() == 64) && forall|i: int| 0 <= i < c.len() ==> is_hex(#[trigger] c[i])
}

pub open spec fn commit_error(commit: Seq<char>, package: Seq<char>) -> Seq<char> {
    "lockfile package `"@ + package + "` has invalid Git commit `"@ + commit
        + "`; expected a full hexadecimal object ID"@
}

/// The Git source of an entry, read after its name.
pub open spec fn decode_git_source(m: Seq<(String, Wson)>, name: Seq<char>) -> Result<LockedSourceV, Seq<char>> {
    match field_string(m, "commit"@) {
        Err(e) => Err(e),
        Ok(commit) => if !valid_commit(commit) {
            Err(commit_error(commit, name))
        } else {
            match field_string(m, "git"@) {
                Err(e) => Err(e),
                Ok(url) => match field_opt_string(m, "branch"@) {
                    Err(e) => Err(e),
                    Ok(branch) => match field_opt_string(m, "tag"@) {
                        Err(e) => Err(e),
                        Ok(tag) => match field_opt_string(m, "rev"@) {
                            Err(e) => Err(e),
                            Ok(rev) => match field_string(m, "resolved"@) {
                                Err(e) => Err(e),
                                Ok(resolved) => Ok(
                                    LockedSourceV::Git { url, branch, tag, rev, commit, resolved },
                                ),
                            },
                        },
                    },
                },
            }
        },
    }
}

/// The source of an entry whose `source` field is `source`.
pub open spec fn decode_source(m: Seq<(String, Wson)>, name: Seq<char>, source: Seq<char>) -> Result<LockedSourceV, Seq<char>> {
    if source == "path"@ {
        match field_string(m, "path"@) {
            Err(e) => Err(e),
            Ok(requested) => match field_string(m, "resolved"@) {
                Err(e) => Err(e),
                Ok(resolved) => Ok(LockedSourceV::Path { requested, resolved }),
            },
        }
    } else if source == "git"@ {
        decode_git_source(m, name)
    } else {
        Err("unknown lockfile source `"@ + source + "` for package `"@ + name + "`"@)
    }
}

/// One `package` entry of the lockfile.
pub open spec fn decode_package(v: Wson) -> Result<LockedPackageV, Seq<char>> {
    match v {
        Wson::Object(obj) => {
            let m = obj@;
            match field_string(m, "name"@) {
                Err(e) => Err(e),
                Ok(name) => match field_string(m, "version"@) {
                    Err(e) => Err(e),
                    Ok(version) => match field_string(m, "source"@) {
                        Err(e) => Err(e),
                        Ok(source) => match field_strings(m, "dependencies"@) {
                            Err(e) => Err(e),
                            Ok(dependencies) => match decode_source(m, name, source) {
                                Err(e) => Err(e),
                                Ok(src) => Ok(
                                    LockedPackageV { name, version, source: src, dependencies },
                                ),
                            },
                        },
                    },
                },
            }
        },
        _ => Err("lockfile package entry must be an object"@),
    }
}

/// All `package` entries, or the error of the first bad one.
pub open spec fn decode_packages(items: Seq<Wson>) -> Result<Seq<LockedPackageV>, Seq<char>>
    decreases items.len(),
{
    if items.len() == 0 {
        Ok(Seq::empty())
    } else {
        match decode_packages(items.drop_last()) {
            Err(e) => Err(e),
            Ok(ps) => match decode_package(items.last()) {
                Err(e) => Err(e),
                Ok(p) => Ok(ps.push(p)),
            },
        }
    }
}

/// The first name that two neighbouring packages share.
pub open spec fn first_adjacent_duplicate(s: Seq<LockedPackageV>) -> Option<Seq<char>>
    decreases s.len(),
{
    if s.len() < 2 {
        None
    } else if s[0].name == s[1].name {
        Some(s[0].name)
    } else {
        first_adjacent_duplicate(s.drop_first())
    }
}

/// A lockfile read from the entries of its top-level object: version 1 is
/// read as an empty graph to be resolved again; only version 2 is read in
/// full; the result is in normal form and names no package twice.
pub open spec fn decode_lockfile(m: Seq<(String, Wson)>) -> Result<LockfileV, Seq<char>> {
    match wson_get(m, "version"@) {
        Some(Wson::Int(version)) => if version == 1 {
            Ok(LockfileV { version, packages: Seq::empty() })
        } else if version != 2 {
            Err(
                "unsupported `vex.lock` version `"@ + signed_decimal(version as int)
                    + "`; expected `2`"@,
            )
        } else {
            let packages = match wson_get(m, "package"@) {
                Some(Wson::Array(items)) => decode_packages(items@),
                Some(_) => Err("`vex.lock` field `package` must be an array"@),
                None => Ok(Seq::empty()),
            };
            match packages {
                Err(e) => Err(e),
                Ok(ps) => {
                    let n = normalize(LockfileV { version, packages: ps });
                    match first_adjacent_duplicate(n.packages) {
                        Some(name) => Err(
                            "`vex.lock` contains duplicate package `"@ + name + "`"@,
                        ),
                        None => Ok(n),
                    }
                },
            }
        },
        _ => Err("`vex.lock` field `version` must be an integer"@),
    }
}

/// What `parse_lockfile` gives for a text: `://` is protected from the WSON
/// parser, the document is parsed, then read as a lockfile.
pub open spec fn lockfile_from_text(raw: Seq<char>) -> Result<LockfileV, Seq<char>> {
    match wson_document(replace_all(raw, "://"@, lock_sentinel())) {
        Err(e) => Err("failed to parse `vex.lock`: "@ + e),
        Ok(m) => decode_lockfile(m),
    }
}

pub open spec fn lock_result_view(r: Result<Lockfile, String>) -> Result<LockfileV, Seq<char>> {
    match r {
        Ok(l) => Ok(l@),
        Err(e) => Err(e@),
    }
}

/// Turns the stand-in for `://` back.
fn restore(value: &str) -> (r: String)
    ensures
        r@ == restore_url(value@),
{
    proof {
        reveal_strlit("__VEX_LOCK_URL_SEPARATOR__");
    }
    replace_str(value, "__VEX_LOCK_URL_SEPARATOR__", "://")
}

fn required_string(object: &[(String, Wson)], key: &str) -> (r: Result<String, String>)
    ensures
        match field_string(object@, key@) {
            Ok(s) => r matches Ok(v) && v@ == s,
            Err(e) => r matches Err(m) && m@ == e,
        },
{
    match get(object, key) {
        Some(Wson::String(value)) => Ok(restore(value.as_str())),
        _ => Err(cat3("lockfile field `", key, "` must be a string")),
    }
}

fn optional_string(object: &[(String, Wson)], key: &str) -> (r: Result<Option<String>, String>)
    ensures
        match field_opt_string(object@, key@) {
            Ok(s) => r matches Ok(v) && opt_view(v) == s,
            Err(e) => r matches Err(m) && m@ == e,
        },
{
    match get(object, key) {
        Some(Wson::String(value)) => Ok(Some(restore(value.as_str()))),
        Some(_) => Err(cat3("lockfile field `", key, "` must be a string")),
        None => Ok(None),
    }
}

fn optional_string_array(object: &[(String, Wson)], key: &str) -> (r: Result<Vec<String>, String>)
    ensures
        match field_strings(object@, key@) {
            Ok(s) => r matches Ok(v) && views(v@) == s,
            Err(e) => r matches Err(m) && m@ == e,
        },
{
    match get(object, key) {
        Some(Wson::Array(values)) => {
            let ghost vs = values@;
            let mut out: Vec<String> = Vec::new();
            let mut i: usize = 0;
            assert(vs.take(0) =~= Seq::<Wson>::empty());
            assert(views(out@) =~= Seq::<Seq<char>>::empty());
            assert(field_strings(object@, key@) == strings_in(vs, key@));
            while i < values.len()
                invariant
                    vs == values@,
                    field_strings(object@, key@) == strings_in(vs, key@),
                    0 <= i <= vs.len(),
                    strings_in(vs.take(i as int), key@) == Ok::<Seq<Seq<char>>, Seq<char>>(views(out@)),
                decreases values.len() - i,
            {
                assert(vs.take(i + 1).drop_last() == vs.take(i as int));
                assert(vs.take(i + 1).last() == vs[i as int]);
                match &values[i] {
                    Wson::String(value) => {
                        let ghost before = out@;
                        out.push(restore(value.as_str()));
                        assert(views(out@) =~= views(before).push(out@.last()@));
                    },
                    _ => {
                        proof {
                            assert(strings_in(vs.take(i + 1), key@) == Err::<Seq<Seq<char>>, Seq<char>>(
                                "lockfile field `"@ + key@ + "` must contain only strings"@));
                            lemma_strings_in_err(vs, i as int + 1, key@);
                        }
                        return Err(cat3("lockfile field `", key, "` must contain only strings"));
                    },
                }
                i += 1;
            }
            assert(vs.take(vs.len() as int) == vs);
            Ok(out)
        },
        Some(_) => Err(cat3("lockfile field `", key, "` must be an array")),
        None => Ok(Vec::new()),
    }
}

proof fn lemma_strings_in_err(vs: Seq<Wson>, k: int, key: Seq<char>)
    requires
        0 <= k <= vs.len(),
        strings_in(vs.take(k), key) is Err,
    ensures
        strings_in(vs, key) == strings_in(vs.take(k), key),
    decreases vs.len() - k,
{
    if k < vs.len() {
        assert(vs.take(k + 1).drop_last() == vs.take(k));
        lemma_strings_in_err(vs, k + 1, key);
    } else {
        assert(vs.take(k) == vs);
    }
}

fn is_hex_digit(c: char) -> (r: bool)
    ensures
        r == is_hex(c),
{
    ('0' <= c && c <= '9') || ('a' <= c && c <= 'f') || ('A' <= c && c <= 'F')
}

/// A Git commit must be a full hexadecimal object ID (40 or 64 digits).
pub fn validate_commit(commit: &str, package: &str) -> (r: Result<(), String>)
    ensures
        valid_commit(commit@) ==> r is Ok,
        !valid_commit(commit@) ==> (r matches Err(m) && m@ == commit_error(commit@, package@)),
{
    let cs = crate::text::chars_of(commit);
    let mut ok = cs.len() == 40 || cs.len() == 64;
    let mut i: usize = 0;
    while ok && i < cs.len()
        invariant
            cs@ == commit@,
            0 <= i <= cs@.len(),
            ok ==> (cs@.len() == 40 || cs@.len() == 64),
            ok ==> forall|j: int| 0 <= j < i ==> is_hex(#[trigger] cs@[j]),
            !ok ==> !valid_commit(commit@),
        decreases cs.len() - i,
    {
        if !is_hex_digit(cs[i]) {
            ok = false;
        }
        i += 1;
    }
    if ok {
        return Ok(());
    }
    let mut m = cat3("lockfile package `", package, "` has invalid Git commit `");
    m.append(commit);
    m.append("`; expected a full hexadecimal object ID");
    Err(m)
}

fn parse_source(object: &[(String, Wson)], name: &String, source: &String) -> (r: Result<LockedSource, String>)
    ensures
        match decode_source(object@, name@, source@) {
            Ok(s) => r matches Ok(v) && v@ == s,
            Err(e) => r matches Err(m) && m@ == e,
        },
{
    if str_eq(source.as_str(), "path") {
        let requested = required_string(object, "path")?;
        let resolved = required_string(object, "resolved")?;
        Ok(LockedSource::Path { requested, resolved })
    } else if str_eq(source.as_str(), "git") {
        let commit = required_string(object, "commit")?;
        validate_commit(commit.as_str(), name.as_str())?;
        let url = required_string(object, "git")?;
        let branch = optional_string(object, "branch")?;
        let tag = optional_string(object, "tag")?;
        let rev = optional_string(object, "rev")?;
        let resolved = required_string(object, "resolved")?;
        Ok(LockedSource::Git { url, branch, tag, rev, commit, resolved })
    } else {
        let mut m = cat3("unknown lockfile source `", source.as_str(), "` for package `");
        m.append(name.as_str());
        m.append("`");
        Err(m)
    }
}

fn parse_package(value: &Wson) -> (r: Result<LockedPackage, String>)
    ensures
        match decode_package(*value) {
            Ok(p) => r matches Ok(v) && v@ == p,
            Err(e) => r matches Err(m) && m@ == e,
        },
{
    let object = match value {
        Wson::Object(object) => object,
        _ => {
            return Err("lockfile package entry must be an object".to_string());
        },
    };
    let name = required_string(object.as_slice(), "name")?;
    let version = required_string(object.as_slice(), "version")?;
    let source = required_string(object.as_slice(), "source")?;
    let dependencies = optional_string_array(object.as_slice(), "dependencies")?;
    let source = parse_source(object.as_slice(), &name, &source)?;
    Ok(LockedPackage { name, version, source, dependencies })
}

proof fn lemma_decode_packages_err(items: Seq<Wson>, k: int)
    requires
        0 <= k <= items.len(),
        decode_packages(items.take(k)) is Err,
    ensures
        decode_packages(items) == decode_packages(items.take(k)),
    decreases items.len() - k,
{
    if k < items.len() {
        assert(items.take(k + 1).drop_last() == items.take(k));
        lemma_decode_packages_err(items, k + 1);
    } else {
        assert(items.take(k) == items);
    }
}

fn parse_packages(items: &[Wson]) -> (r: Result<Vec<LockedPackage>, String>)
    ensures
        match decode_packages(items@) {
            Ok(ps) => r matches Ok(v) && package_views(v@) == ps,
            Err(e) => r matches Err(m) && m@ == e,
        },
{
    let ghost vs = items@;
    let mut out: Vec<LockedPackage> = Vec::new();
    let mut i: usize = 0;
    assert(vs.take(0) =~= Seq::<Wson>::empty());
    assert(package_views(out@) =~= Seq::<LockedPackageV>::empty());
    while i < items.len()
        invariant
            vs == items@,
            0 <= i <= vs.len(),
            decode_packages(vs.take(i as int)) == Ok::<Seq<LockedPackageV>, Seq<char>>(package_views(out@)),
        decreases items.len() - i,
    {
        assert(vs.take(i + 1).drop_last() == vs.take(i as int));
        assert(vs.take(i + 1).last() == vs[i as int]);
        match parse_package(&items[i]) {
            Ok(p) => {
                let ghost before = out@;
                out.push(p);
                assert(package_views(out@) =~= package_views(before).push(out@.last()@));
            },
            Err(e) => {
                proof {
                    lemma_decode_packages_err(vs, i as int + 1);
                }
                return Err(e);
            },
        }
        i += 1;
    }
    assert(vs.take(vs.len() as int) == vs);
    Ok(out)
}

/// The first name shared by two neighbouring packages.
fn find_adjacent_duplicate(packages: &[LockedPackage]) -> (r: Option<usize>)
    ensures
        match first_adjacent_duplicate(package_views(packages@)) {
            Some(name) => r matches Some(i) && i < packages@.len() && packages@[i as int]@.name == name,
            None => r is None,
        },
{
    let ghost s = package_views(packages@);
    let mut i: usize = 0;
    assert(s.skip(0) == s);
    while i < packages.len() && i + 1 < packages.len()
        invariant
            s == package_views(packages@),
            0 <= i <= s.len(),
            first_adjacent_duplicate(s.skip(i as int)) == first_adjacent_duplicate(s),
        decreases packages.len() - i,
    {
        assert(s.skip(i as int)[0] == packages@[i as int]@);
        assert(s.skip(i as int)[1] == packages@[i + 1]@);
        assert(s.skip(i as int).drop_first() == s.skip(i + 1));
        if str_eq(packages[i].name.as_str(), packages[i + 1].name.as_str()) {
            return Some(i);
        }
        i += 1;
    }
    assert(s.skip(i as int).len() < 2);
    None
}

/// Reads a lockfile from the entries of its top-level WSON object.
pub fn lockfile_from_wson(data: &[(String, Wson)]) -> (r: Result<Lockfile, String>)
    ensures
        lock_result_view(r) == decode_lockfile(data@),
{
    let version = match get(data, "version") {
        Some(Wson::Int(value)) => *value,
        _ => {
            return Err("`vex.lock` field `version` must be an integer".to_string());
        },
    };
    if version == 1 {
        let r = Lockfile { version, packages: Vec::new() };
        assert(r@.packages =~= Seq::<LockedPackageV>::empty());
        return Ok(r);
    }
    if version != LOCKFILE_VERSION {
        return Err(
            cat3("unsupported `vex.lock` version `", i64_to_decimal(version).as_str(), "`; expected `2`"),
        );
    }
    let packages = match get(data, "package") {
        Some(Wson::Array(items)) => parse_packages(items.as_slice())?,
        Some(_) => {
            return Err("`vex.lock` field `package` must be an array".to_string());
        },
        None => Vec::new(),
    };
    assert(package_views(packages@) == match wson_get(data@, "package"@) {
        Some(Wson::Array(items)) => package_views(packages@),
        _ => Seq::<LockedPackageV>::empty(),
    });
    let normalized = Lockfile { version, packages }.normalized();
    if let Some(i) = find_adjacent_duplicate(normalized.packages.as_slice()) {
        return Err(cat3("`vex.lock` contains duplicate package `", normalized.packages[i].name.as_str(), "`"));
    }
    Ok(normalized)
}

/// Parses the text of a lockfile.
pub fn parse_lockfile(raw: &str) -> (r: Result<Lockfile, String>)
    ensures
        lock_result_view(r) == lockfile_from_text(raw@),
{
    proof {
        reveal_strlit("://");
    }
    let protected = replace_str(raw, "://", "__VEX_LOCK_URL_SEPARATOR__");
    let data = match loads(protected.as_str()) {
        Ok(data) => data,
        Err(e) => {
            return Err(cat("failed to parse `vex.lock`: ", e.as_str()));
        },
    };
    lockfile_from_wson(data.as_slice())
}

/// One `key = "value"` line of a package block.
pub open spec fn field_line(key: Seq<char>, value: Seq<char>) -> Seq<char> {
    "            "@ + key + " = \""@ + escape_quoted(value) + "\""@
}

pub open spec fn opt_field_line(key: Seq<char>, value: Option<Seq<char>>) -> Seq<Seq<char>> {
    match value {
        Some(v) => seq![field_line(key, v)],
        None => Seq::empty(),
    }
}

/// The lines that describe a source.
pub open spec fn source_lines(src: LockedSourceV) -> Seq<Seq<char>> {
    match src {
        LockedSourceV::Path { requested, resolved } => seq![
            field_line("source"@, "path"@),
            field_line("path"@, requested),
            field_line("resolved"@, resolved),
        ],
        LockedSourceV::Git { url, branch, tag, rev, commit, resolved } => seq![
            field_line("source"@, "git"@),
            field_line("git"@, url),
        ] + opt_field_line("branch"@, branch) + opt_field_line("tag"@, tag) + opt_field_line(
            "rev"@,
            rev,
        ) + seq![field_line("commit"@, commit), field_line("resolved"@, resolved)],
    }
}

pub open spec fn quoted(s: Seq<char>) -> Seq<char> {
    "\""@ + escape_quoted(s) + "\""@
}

pub open spec fn quoted_all(s: Seq<Seq<char>>) -> Seq<Seq<char>> {
    s.map_values(|d: Seq<char>| quoted(d))
}

proof fn lemma_quoted_all_take(s: Seq<Seq<char>>, i: int)
    requires
        0 <= i < s.len(),
    ensures
        quoted_all(s.take(i + 1)) == quoted_all(s.take(i)).push(quoted(s[i])),
{
    assert(quoted_all(s.take(i + 1)) =~= quoted_all(s.take(i)).push(quoted(s[i])));
}

/// The lines of a package block.
pub open spec fn package_lines(p: LockedPackageV) -> Seq<Seq<char>> {
    seq![field_line("name"@, p.name), field_line("version"@, p.version)] + source_lines(p.source)
        + seq![
        "            dependencies = ["@ + join_seq(
            quoted_all(p.dependencies),
            ", "@,
        ) + "]"@,
    ]
}

/// The text of one package block.
pub open spec fn package_text(p: LockedPackageV) -> Seq<char> {
    "        {\n"@ + join_seq(package_lines(p), ",\n"@) + "\n        }"@
}

/// The text of a lockfile; it always states the current version.
pub open spec fn package_texts(s: Seq<LockedPackageV>) -> Seq<Seq<char>> {
    s.map_values(|p: LockedPackageV| package_text(p))
}

proof fn lemma_package_texts_take(s: Seq<LockedPackageV>, i: int)
    requires
        0 <= i < s.len(),
    ensures
        package_texts(s.take(i + 1)) == package_texts(s.take(i)).push(package_text(s[i])),
{
    assert(package_texts(s.take(i + 1)) =~= package_texts(s.take(i)).push(package_text(s[i])));
}

pub open spec fn lockfile_text(l: LockfileV) -> Seq<char> {
    if l.packages.len() == 0 {
        "{\n    version = 2,\n    package = []\n}\n"@
    } else {
        "{\n    version = 2,\n    package = [\n"@ + join_seq(package_texts(l.packages), ",\n"@)
            + "\n    ]\n}\n"@
    }
}

fn render_field(key: &str, value: &str) -> (r: String)
    ensures
        r@ == field_line(key@, value@),
{
    let mut r = cat3("            ", key, " = \"");
    r.append(escape_str(value).as_str());
    r.append("\"");
    r
}

fn push_opt_field(fields: &mut Vec<String>, key: &str, value: &Option<String>)
    ensures
        views(final(fields)@) == views(old(fields)@) + opt_field_line(key@, opt_view(*value)),
{
    let ghost before = fields@;
    if let Some(v) = value {
        fields.push(render_field(key, v.as_str()));
        assert(views(fields@) =~= views(before) + opt_field_line(key@, opt_view(*value)));
    } else {
        assert(views(fields@) =~= views(before) + opt_field_line(key@, opt_view(*value)));
    }
}

fn push_field(fields: &mut Vec<String>, key: &str, value: &str)
    ensures
        views(final(fields)@) == views(old(fields)@).push(field_line(key@, value@)),
{
    let ghost before = fields@;
    fields.push(render_field(key, value));
    assert(views(fields@) =~= views(before).push(field_line(key@, value@)));
}

/// Each string quoted and escaped.
fn quote_each(items: &[String]) -> (r: Vec<String>)
    ensures
        views(r@) == quoted_all(views(items@)),
{
    let ghost deps = views(items@);
    let mut quoted_deps: Vec<String> = Vec::new();
    let mut i: usize = 0;
    assert(quoted_all(deps.take(0)) =~= Seq::<Seq<char>>::empty());
    assert(views(quoted_deps@) =~= Seq::<Seq<char>>::empty());
    while i < items.len()
        invariant
            deps == views(items@),
            0 <= i <= deps.len(),
            views(quoted_deps@) == quoted_all(deps.take(i as int)),
        decreases items.len() - i,
    {
        let ghost before = quoted_deps@;
        quoted_deps.push(cat3("\"", escape_str(items[i].as_str()).as_str(), "\""));
        proof {
            lemma_quoted_all_take(deps, i as int);
            assert(items@[i as int]@ == deps[i as int]);
        }
        assert(views(quoted_deps@) =~= quoted_all(deps.take(i + 1)));
        i += 1;
    }
    assert(deps.take(deps.len() as int) == deps);
    assert(views(quoted_deps@) == quoted_all(deps));
    quoted_deps
}

/// The text of one package block.
pub fn render_package(package: &LockedPackage) -> (r: String)
    ensures
        r@ == package_text(package@),
{
    let mut fields: Vec<String> = Vec::new();
    assert(views(fields@) =~= Seq::<Seq<char>>::empty());
    push_field(&mut fields, "name", package.name.as_str());
    push_field(&mut fields, "version", package.version.as_str());
    let ghost head = views(fields@);
    match &package.source {
        LockedSource::Path { requested, resolved } => {
            push_field(&mut fields, "source", "path");
            push_field(&mut fields, "path", requested.as_str());
            push_field(&mut fields, "resolved", resolved.as_str());
        },
        LockedSource::Git { url, branch, tag, rev, commit, resolved } => {
            push_field(&mut fields, "source", "git");
            push_field(&mut fields, "git", url.as_str());
            push_opt_field(&mut fields, "branch", branch);
            push_opt_field(&mut fields, "tag", tag);
            push_opt_field(&mut fields, "rev", rev);
            push_field(&mut fields, "commit", commit.as_str());
            push_field(&mut fields, "resolved", resolved.as_str());
        },
    }
    assert(views(fields@) =~= head + source_lines(package@.source));
    let quoted_deps = quote_each(package.dependencies.as_slice());
    let list = join(quoted_deps.as_slice(), ", ");
    let ghost before = fields@;
    let line = cat3("            dependencies = [", list.as_str(), "]");
    assert(line@ == "            dependencies = ["@ + join_seq(quoted_all(package@.dependencies), ", "@) + "]"@);
    fields.push(line);
    assert(views(fields@) =~= views(before).push(fields@.last()@));
    assert(views(fields@) =~= package_lines(package@));
    let body = join(fields.as_slice(), ",\n");
    cat3("        {\n", body.as_str(), "\n        }")
}

/// The text of a lockfile: its packages in the given order, each block
/// with its fields and dependency list.
pub fn render_lockfile(lockfile: Lockfile) -> (r: String)
    ensures
        r@ == lockfile_text(lockfile@),
{
    let ghost ps = lockfile@.packages;
    let mut blocks: Vec<String> = Vec::new();
    let mut i: usize = 0;
    assert(package_texts(ps.take(0)) =~= Seq::<Seq<char>>::empty());
    assert(views(blocks@) =~= Seq::<Seq<char>>::empty());
    while i < lockfile.packages.len()
        invariant
            ps == lockfile@.packages,
            0 <= i <= ps.len(),
            views(blocks@) == package_texts(ps.take(i as int)),
        decreases lockfile.packages.len() - i,
    {
        let ghost before = blocks@;
        blocks.push(render_package(&lockfile.packages[i]));
        proof {
            lemma_package_texts_take(ps, i as int);
        }
        assert(views(blocks@) =~= package_texts(ps.take(i + 1)));
        i += 1;
    }
    assert(ps.take(ps.len() as int) == ps);
    assert(views(blocks@).len() == blocks@.len());
    if blocks.len() == 0 {
        return "{\n    version = 2,\n    package = []\n}\n".to_string();
    }
    let body = join(blocks.as_slice(), ",\n");
    cat3("{\n    version = 2,\n    package = [\n", body.as_str(), "\n    ]\n}\n")
}

proof fn lemma_insert_pos(r: Seq<LockedPackageV>, name: Seq<char>)
    requires
        sorted_by_name(r),
    ensures
        0 <= insert_pos(r, name) <= r.len(),
        forall|i: int| 0 <= i < insert_pos(r, name) ==> !str_lt(name, #[trigger] r[i].name),
        forall|i: int| insert_pos(r, name) <= i < r.len() ==> str_lt(name, #[trigger] r[i].name),
    decreases r.len(),
{
    if r.len() > 0 {
        let init = r.drop_last();
        assert(sorted_by_name(init));
        if str_lt(name, r.last().name) {
            lemma_insert_pos(init, name);
            assert forall|i: int| 0 <= i < insert_pos(r, name) implies !str_lt(name, #[trigger] r[i].name) by {
                assert(r[i] == init[i]);
            }
            assert forall|i: int| insert_pos(r, name) <= i < r.len() implies str_lt(name, #[trigger] r[i].name) by {
                if i < r.len() - 1 {
                    assert(r[i] == init[i]);
                }
            }
        } else {
            assert forall|i: int| 0 <= i < r.len() implies !str_lt(name, #[trigger] r[i].name) by {
                if i < r.len() - 1 && str_lt(name, r[i].name) {
                    assert(!str_lt(r[r.len() - 1].name, r[i].name));
                    lemma_str_lt_trichotomy(r[i].name, r.last().name);
                    if str_lt(r[i].name, r.last().name) {
                        lemma_str_lt_transitive(name, r[i].name, r.last().name);
                    }
                }
            }
        }
    }
}

/// Sorting by name gives packages in order of name, as many as there were,
/// each one taken from the input.
pub proof fn lemma_sort_by_name(s: Seq<LockedPackageV>)
    ensures
        sorted_by_name(sort_by_name(s)),
        sort_by_name(s).len() == s.len(),
        forall|i: int| 0 <= i < s.len() ==> s.contains(#[trigger] sort_by_name(s)[i]),
    decreases s.len(),
{
    if s.len() > 0 {
        let init = s.drop_last();
        let x = s.last();
        let r = sort_by_name(init);
        lemma_sort_by_name(init);
        lemma_insert_pos(r, x.name);
        let k = insert_pos(r, x.name);
        let t = r.insert(k, x);
        assert forall|i: int, j: int| 0 <= i < j < t.len() implies !str_lt(t[j].name, t[i].name) by {
            if j < k {
            } else if i < k && j == k {
            } else if i < k && j > k {
                assert(t[j] == r[j - 1]);
                assert(!str_lt(r[j - 1].name, r[i].name));
            } else if i == k {
                assert(t[j] == r[j - 1]);
                assert(str_lt(x.name, r[j - 1].name));
                lemma_str_lt_asymmetric(x.name, r[j - 1].name);
            } else {
                assert(t[i] == r[i - 1] && t[j] == r[j - 1]);
            }
        }
        assert forall|i: int| 0 <= i < s.len() implies s.contains(#[trigger] t[i]) by {
            if i == k {
                assert(s[s.len() - 1] == x);
            } else {
                let y = if i < k { r[i] } else { r[i - 1] };
                assert(t[i] == y);
                assert(init.contains(y));
                let j = choose|j: int| 0 <= j < init.len() && init[j] == y;
                assert(s[j] == y);
            }
        }
    }
}

/// A list already in order of name is its own sort.
pub proof fn lemma_sort_by_name_sorted(s: Seq<LockedPackageV>)
    requires
        sorted_by_name(s),
    ensures
        sort_by_name(s) == s,
    decreases s.len(),
{
    if s.len() > 0 {
        let init = s.drop_last();
        assert(sorted_by_name(init));
        lemma_sort_by_name_sorted(init);
        if init.len() > 0 {
            assert(!str_lt(s[s.len() - 1].name, s[init.len() - 1].name));
        }
        assert(insert_pos(init, s.last().name) == init.len());
        assert(init.insert(init.len() as int, s.last()) =~= s);
    }
}

/// Sorting by name loses no package.
pub(crate) proof fn lemma_sort_by_name_keeps(s: Seq<LockedPackageV>, x: LockedPackageV)
    requires
        s.contains(x),
    ensures
        sort_by_name(s).contains(x),
    decreases s.len(),
{
    let init = s.drop_last();
    let r = sort_by_name(init);
    lemma_sort_by_name(init);
    lemma_insert_pos(r, s.last().name);
    let k = insert_pos(r, s.last().name);
    let t = r.insert(k, s.last());
    assert(sort_by_name(s) == t);
    if x == s.last() {
        assert(t[k] == x);
    } else {
        let j = choose|j: int| 0 <= j < s.len() && s[j] == x;
        assert(j < s.len() - 1);
        assert(init[j] == x);
        lemma_sort_by_name_keeps(init, x);
        let i = choose|i: int| 0 <= i < r.len() && r[i] == x;
        if i < k {
            assert(t[i] == x);
        } else {
            assert(t[i + 1] == x);
        }
    }
}

/// Normalizing twice is normalizing once: a normalized lockfile is left as it is.
pub proof fn law_normalize_idempotent(l: LockfileV)
    ensures
        normalize(normalize(l)) == normalize(l),
{
    let s = l.packages.map_values(|p: LockedPackageV| normalize_package(p));
    let n = sort_by_name(s);
    lemma_sort_by_name(s);
    let m = n.map_values(|p: LockedPackageV| normalize_package(p));
    assert forall|i: int| 0 <= i < n.len() implies normalize_package(#[trigger] n[i]) == n[i] by {
        assert(s.contains(n[i]));
        let j = choose|j: int| 0 <= j < s.len() && s[j] == n[i];
        let p = l.packages[j];
        lemma_sort_dedup(p.dependencies);
        lemma_sort_dedup_sorted(sort_dedup(p.dependencies));
        assert(normalize_package(normalize_package(p)) =~= normalize_package(p));
    }
    assert(m =~= n);
    lemma_sort_by_name_sorted(n);
}

/// No two packages share a name.
pub open spec fn distinct_names(s: Seq<LockedPackageV>) -> bool {
    forall|i: int, j: int| 0 <= i < j < s.len() ==> s[i].name != s[j].name
}

pub(crate) proof fn lemma_sort_by_name_distinct(s: Seq<LockedPackageV>)
    requires
        distinct_names(s),
    ensures
        distinct_names(sort_by_name(s)),
    decreases s.len(),
{
    if s.len() > 0 {
        let init = s.drop_last();
        let x = s.last();
        assert(distinct_names(init));
        lemma_sort_by_name_distinct(init);
        lemma_sort_by_name(init);
        let r = sort_by_name(init);
        lemma_insert_pos(r, x.name);
        let k = insert_pos(r, x.name);
        let t = r.insert(k, x);
        assert forall|a: int| 0 <= a < r.len() implies r[a].name != x.name by {
            let j = choose|j: int| 0 <= j < init.len() && init[j] == r[a];
            assert(s[j] == r[a]);
        }
        assert forall|i: int, j: int| 0 <= i < j < t.len() implies t[i].name != t[j].name by {
            if i < k && j < k {
            } else if i < k && j == k {
            } else if i < k {
                assert(t[j] == r[j - 1]);
            } else if i == k {
                assert(t[j] == r[j - 1]);
            } else {
                assert(t[i] == r[i - 1] && t[j] == r[j - 1]);
            }
        }
    }
}

proof fn lemma_no_adjacent_duplicate(s: Seq<LockedPackageV>)
    requires
        distinct_names(s),
    ensures
        first_adjacent_duplicate(s) is None,
    decreases s.len(),
{
    if s.len() >= 2 {
        assert(distinct_names(s.drop_first()));
        lemma_no_adjacent_duplicate(s.drop_first());
    }
}

/// The tree holds a string that reads back as `v`.
pub open spec fn holds_string(w: Option<Wson>, v: Seq<char>) -> bool {
    match w {
        Some(Wson::String(t)) => restore_url(t@) == v,
        _ => false,
    }
}

/// The tree holds `v` if it is given, nothing otherwise.
pub open spec fn holds_opt_string(w: Option<Wson>, v: Option<Seq<char>>) -> bool {
    match v {
        Some(x) => holds_string(w, x),
        None => w is None,
    }
}

/// The tree holds an array of strings that read back as `vs`.
pub open spec fn holds_strings(w: Option<Wson>, vs: Seq<Seq<char>>) -> bool {
    match w {
        Some(Wson::Array(items)) => items@.len() == vs.len() && forall|i: int|
            0 <= i < vs.len() ==> holds_string(Some(#[trigger] items@[i]), vs[i]),
        _ => false,
    }
}

/// The value is an object with the fields of the package block for `p`.
pub open spec fn encodes_package(w: Wson, p: LockedPackageV) -> bool {
    match w {
        Wson::Object(obj) => {
            let m = obj@;
            &&& holds_string(wson_get(m, "name"@), p.name)
            &&& holds_string(wson_get(m, "version"@), p.version)
            &&& holds_strings(wson_get(m, "dependencies"@), p.dependencies)
            &&& match p.source {
                LockedSourceV::Path { requested, resolved } => {
                    &&& holds_string(wson_get(m, "source"@), "path"@)
                    &&& holds_string(wson_get(m, "path"@), requested)
                    &&& holds_string(wson_get(m, "resolved"@), resolved)
                },
                LockedSourceV::Git { url, branch, tag, rev, commit, resolved } => {
                    &&& holds_string(wson_get(m, "source"@), "git"@)
                    &&& holds_string(wson_get(m, "git"@), url)
                    &&& holds_opt_string(wson_get(m, "branch"@), branch)
                    &&& holds_opt_string(wson_get(m, "tag"@), tag)
                    &&& holds_opt_string(wson_get(m, "rev"@), rev)
                    &&& holds_string(wson_get(m, "commit"@), commit)
                    &&& holds_string(wson_get(m, "resolved"@), resolved)
                },
            }
        },
        _ => false,
    }
}

/// The entries are those of the lockfile text that `lockfile_text` writes
/// for the packages of `l`: version 2 and one package block each.
pub open spec fn encodes_lockfile(m: Seq<(String, Wson)>, l: LockfileV) -> bool {
    &&& wson_get(m, "version"@) == Some(Wson::Int(2))
    &&& match wson_get(m, "package"@) {
        Some(Wson::Array(items)) => items@.len() == l.packages.len() && forall|i: int|
            0 <= i < items@.len() ==> encodes_package(#[trigger] items@[i], l.packages[i]),
        _ => false,
    }
}

/// The Git commits of the packages are full object IDs.
pub open spec fn valid_commits(l: LockfileV) -> bool {
    forall|i: int|
        0 <= i < l.packages.len() ==> match #[trigger] l.packages[i].source {
            LockedSourceV::Git { commit, .. } => valid_commit(commit),
            _ => true,
        }
}

proof fn lemma_strings_in_holds(items: Seq<Wson>, vs: Seq<Seq<char>>, key: Seq<char>)
    requires
        items.len() == vs.len(),
        forall|i: int| 0 <= i < vs.len() ==> holds_string(Some(#[trigger] items[i]), vs[i]),
    ensures
        strings_in(items, key) == Ok::<Seq<Seq<char>>, Seq<char>>(vs),
    decreases items.len(),
{
    if items.len() > 0 {
        assert forall|i: int| 0 <= i < vs.drop_last().len() implies holds_string(Some(#[trigger] items.drop_last()[i]), vs.drop_last()[i]) by {
            assert(items.drop_last()[i] == items[i]);
        }
        lemma_strings_in_holds(items.drop_last(), vs.drop_last(), key);
        assert(holds_string(Some(items[items.len() - 1]), vs[vs.len() - 1]));
        let t = items.last()->String_0;
        assert(items.last() == Wson::String(t));
        assert(restore_url(t@) == vs.last());
        assert(vs.drop_last().push(vs.last()) =~= vs);
        assert(strings_in(items, key) == Ok::<Seq<Seq<char>>, Seq<char>>(vs.drop_last().push(restore_url(t@))));
    } else {
        assert(vs =~= Seq::<Seq<char>>::empty());
    }
}

proof fn lemma_decode_encoded_package(w: Wson, p: LockedPackageV)
    requires
        encodes_package(w, p),
        match p.source {
            LockedSourceV::Git { commit, .. } => valid_commit(commit),
            _ => true,
        },
    ensures
        decode_package(w) == Ok::<LockedPackageV, Seq<char>>(p),
{
    reveal_strlit("path");
    reveal_strlit("git");
    let m = w->Object_0@;
    match wson_get(m, "dependencies"@) {
        Some(Wson::Array(items)) => {
            lemma_strings_in_holds(items@, p.dependencies, "dependencies"@);
        },
        _ => {},
    }
    assert(field_strings(m, "dependencies"@) == Ok::<Seq<Seq<char>>, Seq<char>>(p.dependencies));
    assert(field_string(m, "name"@) == Ok::<Seq<char>, Seq<char>>(p.name));
    assert(field_string(m, "version"@) == Ok::<Seq<char>, Seq<char>>(p.version));
    match p.source {
        LockedSourceV::Path { requested, resolved } => {
            assert(field_string(m, "source"@) == Ok::<Seq<char>, Seq<char>>("path"@));
            assert(field_string(m, "path"@) == Ok::<Seq<char>, Seq<char>>(requested));
            assert(field_string(m, "resolved"@) == Ok::<Seq<char>, Seq<char>>(resolved));
            assert(decode_source(m, p.name, "path"@) == Ok::<LockedSourceV, Seq<char>>(p.source));
        },
        LockedSourceV::Git { url, branch, tag, rev, commit, resolved } => {
            assert(field_string(m, "source"@) == Ok::<Seq<char>, Seq<char>>("git"@));
            assert(field_string(m, "commit"@) == Ok::<Seq<char>, Seq<char>>(commit));
            assert(field_string(m, "git"@) == Ok::<Seq<char>, Seq<char>>(url));
            assert(field_opt_string(m, "branch"@) == Ok::<Option<Seq<char>>, Seq<char>>(branch));
            assert(field_opt_string(m, "tag"@) == Ok::<Option<Seq<char>>, Seq<char>>(tag));
            assert(field_opt_string(m, "rev"@) == Ok::<Option<Seq<char>>, Seq<char>>(rev));
            assert(field_string(m, "resolved"@) == Ok::<Seq<char>, Seq<char>>(resolved));
            assert(decode_git_source(m, p.name) == Ok::<LockedSourceV, Seq<char>>(p.source));
            assert("git"@ != "path"@) by {
                assert("git"@.len() != "path"@.len());
            }
            assert(decode_source(m, p.name, "git"@) == Ok::<LockedSourceV, Seq<char>>(p.source));
        },
    }
}

proof fn lemma_decode_encoded_packages(items: Seq<Wson>, ps: Seq<LockedPackageV>)
    requires
        items.len() == ps.len(),
        forall|i: int| 0 <= i < items.len() ==> encodes_package(#[trigger] items[i], ps[i]),
        forall|i: int|
            0 <= i < ps.len() ==> match #[trigger] ps[i].source {
                LockedSourceV::Git { commit, .. } => valid_commit(commit),
                _ => true,
            },
    ensures
        decode_packages(items) == Ok::<Seq<LockedPackageV>, Seq<char>>(ps),
    decreases items.len(),
{
    if items.len() > 0 {
        let n = items.len() - 1;
        assert forall|i: int| 0 <= i < items.drop_last().len() implies encodes_package(#[trigger] items.drop_last()[i], ps.drop_last()[i]) by {
            assert(items.drop_last()[i] == items[i]);
        }
        assert forall|i: int| 0 <= i < ps.drop_last().len() implies match #[trigger] ps.drop_last()[i].source {
            LockedSourceV::Git { commit, .. } => valid_commit(commit),
            _ => true,
        } by {
            assert(ps.drop_last()[i] == ps[i]);
        }
        lemma_decode_encoded_packages(items.drop_last(), ps.drop_last());
        assert(encodes_package(items[n], ps[n]));
        assert(match ps[n].source {
            LockedSourceV::Git { commit, .. } => valid_commit(commit),
            _ => true,
        });
        lemma_decode_encoded_package(items[n], ps[n]);
        assert(items.last() == items[n]);
        assert(ps.drop_last().push(ps.last()) =~= ps);
    } else {
        assert(ps =~= Seq::<LockedPackageV>::empty());
    }
}

/// Reading back: the entries of a lockfile text, as `lockfile_text` writes
/// it for packages with distinct names and full commit IDs, decode to the
/// normal form of that lockfile.
pub proof fn law_decode_encoded_lockfile(m: Seq<(String, Wson)>, l: LockfileV)
    requires
        encodes_lockfile(m, l),
        distinct_names(l.packages),
        valid_commits(l),
    ensures
        decode_lockfile(m) == Ok::<LockfileV, Seq<char>>(
            normalize(LockfileV { version: 2, packages: l.packages }),
        ),
{
    let items = wson_get(m, "package"@)->Some_0->Array_0@;
    lemma_decode_encoded_packages(items, l.packages);
    let s = l.packages.map_values(|p: LockedPackageV| normalize_package(p));
    assert(distinct_names(s)) by {
        assert forall|i: int, j: int| 0 <= i < j < s.len() implies s[i].name != s[j].name by {
            assert(s[i].name == l.packages[i].name);
            assert(s[j].name == l.packages[j].name);
        }
    }
    lemma_sort_by_name_distinct(s);
    lemma_no_adjacent_duplicate(sort_by_name(s));
}

/// What a write and a later read of the lockfile give back: when the WSON
/// parser reads the rendered text (with `://` stood in for) as a document
/// that holds the packages of `l`, reading the text gives `l` in normal form.
pub proof fn law_read_back_rendered_lockfile(l: LockfileV, m: Seq<(String, Wson)>)
    requires
        l.version == 2,
        wson_document(replace_all(lockfile_text(l), "://"@, lock_sentinel()))
            == Ok::<Seq<(String, Wson)>, Seq<char>>(m),
        encodes_lockfile(m, l),
        distinct_names(l.packages),
        valid_commits(l),
    ensures
        lockfile_from_text(lockfile_text(l)) == Ok::<LockfileV, Seq<char>>(normalize(l)),
{
    law_decode_encoded_lockfile(m, l);
    assert(LockfileV { version: 2, packages: l.packages } == l);
}

/// Whether `needle` appears in `hay` as a contiguous part.
pub open spec fn occurs_in(needle: Seq<char>, hay: Seq<char>) -> bool {
    exists|a: int| 0 <= a && a + needle.len() <= hay.len() && #[trigger] hay.subrange(a, a + needle.len()) == needle
}

proof fn lemma_occurs_left(n: Seq<char>, x: Seq<char>, y: Seq<char>)
    requires
        occurs_in(n, x),
    ensures
        occurs_in(n, x + y),
{
    let a = choose|a: int| 0 <= a && a + n.len() <= x.len() && #[trigger] x.subrange(a, a + n.len()) == n;
    assert((x + y).subrange(a, a + n.len()) =~= x.subrange(a, a + n.len()));
}

proof fn lemma_occurs_right(n: Seq<char>, x: Seq<char>, y: Seq<char>)
    requires
        occurs_in(n, y),
    ensures
        occurs_in(n, x + y),
{
    let a = choose|a: int| 0 <= a && a + n.len() <= y.len() && #[trigger] y.subrange(a, a + n.len()) == n;
    let b = x.len() + a;
    assert((x + y).subrange(b, b + n.len()) =~= y.subrange(a, a + n.len()));
}

proof fn lemma_occurs_self(n: Seq<char>)
    ensures
        occurs_in(n, n),
{
    let a: int = 0;
    assert(n.subrange(a, a + n.len()) =~= n);
}

proof fn lemma_occurs_trans(n: Seq<char>, m: Seq<char>, h: Seq<char>)
    requires
        occurs_in(n, m),
        occurs_in(m, h),
    ensures
        occurs_in(n, h),
{
    let a = choose|a: int| 0 <= a && a + n.len() <= m.len() && #[trigger] m.subrange(a, a + n.len()) == n;
    let b = choose|b: int| 0 <= b && b + m.len() <= h.len() && #[trigger] h.subrange(b, b + m.len()) == m;
    let c = b + a;
    assert(h.subrange(c, c + n.len()) =~= m.subrange(a, a + n.len()));
}

proof fn lemma_occurs_join(parts: Seq<Seq<char>>, sep: Seq<char>, k: int)
    requires
        0 <= k < parts.len(),
    ensures
        occurs_in(parts[k], join_seq(parts, sep)),
    decreases parts.len(),
{
    if parts.len() == 1 {
        lemma_occurs_self(parts[0]);
    } else if k == parts.len() - 1 {
        lemma_occurs_self(parts[k]);
        lemma_occurs_right(parts[k], join_seq(parts.drop_last(), sep) + sep, parts.last());
        assert(join_seq(parts, sep) == join_seq(parts.drop_last(), sep) + sep + parts.last());
    } else {
        lemma_occurs_join(parts.drop_last(), sep, k);
        assert(parts.drop_last()[k] == parts[k]);
        lemma_occurs_left(parts[k], join_seq(parts.drop_last(), sep), sep);
        lemma_occurs_left(parts[k], join_seq(parts.drop_last(), sep) + sep, parts.last());
    }
}

proof fn lemma_line_in_lockfile(l: LockfileV, j: int, k: int)
    requires
        0 <= j < l.packages.len(),
        0 <= k < package_lines(l.packages[j]).len(),
    ensures
        occurs_in(package_lines(l.packages[j])[k], lockfile_text(l)),
{
    let p = l.packages[j];
    let line = package_lines(p)[k];
    lemma_occurs_join(package_lines(p), ",\n"@, k);
    let body = join_seq(package_lines(p), ",\n"@);
    lemma_occurs_right(line, "        {\n"@, body);
    lemma_occurs_left(line, "        {\n"@ + body, "\n        }"@);
    assert(package_texts(l.packages)[j] == package_text(p));
    lemma_occurs_join(package_texts(l.packages), ",\n"@, j);
    lemma_occurs_trans(line, package_text(p), join_seq(package_texts(l.packages), ",\n"@));
    let all = join_seq(package_texts(l.packages), ",\n"@);
    lemma_occurs_right(line, "{\n    version = 2,\n    package = [\n"@, all);
    lemma_occurs_left(line, "{\n    version = 2,\n    package = [\n"@ + all, "\n    ]\n}\n"@);
}

/// The line that states the field `key` with the value `value`.
pub open spec fn key_line(key: Seq<char>, value: Seq<char>) -> Seq<char> {
    "            "@ + key + " = \""@ + escape_quoted(value) + "\""@
}

proof fn lemma_git_fields(l: LockfileV, j: int)
    requires
        0 <= j < l.packages.len(),
        l.packages[j].source is Git,
    ensures
        match l.packages[j].source {
            LockedSourceV::Git { url, branch, tag, rev, commit, resolved } => {
                &&& occurs_in(key_line("source"@, "git"@), lockfile_text(l))
                &&& occurs_in(key_line("git"@, url), lockfile_text(l))
                &&& (branch matches Some(b) ==> occurs_in(key_line("branch"@, b), lockfile_text(l)))
                &&& (tag matches Some(t) ==> occurs_in(key_line("tag"@, t), lockfile_text(l)))
                &&& (rev matches Some(r) ==> occurs_in(key_line("rev"@, r), lockfile_text(l)))
                &&& occurs_in(key_line("commit"@, commit), lockfile_text(l))
                &&& occurs_in(key_line("resolved"@, resolved), lockfile_text(l))
            },
            _ => true,
        },
{
    let p = l.packages[j];
    let lines = package_lines(p);
    match p.source {
        LockedSourceV::Git { url, branch, tag, rev, commit, resolved } => {
            let ob = opt_field_line("branch"@, branch);
            let ot = opt_field_line("tag"@, tag);
            let orv = opt_field_line("rev"@, rev);
            let nb = ob.len() as int;
            let nt = ot.len() as int;
            let nr = orv.len() as int;
            let src = source_lines(p.source);
            assert(lines.len() == 2 + src.len() + 1);
            assert(forall|k: int| 0 <= k < src.len() ==> lines[k + 2] == #[trigger] src[k]);
            assert(src.len() == 4 + nb + nt + nr);
            assert(lines[2] == key_line("source"@, "git"@));
            lemma_line_in_lockfile(l, j, 2);
            assert(lines[3] == key_line("git"@, url));
            lemma_line_in_lockfile(l, j, 3);
            if branch is Some {
                assert(lines[4] == key_line("branch"@, branch->0));
                lemma_line_in_lockfile(l, j, 4);
            }
            if tag is Some {
                assert(lines[4 + nb] == key_line("tag"@, tag->0));
                lemma_line_in_lockfile(l, j, 4 + nb);
            }
            if rev is Some {
                assert(lines[4 + nb + nt] == key_line("rev"@, rev->0));
                lemma_line_in_lockfile(l, j, 4 + nb + nt);
            }
            assert(lines[4 + nb + nt + nr] == key_line("commit"@, commit));
            lemma_line_in_lockfile(l, j, 4 + nb + nt + nr);
            assert(lines[5 + nb + nt + nr] == key_line("resolved"@, resolved));
            lemma_line_in_lockfile(l, j, 5 + nb + nt + nr);
        },
        _ => {},
    }
}

proof fn lemma_path_fields(l: LockfileV, j: int)
    requires
        0 <= j < l.packages.len(),
        l.packages[j].source is Path,
    ensures
        match l.packages[j].source {
            LockedSourceV::Path { requested, resolved } => {
                &&& occurs_in(key_line("source"@, "path"@), lockfile_text(l))
                &&& occurs_in(key_line("path"@, requested), lockfile_text(l))
                &&& occurs_in(key_line("resolved"@, resolved), lockfile_text(l))
            },
            _ => true,
        },
{
    let p = l.packages[j];
    let lines = package_lines(p);
    match p.source {
        LockedSourceV::Path { requested, resolved } => {
            assert(lines[2] == key_line("source"@, "path"@));
            assert(lines[3] == key_line("path"@, requested));
            assert(lines[4] == key_line("resolved"@, resolved));
            lemma_line_in_lockfile(l, j, 2);
            lemma_line_in_lockfile(l, j, 3);
            lemma_line_in_lockfile(l, j, 4);
        },
        _ => {},
    }
}

/// The written lockfile states every field of every package as a line
/// `key = "value"` (the value escaped): its name and version; for a path
/// source `source = "path"`, the requested path and the resolved location;
/// for a Git source `source = "git"`, the URL, each of branch, tag and rev
/// that is given, the commit and the checkout.
pub proof fn law_rendered_lockfile_keeps_fields(l: LockfileV, j: int)
    requires
        0 <= j < l.packages.len(),
    ensures
        occurs_in(key_line("name"@, l.packages[j].name), lockfile_text(l)),
        occurs_in(key_line("version"@, l.packages[j].version), lockfile_text(l)),
        match l.packages[j].source {
            LockedSourceV::Path { requested, resolved } => {
                &&& occurs_in(key_line("source"@, "path"@), lockfile_text(l))
                &&& occurs_in(key_line("path"@, requested), lockfile_text(l))
                &&& occurs_in(key_line("resolved"@, resolved), lockfile_text(l))
            },
            LockedSourceV::Git { url, branch, tag, rev, commit, resolved } => {
                &&& occurs_in(key_line("source"@, "git"@), lockfile_text(l))
                &&& occurs_in(key_line("git"@, url), lockfile_text(l))
                &&& (branch matches Some(b) ==> occurs_in(key_line("branch"@, b), lockfile_text(l)))
                &&& (tag matches Some(t) ==> occurs_in(key_line("tag"@, t), lockfile_text(l)))
                &&& (rev matches Some(r) ==> occurs_in(key_line("rev"@, r), lockfile_text(l)))
                &&& occurs_in(key_line("commit"@, commit), lockfile_text(l))
                &&& occurs_in(key_line("resolved"@, resolved), lockfile_text(l))
            },
        },
{
    let lines = package_lines(l.packages[j]);
    assert(lines[0] == key_line("name"@, l.packages[j].name));
    assert(lines[1] == key_line("version"@, l.packages[j].version));
    lemma_line_in_lockfile(l, j, 0);
    lemma_line_in_lockfile(l, j, 1);
    if l.packages[j].source is Git {
        lemma_git_fields(l, j);
    } else {
        lemma_path_fields(l, j);
    }
}

} // verus!
