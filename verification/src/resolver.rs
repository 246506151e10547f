//! The decisions of dependency resolution: which requests may stand
//! together, when the graph has a cycle, which Git commit a package is
//! locked to, and whether the lockfile may change. The caller performs the
//! file and Git work that each decision asks for.
use vstd::prelude::*;

use crate::lockfile::{
    LockedPackage, LockedPackageV, LockedSource, LockedSourceV, Lockfile, LockfileV,
    package_views, first_named,
};
use crate::manifest::{Dependency, DependencySource, DependencySourceV, DependencyV, ManifestV};
use crate::text::{cat, cat3, join, join_seq, opt_view, str_eq, views};

verus! {

broadcast use vstd::string::group_string_axioms;

/// Which locked Git commits an operation may move.
#[derive(Debug, Clone)]
pub enum UpdatePolicy {
    /// Keep every locked commit.
    ReuseLocked,
    /// Resolve every Git dependency again.
    UpdateAll,
    /// Resolve again only the packages named (sorted, without repeats).
    UpdateSelected(Vec<String>),
}

/// How a resolution runs.
#[derive(Debug, Clone)]
pub struct ResolveOptions {
    pub dry_run: bool,
    pub update: UpdatePolicy,
    pub locked: bool,
    pub offline: bool,
}

pub ghost enum UpdatePolicyV {
    ReuseLocked,
    UpdateAll,
    UpdateSelected(Seq<Seq<char>>),
}

impl View for UpdatePolicy {
    type V = UpdatePolicyV;

    open spec fn view(&self) -> UpdatePolicyV {
        match self {
            UpdatePolicy::ReuseLocked => UpdatePolicyV::ReuseLocked,
            UpdatePolicy::UpdateAll => UpdatePolicyV::UpdateAll,
            UpdatePolicy::UpdateSelected(names) => UpdatePolicyV::UpdateSelected(views(names@)),
        }
    }
}

/// Whether the policy refreshes any Git commit.
pub open spec fn updates_any(p: UpdatePolicyV) -> bool {
    !(p is ReuseLocked)
}

/// Whether the policy refreshes the commit of the package `name`.
pub open spec fn updates_package(p: UpdatePolicyV, name: Seq<char>) -> bool {
    match p {
        UpdatePolicyV::ReuseLocked => false,
        UpdatePolicyV::UpdateAll => true,
        UpdatePolicyV::UpdateSelected(names) => names.contains(name),
    }
}

/// The option combinations that resolution refuses.
pub open spec fn options_check(update: UpdatePolicyV, locked: bool, offline: bool) -> Result<(), Seq<char>> {
    if updates_any(update) && locked {
        Err("`--locked` cannot be used while updating dependencies"@)
    } else if updates_any(update) && offline {
        Err("`--offline` cannot be used while updating Git dependencies"@)
    } else {
        Ok(())
    }
}

/// Updating refreshes commits, which `--locked` and `--offline` forbid.
pub fn check_resolve_options(options: &ResolveOptions) -> (r: Result<(), String>)
    ensures
        match options_check(options.update@, options.locked, options.offline) {
            Ok(()) => r is Ok,
            Err(e) => r matches Err(m) && m@ == e,
        },
{
    let updating = match &options.update {
        UpdatePolicy::ReuseLocked => false,
        _ => true,
    };
    if updating && options.locked {
        return Err("`--locked` cannot be used while updating dependencies".to_string());
    }
    if updating && options.offline {
        return Err("`--offline` cannot be used while updating Git dependencies".to_string());
    }
    Ok(())
}

/// What `--locked` demands of the lockfile found on disk.
pub open spec fn locked_lockfile_check(existing: Option<LockfileV>, locked: bool) -> Result<(), Seq<char>> {
    if !locked {
        Ok(())
    } else {
        match existing {
            None => Err(
                "`vex.lock` is required by `--locked`\nhelp: run `vex fetch` and commit `vex.lock`"@,
            ),
            Some(l) => if l.version != 2 {
                Err(
                    "`vex.lock` version "@ + crate::text::signed_decimal(l.version as int)
                        + " cannot be used with `--locked`; expected version 2\nhelp: run `vex fetch` to regenerate the lockfile"@,
                )
            } else {
                Ok(())
            },
        }
    }
}

/// With `--locked`, a lockfile of the current version must exist.
pub fn check_locked_lockfile(existing: &Option<Lockfile>, options: &ResolveOptions) -> (r: Result<(), String>)
    ensures
        match locked_lockfile_check(
            match existing { Some(l) => Some(l@), None => None },
            options.locked,
        ) {
            Ok(()) => r is Ok,
            Err(e) => r matches Err(m) && m@ == e,
        },
{
    if !options.locked {
        return Ok(());
    }
    match existing {
        None => Err(
            "`vex.lock` is required by `--locked`\nhelp: run `vex fetch` and commit `vex.lock`".to_string(),
        ),
        Some(l) => {
            if l.version != 2 {
                Err(
                    cat3(
                        "`vex.lock` version ",
                        crate::text::i64_to_decimal(l.version).as_str(),
                        " cannot be used with `--locked`; expected version 2\nhelp: run `vex fetch` to regenerate the lockfile",
                    ),
                )
            } else {
                Ok(())
            }
        },
    }
}

fn opt_eq(a: &Option<String>, b: &Option<String>) -> (r: bool)
    ensures
        r == (opt_view(*a) == opt_view(*b)),
{
    match (a, b) {
        (Some(x), Some(y)) => str_eq(x.as_str(), y.as_str()),
        (None, None) => true,
        _ => false,
    }
}

fn strings_eq(a: &Vec<String>, b: &Vec<String>) -> (r: bool)
    ensures
        r == (views(a@) == views(b@)),
{
    if a.len() != b.len() {
        assert(views(a@).len() != views(b@).len());
        return false;
    }
    let mut i: usize = 0;
    while i < a.len()
        invariant
            a@.len() == b@.len(),
            0 <= i <= a@.len(),
            forall|j: int| 0 <= j < i ==> a@[j]@ == b@[j]@,
        decreases a.len() - i,
    {
        if !str_eq(a[i].as_str(), b[i].as_str()) {
            assert(views(a@)[i as int] != views(b@)[i as int]);
            return false;
        }
        i += 1;
    }
    assert(views(a@) =~= views(b@));
    true
}

fn source_eq(a: &LockedSource, b: &LockedSource) -> (r: bool)
    ensures
        r == (a@ == b@),
{
    match (a, b) {
        (
            LockedSource::Path { requested: r1, resolved: s1 },
            LockedSource::Path { requested: r2, resolved: s2 },
        ) => str_eq(r1.as_str(), r2.as_str()) && str_eq(s1.as_str(), s2.as_str()),
        (
            LockedSource::Git { url: u1, branch: b1, tag: t1, rev: v1, commit: c1, resolved: s1 },
            LockedSource::Git { url: u2, branch: b2, tag: t2, rev: v2, commit: c2, resolved: s2 },
        ) => str_eq(u1.as_str(), u2.as_str()) && opt_eq(b1, b2) && opt_eq(t1, t2) && opt_eq(v1, v2)
            && str_eq(c1.as_str(), c2.as_str()) && str_eq(s1.as_str(), s2.as_str()),
        _ => false,
    }
}

fn package_eq(a: &LockedPackage, b: &LockedPackage) -> (r: bool)
    ensures
        r == (a@ == b@),
{
    str_eq(a.name.as_str(), b.name.as_str()) && str_eq(a.version.as_str(), b.version.as_str())
        && source_eq(&a.source, &b.source) && strings_eq(&a.dependencies, &b.dependencies)
}

/// Whether two lockfiles hold the same version and packages.
pub fn lockfile_eq(a: &Lockfile, b: &Lockfile) -> (r: bool)
    ensures
        r == (a@ == b@),
{
    if a.version != b.version || a.packages.len() != b.packages.len() {
        assert(a@.packages.len() == a.packages@.len());
        assert(b@.packages.len() == b.packages@.len());
        return false;
    }
    let mut i: usize = 0;
    while i < a.packages.len()
        invariant
            a.packages@.len() == b.packages@.len(),
            0 <= i <= a.packages@.len(),
            forall|j: int| 0 <= j < i ==> a.packages@[j]@ == b.packages@[j]@,
        decreases a.packages.len() - i,
    {
        if !package_eq(&a.packages[i], &b.packages[i]) {
            assert(a@.packages[i as int] != b@.packages[i as int]);
            return false;
        }
        i += 1;
    }
    assert(a@.packages =~= b@.packages);
    true
}

/// What resolution does with the graph it found, against the lockfile on
/// disk: nothing when they agree; otherwise `--locked` and dry runs fail,
/// and any other run writes the new lockfile.
pub open spec fn lock_outcome(resolved: LockfileV, existing: LockfileV, locked: bool, dry_run: bool) -> Result<bool, Seq<char>> {
    if resolved == existing {
        Ok(false)
    } else if locked {
        Err(
            "`vex.lock` needs to be updated, but `--locked` prevents changes\nhelp: run `vex fetch` and commit the updated `vex.lock`"@,
        )
    } else if dry_run {
        Err(
            "dependency graph differs from `vex.lock`\nhelp: run `vex fetch` to resolve and lock dependencies"@,
        )
    } else {
        Ok(true)
    }
}

/// Whether the resolved graph must be written; an error when it differs
/// from the lockfile and may not be written.
pub fn decide_lock_update(resolved: &Lockfile, existing: &Lockfile, options: &ResolveOptions) -> (r: Result<bool, String>)
    ensures
        match lock_outcome(resolved@, existing@, options.locked, options.dry_run) {
            Ok(w) => r == Ok::<bool, String>(w),
            Err(e) => r matches Err(m) && m@ == e,
        },
{
    if lockfile_eq(resolved, existing) {
        return Ok(false);
    }
    if options.locked {
        return Err(
            "`vex.lock` needs to be updated, but `--locked` prevents changes\nhelp: run `vex fetch` and commit the updated `vex.lock`".to_string(),
        );
    }
    if options.dry_run {
        return Err(
            "dependency graph differs from `vex.lock`\nhelp: run `vex fetch` to resolve and lock dependencies".to_string(),
        );
    }
    Ok(true)
}

/// The status line written when a lockfile is written.
pub open spec fn locking_text(count: nat) -> Seq<char> {
    crate::text::decimal(count) + (if count == 1 {
        " package to exact sources"@
    } else {
        " packages to exact sources"@
    })
}

/// The status line written when a lockfile is written.
pub fn locking_message(count: usize) -> (r: String)
    ensures
        r@ == locking_text(count as nat),
{
    let n = crate::text::u64_to_decimal(count as u64);
    if count == 1 {
        cat(n.as_str(), " package to exact sources")
    } else {
        cat(n.as_str(), " packages to exact sources")
    }
}

/// The resolved packages that a build hands to wavec.
#[derive(Debug)]
pub struct Resolution {
    packages: Vec<LockedPackage>,
}

impl View for Resolution {
    type V = Seq<LockedPackageV>;

    closed spec fn view(&self) -> Seq<LockedPackageV> {
        package_views(self.packages@)
    }
}

/// The resolved location of a package.
pub open spec fn resolved_of(s: LockedSourceV) -> Seq<char> {
    match s {
        LockedSourceV::Path { resolved, .. } => resolved,
        LockedSourceV::Git { resolved, .. } => resolved,
    }
}

/// The wavec arguments for a list of packages: the dependency root, then
/// `--dep=<name>=<location>` for each.
pub open spec fn dep_args(ps: Seq<LockedPackageV>) -> Seq<Seq<char>>
    decreases ps.len(),
{
    if ps.len() == 0 {
        seq!["--dep-root=.vex/deps"@]
    } else {
        dep_args(ps.drop_last()).push(
            "--dep="@ + ps.last().name + "="@ + resolved_of(ps.last().source),
        )
    }
}

impl Resolution {
    /// The resolution of the packages of a lockfile.
    pub fn from_lockfile(lockfile: Lockfile) -> (r: Self)
        ensures
            r@ == lockfile@.packages,
    {
        Resolution { packages: lockfile.packages }
    }

    /// The wavec arguments that map each package name to its location.
    pub fn dependency_args(&self) -> (r: Vec<String>)
        ensures
            views(r@) == dep_args(self@),
    {
        let ghost ps = self@;
        let mut args: Vec<String> = Vec::new();
        args.push("--dep-root=.vex/deps".to_string());
        assert(views(args@) =~= dep_args(ps.take(0)));
        let mut i: usize = 0;
        while i < self.packages.len()
            invariant
                ps == package_views(self.packages@),
                0 <= i <= ps.len(),
                views(args@) == dep_args(ps.take(i as int)),
            decreases self.packages.len() - i,
        {
            let package = &self.packages[i];
            let resolved = match &package.source {
                LockedSource::Path { resolved, .. } => resolved,
                LockedSource::Git { resolved, .. } => resolved,
            };
            let mut arg = cat3("--dep=", package.name.as_str(), "=");
            arg.append(resolved.as_str());
            let ghost before = args@;
            args.push(arg);
            assert(ps.take(i + 1).drop_last() == ps.take(i as int));
            assert(ps.take(i + 1).last() == package@);
            assert(views(args@) =~= views(before).push(args@.last()@));
            i += 1;
        }
        assert(ps.take(ps.len() as int) == ps);
        args
    }

    /// How many packages were resolved.
    pub fn package_count(&self) -> (r: usize)
        ensures
            r == self@.len(),
    {
        self.packages.len()
    }
}

/// What a dependency asks for: the same name must always ask for the same.
/// A path dependency is identified by where it resolves to.
#[derive(Clone, Debug, Eq, PartialEq)]
pub enum RequestKey {
    Path { resolved: String, version: Option<String> },
    Git {
        url: String,
        branch: Option<String>,
        tag: Option<String>,
        rev: Option<String>,
        version: Option<String>,
    },
}

pub ghost enum RequestKeyV {
    Path { resolved: Seq<char>, version: Option<Seq<char>> },
    Git {
        url: Seq<char>,
        branch: Option<Seq<char>>,
        tag: Option<Seq<char>>,
        rev: Option<Seq<char>>,
        version: Option<Seq<char>>,
    },
}

impl View for RequestKey {
    type V = RequestKeyV;

    open spec fn view(&self) -> RequestKeyV {
        match self {
            RequestKey::Path { resolved, version } => RequestKeyV::Path {
                resolved: resolved@,
                version: opt_view(*version),
            },
            RequestKey::Git { url, branch, tag, rev, version } => RequestKeyV::Git {
                url: url@,
                branch: opt_view(*branch),
                tag: opt_view(*tag),
                rev: opt_view(*rev),
                version: opt_view(*version),
            },
        }
    }
}

/// The request a dependency makes; `resolved` is where its path resolves to.
pub open spec fn request_of(d: DependencyV, resolved: Seq<char>) -> RequestKeyV {
    match d.source {
        DependencySourceV::Path { .. } => RequestKeyV::Path { resolved, version: d.version },
        DependencySourceV::Git { url, branch, tag, rev } => RequestKeyV::Git {
            url,
            branch,
            tag,
            rev,
            version: d.version,
        },
    }
}

/// The request a dependency makes; `resolved` is where a path dependency
/// resolves to (ignored for Git).
pub fn request_key(dependency: &Dependency, resolved: &String) -> (r: RequestKey)
    ensures
        r@ == request_of(dependency@, resolved@),
{
    match &dependency.source {
        DependencySource::Path { .. } => RequestKey::Path {
            resolved: resolved.clone(),
            version: dependency.version.clone(),
        },
        DependencySource::Git { url, branch, tag, rev } => RequestKey::Git {
            url: url.clone(),
            branch: branch.clone(),
            tag: tag.clone(),
            rev: rev.clone(),
            version: dependency.version.clone(),
        },
    }
}

/// Whether two requests are the same.
pub fn request_key_eq(a: &RequestKey, b: &RequestKey) -> (r: bool)
    ensures
        r == (a@ == b@),
{
    match (a, b) {
        (
            RequestKey::Path { resolved: r1, version: v1 },
            RequestKey::Path { resolved: r2, version: v2 },
        ) => str_eq(r1.as_str(), r2.as_str()) && opt_eq(v1, v2),
        (
            RequestKey::Git { url: u1, branch: b1, tag: t1, rev: x1, version: v1 },
            RequestKey::Git { url: u2, branch: b2, tag: t2, rev: x2, version: v2 },
        ) => str_eq(u1.as_str(), u2.as_str()) && opt_eq(b1, b2) && opt_eq(t1, t2) && opt_eq(x1, x2)
            && opt_eq(v1, v2),
        _ => false,
    }
}

/// The request recorded for `name`.
pub open spec fn request_for(requests: Seq<(Seq<char>, RequestKeyV)>, name: Seq<char>) -> Option<RequestKeyV>
    decreases requests.len(),
{
    if requests.len() == 0 {
        None
    } else if requests[0].0 == name {
        Some(requests[0].1)
    } else {
        request_for(requests.drop_first(), name)
    }
}

/// The position of `name` among the packages being resolved.
pub open spec fn visiting_index(visiting: Seq<Seq<char>>, name: Seq<char>) -> Option<int>
    decreases visiting.len(),
{
    if visiting.len() == 0 {
        None
    } else if visiting[0] == name {
        Some(0)
    } else {
        match visiting_index(visiting.drop_first(), name) {
            Some(i) => Some(i + 1),
            None => None,
        }
    }
}

/// What a resolver knows: the request of each name seen, the packages
/// resolved, and the chain of packages whose dependencies are being resolved.
pub ghost struct ResolverV {
    pub requests: Seq<(Seq<char>, RequestKeyV)>,
    pub packages: Seq<LockedPackageV>,
    pub visiting: Seq<Seq<char>>,
}

/// No name is requested twice.
pub open spec fn distinct_request_names(rq: Seq<(Seq<char>, RequestKeyV)>) -> bool {
    forall|i: int, j: int| 0 <= i < j < rq.len() ==> rq[i].0 != rq[j].0
}

/// The resolver's invariant, which stands for the maps keyed by name that
/// the state is: one request per name and one resolved package per name.
pub open spec fn resolver_wf(s: ResolverV) -> bool {
    &&& distinct_request_names(s.requests)
    &&& crate::lockfile::distinct_names(s.packages)
}

proof fn lemma_request_for_none(rq: Seq<(Seq<char>, RequestKeyV)>, name: Seq<char>)
    requires
        request_for(rq, name) is None,
    ensures
        forall|i: int| 0 <= i < rq.len() ==> rq[i].0 != name,
    decreases rq.len(),
{
    if rq.len() > 0 {
        lemma_request_for_none(rq.drop_first(), name);
        assert forall|i: int| 0 <= i < rq.len() implies rq[i].0 != name by {
            if i > 0 {
                assert(rq[i] == rq.drop_first()[i - 1]);
            }
        }
    }
}

proof fn lemma_begin_keeps_wf(s: ResolverV, name: Seq<char>, key: RequestKeyV)
    requires
        resolver_wf(s),
    ensures
        resolver_wf(ResolverV { requests: begin_step(s, name, key).1, ..s }),
{
    if request_for(s.requests, name) is None {
        lemma_request_for_none(s.requests, name);
        let rq = s.requests.push((name, key));
        assert forall|i: int, j: int| 0 <= i < j < rq.len() implies rq[i].0 != rq[j].0 by {
            if j == s.requests.len() {
                assert(rq[i] == s.requests[i]);
            } else {
                assert(rq[i] == s.requests[i] && rq[j] == s.requests[j]);
            }
        }
    }
}

/// What to do with a dependency.
#[derive(Debug, Clone, Copy, PartialEq, Eq)]
pub enum Begin {
    /// It was resolved already, with the same request.
    AlreadyResolved,
    /// Resolve it.
    Resolve,
}

/// The cycle message: the packages from the first `name` on, then `name`.
pub open spec fn cycle_text(visiting: Seq<Seq<char>>, index: int, name: Seq<char>) -> Seq<char> {
    "dependency cycle detected: "@ + join_seq(visiting.skip(index).push(name), " -> "@)
}

/// The decision on a dependency named `name` with the request `key`, and the
/// requests afterwards: a name that was requested differently is an error;
/// one requested the same way and resolved is done; one already being
/// resolved closes a cycle; otherwise its request is recorded and it is
/// resolved.
pub open spec fn begin_step(s: ResolverV, name: Seq<char>, key: RequestKeyV) -> (Result<Begin, Seq<char>>, Seq<(Seq<char>, RequestKeyV)>) {
    match request_for(s.requests, name) {
        Some(prev) => if prev != key {
            (
                Err(
                    "package name `"@ + name
                        + "` refers to more than one source or version requirement"@,
                ),
                s.requests,
            )
        } else if first_named(s.packages, name) is Some {
            (Ok(Begin::AlreadyResolved), s.requests)
        } else {
            (cycle_check(s.visiting, name), s.requests)
        },
        None => (cycle_check(s.visiting, name), s.requests.push((name, key))),
    }
}

pub open spec fn cycle_check(visiting: Seq<Seq<char>>, name: Seq<char>) -> Result<Begin, Seq<char>> {
    match visiting_index(visiting, name) {
        Some(i) => Err(cycle_text(visiting, i, name)),
        None => Ok(Begin::Resolve),
    }
}

/// The packages after `p` is recorded: it takes the place of a package of
/// the same name, or is added.
pub open spec fn record_package(ps: Seq<LockedPackageV>, p: LockedPackageV) -> Seq<LockedPackageV> {
    match first_named(ps, p.name) {
        Some(i) => ps.update(i, p),
        None => ps.push(p),
    }
}

/// The state of a resolution while the caller walks the dependency graph.
pub struct Resolver {
    pub options: ResolveOptions,
    pub existing: Lockfile,
    pub requests: Vec<(String, RequestKey)>,
    pub packages: Vec<LockedPackage>,
    pub visiting: Vec<String>,
}

pub open spec fn request_views(s: Seq<(String, RequestKey)>) -> Seq<(Seq<char>, RequestKeyV)> {
    s.map_values(|e: (String, RequestKey)| (e.0@, e.1@))
}

impl View for Resolver {
    type V = ResolverV;

    open spec fn view(&self) -> ResolverV {
        ResolverV {
            requests: request_views(self.requests@),
            packages: package_views(self.packages@),
            visiting: views(self.visiting@),
        }
    }
}

impl Resolver {
    /// A resolver with nothing requested yet.
    pub fn new(options: ResolveOptions, existing: Lockfile) -> (r: Self)
        ensures
            r@ == (ResolverV { requests: Seq::empty(), packages: Seq::empty(), visiting: Seq::empty() }),
            resolver_wf(r@),
            r.options == options,
            r.existing == existing,
    {
        let r = Resolver {
            options,
            existing,
            requests: Vec::new(),
            packages: Vec::new(),
            visiting: Vec::new(),
        };
        proof {
            assert(request_views(r.requests@) =~= Seq::<(Seq<char>, RequestKeyV)>::empty());
            assert(package_views(r.packages@) =~= Seq::<LockedPackageV>::empty());
            assert(views(r.visiting@) =~= Seq::<Seq<char>>::empty());
        }
        r
    }

    /// Decides what to do with the dependency `name` that asks for `key`,
    /// recording the request when it is the first for that name.
    pub fn begin(&mut self, name: &str, key: RequestKey) -> (r: Result<Begin, String>)
        ensures
            match begin_step(old(self)@, name@, key@).0 {
                Ok(b) => r == Ok::<Begin, String>(b),
                Err(e) => r matches Err(m) && m@ == e,
            },
            final(self)@ == (ResolverV { requests: begin_step(old(self)@, name@, key@).1, ..old(self)@ }),
            resolver_wf(old(self)@) ==> resolver_wf(final(self)@),
            final(self).options == old(self).options,
            final(self).existing == old(self).existing,
    {
        proof {
            if resolver_wf(self@) {
                lemma_begin_keeps_wf(self@, name@, key@);
            }
        }
        let ghost s0 = self@;
        let ghost rq = request_views(self.requests@);
        let mut i: usize = 0;
        assert(rq.skip(0) == rq);
        while i < self.requests.len() && !str_eq(self.requests[i].0.as_str(), name)
            invariant
                rq == request_views(self.requests@),
                0 <= i <= rq.len(),
                request_for(rq.skip(i as int), name@) == request_for(rq, name@),
            decreases self.requests.len() - i,
        {
            assert(rq.skip(i as int)[0] == (self.requests@[i as int].0@, self.requests@[i as int].1@));
            assert(rq.skip(i as int).drop_first() == rq.skip(i + 1));
            i += 1;
        }
        let found: Option<usize> = if i < self.requests.len() {
            assert(rq.skip(i as int)[0] == (self.requests@[i as int].0@, self.requests@[i as int].1@));
            Some(i)
        } else {
            None
        };
        match found {
            Some(k) => {
                assert(request_for(rq, name@) == Some(self.requests@[k as int].1@));
                if !request_key_eq(&self.requests[k].1, &key) {
                    return Err(
                        cat3(
                            "package name `",
                            name,
                            "` refers to more than one source or version requirement",
                        ),
                    );
                }
                if self.has_package(name) {
                    return Ok(Begin::AlreadyResolved);
                }
                self.check_cycle(name)
            },
            None => {
                assert(rq.skip(i as int).len() == 0);
                let r = self.check_cycle(name);
                let ghost before = self.requests@;
                self.requests.push((name.to_string(), key));
                proof {
                    assert(request_views(self.requests@) =~= request_views(before).push(
                        (name@, self.requests@.last().1@),
                    ));
                }
                r
            },
        }
    }

    fn has_package(&self, name: &str) -> (r: bool)
        ensures
            r == (first_named(self@.packages, name@) is Some),
    {
        let ghost s = package_views(self.packages@);
        let mut i: usize = 0;
        assert(s.skip(0) == s);
        while i < self.packages.len()
            invariant
                s == package_views(self.packages@),
                0 <= i <= s.len(),
                (first_named(s.skip(i as int), name@) is Some) == (first_named(s, name@) is Some),
            decreases self.packages.len() - i,
        {
            assert(s.skip(i as int)[0] == self.packages@[i as int]@);
            assert(s.skip(i as int).drop_first() == s.skip(i + 1));
            if str_eq(self.packages[i].name.as_str(), name) {
                return true;
            }
            i += 1;
        }
        assert(s.skip(i as int).len() == 0);
        false
    }

    fn check_cycle(&self, name: &str) -> (r: Result<Begin, String>)
        ensures
            match cycle_check(self@.visiting, name@) {
                Ok(b) => r == Ok::<Begin, String>(b),
                Err(e) => r matches Err(m) && m@ == e,
            },
    {
        let ghost v = views(self.visiting@);
        let mut i: usize = 0;
        assert(v.skip(0) == v);
        while i < self.visiting.len()
            invariant
                v == views(self.visiting@),
                0 <= i <= v.len(),
                visiting_index(v, name@) == match visiting_index(v.skip(i as int), name@) {
                    Some(j) => Some(j + i),
                    None => None,
                },
            decreases self.visiting.len() - i,
        {
            assert(v.skip(i as int)[0] == self.visiting@[i as int]@);
            assert(v.skip(i as int).drop_first() == v.skip(i + 1));
            if str_eq(self.visiting[i].as_str(), name) {
                let mut chain: Vec<String> = Vec::new();
                let mut j: usize = i;
                assert(views(chain@) =~= v.skip(i as int).take(0));
                while j < self.visiting.len()
                    invariant
                        v == views(self.visiting@),
                        i <= j <= v.len(),
                        views(chain@) == v.skip(i as int).take(j - i),
                    decreases self.visiting.len() - j,
                {
                    let ghost before = chain@;
                    let c = self.visiting[j].clone();
                    assert(c@ == v[j as int]);
                    chain.push(c);
                    assert(v.skip(i as int).take(j + 1 - i) =~= v.skip(i as int).take(j - i).push(v[j as int]));
                    assert(views(chain@) =~= views(before).push(c@));
                    j += 1;
                }
                assert(v.skip(i as int).take(v.len() - i) == v.skip(i as int));
                let ghost before = chain@;
                chain.push(name.to_string());
                assert(views(chain@) =~= v.skip(i as int).push(name@));
                let joined = join(chain.as_slice(), " -> ");
                return Err(cat("dependency cycle detected: ", joined.as_str()));
            }
            i += 1;
        }
        assert(v.skip(i as int).len() == 0);
        Ok(Begin::Resolve)
    }

    /// Marks `name` as being resolved, before its own dependencies are.
    pub fn enter(&mut self, name: &str)
        ensures
            final(self)@ == (ResolverV { visiting: old(self)@.visiting.push(name@), ..old(self)@ }),
            resolver_wf(old(self)@) ==> resolver_wf(final(self)@),
            final(self).options == old(self).options,
            final(self).existing == old(self).existing,
    {
        let ghost before = self.visiting@;
        self.visiting.push(name.to_string());
        assert(views(self.visiting@) =~= views(before).push(name@));
    }

    /// Marks the last package entered as no longer being resolved.
    pub fn leave(&mut self)
        ensures
            final(self)@ == (ResolverV { visiting: if old(self)@.visiting.len() > 0 {
                old(self)@.visiting.drop_last()
            } else {
                old(self)@.visiting
            }, ..old(self)@ }),
            resolver_wf(old(self)@) ==> resolver_wf(final(self)@),
            final(self).options == old(self).options,
            final(self).existing == old(self).existing,
    {
        let ghost before = self.visiting@;
        if self.visiting.len() > 0 {
            self.visiting.pop();
            assert(views(self.visiting@) =~= views(before).drop_last());
        }
    }

    /// Records a resolved package; it takes the place of one of the same name.
    pub fn finish(&mut self, package: LockedPackage)
        ensures
            final(self)@ == (ResolverV { packages: record_package(old(self)@.packages, package@), ..old(self)@ }),
            resolver_wf(old(self)@) ==> resolver_wf(final(self)@),
            final(self).options == old(self).options,
            final(self).existing == old(self).existing,
    {
        proof {
            if resolver_wf(self@) {
                law_record_keeps_names_distinct(self@.packages, package@);
            }
        }
        let ghost s = package_views(self.packages@);
        let ghost pv = package@;
        let mut i: usize = 0;
        assert(s.skip(0) == s);
        while i < self.packages.len()
            invariant
                *self == *old(self),
                package@ == pv,
                s == package_views(self.packages@),
                0 <= i <= s.len(),
                first_named(s, pv.name) == match first_named(s.skip(i as int), pv.name) {
                    Some(j) => Some(j + i),
                    None => None,
                },
            decreases self.packages.len() - i,
        {
            assert(s.skip(i as int)[0] == self.packages@[i as int]@);
            assert(s.skip(i as int).drop_first() == s.skip(i + 1));
            if str_eq(self.packages[i].name.as_str(), package.name.as_str()) {
                self.packages.set(i, package);
                assert(package_views(self.packages@) =~= s.update(i as int, pv));
                return;
            }
            i += 1;
        }
        assert(s.skip(i as int).len() == 0);
        self.packages.push(package);
        assert(package_views(self.packages@) =~= s.push(pv));
    }

    /// The resolved graph, in normal form, as a lockfile of the current version.
    pub fn into_lockfile(self) -> (r: Lockfile)
        ensures
            r@ == crate::lockfile::normalize(LockfileV { version: 2, packages: self@.packages }),
    {
        Lockfile { version: 2, packages: self.packages }.normalized()
    }
}

/// A name that the Git sources of a package agree on: same URL and the same
/// branch, tag and rev.
pub open spec fn same_git_request(s: LockedSourceV, d: DependencySourceV) -> bool {
    match (s, d) {
        (
            LockedSourceV::Git { url: u1, branch: b1, tag: t1, rev: r1, .. },
            DependencySourceV::Git { url: u2, branch: b2, tag: t2, rev: r2 },
        ) => u1 == u2 && b1 == b2 && t1 == t2 && r1 == r2,
        _ => false,
    }
}

/// The commit that the lockfile holds for a Git dependency: none when the
/// policy refreshes it, when it is not locked, or when its locked source
/// asked for something else.
pub open spec fn locked_commit_of(existing: LockfileV, d: DependencyV, update: UpdatePolicyV) -> Option<Seq<char>> {
    if updates_package(update, d.name) {
        None
    } else {
        match first_named(existing.packages, d.name) {
            Some(i) => {
                let p = existing.packages[i];
                if same_git_request(p.source, d.source) {
                    Some(p.source->Git_commit)
                } else {
                    None
                }
            },
            None => None,
        }
    }
}

fn contains_name(names: &Vec<String>, name: &str) -> (r: bool)
    ensures
        r == views(names@).contains(name@),
{
    let mut i: usize = 0;
    while i < names.len()
        invariant
            0 <= i <= names@.len(),
            forall|j: int| 0 <= j < i ==> names@[j]@ != name@,
        decreases names.len() - i,
    {
        if str_eq(names[i].as_str(), name) {
            assert(views(names@)[i as int] == name@);
            return true;
        }
        i += 1;
    }
    assert forall|j: int| 0 <= j < views(names@).len() implies views(names@)[j] != name@ by {
        assert(views(names@)[j] == names@[j]@);
    }
    false
}

/// The commit that the lockfile holds for the Git dependency `dependency`.
pub fn locked_commit(existing: &Lockfile, dependency: &Dependency, update: &UpdatePolicy) -> (r: Option<String>)
    ensures
        opt_view(r) == locked_commit_of(existing@, dependency@, update@),
{
    let refreshed = match update {
        UpdatePolicy::ReuseLocked => false,
        UpdatePolicy::UpdateAll => true,
        UpdatePolicy::UpdateSelected(names) => contains_name(names, dependency.name.as_str()),
    };
    if refreshed {
        return None;
    }
    match existing.package(dependency.name.as_str()) {
        Some(package) => match (&package.source, &dependency.source) {
            (
                LockedSource::Git { url: u1, branch: b1, tag: t1, rev: r1, commit, .. },
                DependencySource::Git { url: u2, branch: b2, tag: t2, rev: r2 },
            ) => {
                if str_eq(u1.as_str(), u2.as_str()) && opt_eq(b1, b2) && opt_eq(t1, t2)
                    && opt_eq(r1, r2) {
                    Some(commit.clone())
                } else {
                    None
                }
            },
            _ => None,
        },
        None => None,
    }
}

/// The Git work that fixes the commit of a dependency.
#[derive(Debug, Clone, PartialEq, Eq)]
pub enum GitPlan {
    /// Dry run: the checkout must already be at this commit.
    VerifyCheckout(String),
    /// Offline: check out this commit from the local repository only.
    OfflineCheckout(String),
    /// Online: make sure the repository has this commit, then check it out.
    CheckoutLocked(String),
    /// Online: fetch, then check out what this reference names.
    FetchReference(String),
}

pub ghost enum GitPlanV {
    VerifyCheckout(Seq<char>),
    OfflineCheckout(Seq<char>),
    CheckoutLocked(Seq<char>),
    FetchReference(Seq<char>),
}

impl View for GitPlan {
    type V = GitPlanV;

    open spec fn view(&self) -> GitPlanV {
        match self {
            GitPlan::VerifyCheckout(c) => GitPlanV::VerifyCheckout(c@),
            GitPlan::OfflineCheckout(c) => GitPlanV::OfflineCheckout(c@),
            GitPlan::CheckoutLocked(c) => GitPlanV::CheckoutLocked(c@),
            GitPlan::FetchReference(r) => GitPlanV::FetchReference(r@),
        }
    }
}

/// The revision that a Git request names.
pub open spec fn reference_text(branch: Option<Seq<char>>, tag: Option<Seq<char>>, rev: Option<Seq<char>>) -> Seq<char> {
    match branch {
        Some(b) => "refs/remotes/origin/"@ + b + "^{commit}"@,
        None => match tag {
            Some(t) => "refs/tags/"@ + t + "^{commit}"@,
            None => match rev {
                Some(r) => r + "^{commit}"@,
                None => "refs/remotes/origin/HEAD^{commit}"@,
            },
        },
    }
}

/// The revision that a Git request names, for `git rev-parse`.
pub fn git_reference(branch: &Option<String>, tag: &Option<String>, rev: &Option<String>) -> (r: String)
    ensures
        r@ == reference_text(opt_view(*branch), opt_view(*tag), opt_view(*rev)),
{
    match branch {
        Some(b) => cat3("refs/remotes/origin/", b.as_str(), "^{commit}"),
        None => match tag {
            Some(t) => cat3("refs/tags/", t.as_str(), "^{commit}"),
            None => match rev {
                Some(r) => cat(r.as_str(), "^{commit}"),
                None => "refs/remotes/origin/HEAD^{commit}".to_string(),
            },
        },
    }
}

/// The plan for a Git dependency named `name`, given the commit locked for
/// it: `--locked` needs a locked commit; a dry run only checks the checkout;
/// offline only checks out locally; otherwise a locked commit is checked
/// out and an unlocked request is fetched and resolved.
pub open spec fn git_plan(dry_run: bool, locked: bool, offline: bool, name: Seq<char>, commit: Option<Seq<char>>, reference: Seq<char>) -> Result<GitPlanV, Seq<char>> {
    if locked && commit is None {
        Err(
            "`vex.lock` does not match Git dependency `"@ + name
                + "`
help: run `vex fetch` to update the lockfile"@,
        )
    } else if dry_run {
        match commit {
            Some(c) => Ok(GitPlanV::VerifyCheckout(c)),
            None => Err(
                "Git dependency `"@ + name + "` is not pinned in `vex.lock`
help: run `vex fetch` first"@,
            ),
        }
    } else if offline {
        match commit {
            Some(c) => Ok(GitPlanV::OfflineCheckout(c)),
            None => Err(
                "Git dependency `"@ + name
                    + "` is not pinned for offline use
help: run `vex fetch` while online"@,
            ),
        }
    } else {
        match commit {
            Some(c) => Ok(GitPlanV::CheckoutLocked(c)),
            None => Ok(GitPlanV::FetchReference(reference)),
        }
    }
}

/// The Git work for a dependency with a Git source.
pub fn plan_git_commit(options: &ResolveOptions, dependency: &Dependency, locked: Option<String>) -> (r: Result<GitPlan, String>)
    requires
        dependency@.source is Git,
    ensures
        match git_plan(
            options.dry_run,
            options.locked,
            options.offline,
            dependency@.name,
            opt_view(locked),
            reference_text(
                dependency@.source->Git_branch,
                dependency@.source->Git_tag,
                dependency@.source->Git_rev,
            ),
        ) {
            Ok(p) => r matches Ok(q) && q@ == p,
            Err(e) => r matches Err(m) && m@ == e,
        },
{
    let name = dependency.name.as_str();
    if options.locked && locked.is_none() {
        return Err(
            cat3(
                "`vex.lock` does not match Git dependency `",
                name,
                "`
help: run `vex fetch` to update the lockfile",
            ),
        );
    }
    if options.dry_run {
        return match locked {
            Some(c) => Ok(GitPlan::VerifyCheckout(c)),
            None => Err(
                cat3(
                    "Git dependency `",
                    name,
                    "` is not pinned in `vex.lock`
help: run `vex fetch` first",
                ),
            ),
        };
    }
    if options.offline {
        return match locked {
            Some(c) => Ok(GitPlan::OfflineCheckout(c)),
            None => Err(
                cat3(
                    "Git dependency `",
                    name,
                    "` is not pinned for offline use
help: run `vex fetch` while online",
                ),
            ),
        };
    }
    match locked {
        Some(c) => Ok(GitPlan::CheckoutLocked(c)),
        None => match &dependency.source {
            DependencySource::Git { branch, tag, rev, .. } => Ok(
                GitPlan::FetchReference(git_reference(branch, tag, rev)),
            ),
            DependencySource::Path { .. } => Err("internal error: expected Git dependency".to_string()),
        },
    }
}

/// `message` with every line after the first indented by two spaces.
pub fn indent_lines(message: &str) -> (r: String)
    ensures
        r@ == crate::text::replace_all(message@, "\n"@, "\n  "@),
{
    proof {
        reveal_strlit("\n");
    }
    crate::text::replace_str(message, "\n", "\n  ")
}

/// The error of a dependency that failed to resolve, with its cause below it.
pub open spec fn resolve_failure_text(name: Seq<char>, manifest: Seq<char>, cause: Seq<char>) -> Seq<char> {
    "failed to resolve dependency `"@ + name + "` from `"@ + manifest + "`\n\nCaused by:\n  "@
        + crate::text::replace_all(cause, "\n"@, "\n  "@)
}

/// The error of a dependency that failed to resolve, with its cause below it.
pub fn resolve_failure_message(name: &str, manifest: &str, cause: &str) -> (r: String)
    ensures
        r@ == resolve_failure_text(name@, manifest@, cause@),
{
    let mut m = cat3("failed to resolve dependency `", name, "` from `");
    m.append(manifest);
    m.append("`\n\nCaused by:\n  ");
    m.append(indent_lines(cause).as_str());
    m
}

/// Whether the dependency at `i` repeats the name of an earlier one.
pub fn declared_before(dependencies: &[Dependency], i: usize) -> (r: bool)
    requires
        i < dependencies@.len(),
    ensures
        r == exists|j: int| 0 <= j < i && #[trigger] dependencies@[j]@.name == dependencies@[i as int]@.name,
{
    let mut j: usize = 0;
    while j < i
        invariant
            i < dependencies@.len(),
            0 <= j <= i,
            forall|k: int| 0 <= k < j ==> #[trigger] dependencies@[k]@.name != dependencies@[i as int]@.name,
        decreases i - j,
    {
        if str_eq(dependencies[j].name.as_str(), dependencies[i].name.as_str()) {
            assert(dependencies@[j as int]@.name == dependencies@[i as int]@.name);
            return true;
        }
        j += 1;
    }
    false
}

/// The error of a manifest that names a dependency twice.
pub fn duplicate_dependency_message(manifest: &str, name: &str) -> (r: String)
    ensures
        r@ == "manifest `"@ + manifest@ + "` declares dependency `"@ + name@ + "` more than once"@,
{
    let mut m = cat3("manifest `", manifest, "` declares dependency `");
    m.append(name);
    m.append("` more than once");
    m
}

/// The names of a manifest's dependencies, sorted (the names are distinct
/// once resolution has accepted the manifest).
pub fn dependency_names(dependencies: &[Dependency]) -> (r: Vec<String>)
    ensures
        views(r@) == crate::text::sort_dedup(dependencies@.map_values(|d: Dependency| d@.name)),
{
    let ghost names = dependencies@.map_values(|d: Dependency| d@.name);
    let mut out: Vec<String> = Vec::new();
    let mut i: usize = 0;
    assert(views(out@) =~= names.take(0));
    while i < dependencies.len()
        invariant
            names == dependencies@.map_values(|d: Dependency| d@.name),
            0 <= i <= dependencies@.len(),
            views(out@) == names.take(i as int),
        decreases dependencies.len() - i,
    {
        let ghost before = out@;
        let c = dependencies[i].name.clone();
        assert(c@ == names[i as int]);
        out.push(c);
        assert(names.take(i + 1) =~= names.take(i as int).push(names[i as int]));
        assert(views(out@) =~= views(before).push(c@));
        i += 1;
    }
    assert(names.take(names.len() as int) == names);
    crate::text::sorted_unique(out)
}

/// What a resolved package's own manifest must agree on: its name, and the
/// version the dependency requires.
pub open spec fn identity_check(d: DependencyV, manifest_path: Seq<char>, m: ManifestV) -> Result<(), Seq<char>> {
    if m.name != d.name {
        Err(
            "dependency is named `"@ + d.name + "` but `"@ + manifest_path + "` declares package `"@
                + m.name + "`"@,
        )
    } else if d.version is Some && m.version != d.version->0 {
        Err(
            "dependency `"@ + d.name + "` requires version `"@ + d.version->0
                + "` but source contains version `"@ + m.version + "`"@,
        )
    } else {
        Ok(())
    }
}

/// Checks a resolved package's manifest against the dependency that asked for it.
pub fn check_package_identity(dependency: &Dependency, manifest_path: &str, package: &crate::manifest::Manifest) -> (r: Result<(), String>)
    ensures
        match identity_check(dependency@, manifest_path@, package@) {
            Ok(()) => r is Ok,
            Err(e) => r matches Err(m) && m@ == e,
        },
{
    if !str_eq(package.name.as_str(), dependency.name.as_str()) {
        let mut m = cat3("dependency is named `", dependency.name.as_str(), "` but `");
        m.append(manifest_path);
        m.append("` declares package `");
        m.append(package.name.as_str());
        m.append("`");
        return Err(m);
    }
    if let Some(required) = &dependency.version {
        if !str_eq(package.version.as_str(), required.as_str()) {
            let mut m = cat3("dependency `", dependency.name.as_str(), "` requires version `");
            m.append(required.as_str());
            m.append("` but source contains version `");
            m.append(package.version.as_str());
            m.append("`");
            return Err(m);
        }
    }
    Ok(())
}

/// The error of a failed Git command: what it printed to stderr, else to
/// stdout, else that it printed nothing.
pub open spec fn git_error_text(action: Seq<char>, status: Seq<char>, out: Seq<char>, err: Seq<char>) -> Seq<char> {
    let details = if crate::text::trim(err).len() > 0 {
        crate::text::trim(err)
    } else if crate::text::trim(out).len() > 0 {
        crate::text::trim(out)
    } else {
        "<no output>"@
    };
    "could not "@ + action + " (status "@ + status + "): "@ + details
}

/// The error of a failed Git command; `status` is how its exit status reads.
pub fn git_error(action: &str, status: &str, stdout: &[u8], stderr: &[u8]) -> (r: String)
    ensures
        r@ == git_error_text(
            action@,
            status@,
            crate::text::utf8_lossy(stdout@),
            crate::text::utf8_lossy(stderr@),
        ),
{
    let out = crate::text::text_from_bytes(stdout);
    let err = crate::text::text_from_bytes(stderr);
    let out = crate::text::trim_str(out.as_str());
    let err = crate::text::trim_str(err.as_str());
    let details = if !err.as_str().is_empty() {
        err
    } else if !out.as_str().is_empty() {
        out
    } else {
        "<no output>".to_string()
    };
    let mut m = cat3("could not ", action, " (status ");
    m.append(status);
    m.append("): ");
    m.append(details.as_str());
    m
}

/// The error of an offline run whose locked dependency has no checkout.
pub fn offline_checkout_missing(name: &str, destination: &str) -> (r: String)
    ensures
        r@ == "locked dependency `"@ + name@ + "` is not available locally in offline mode\n\nCaused by:\n  checkout `"@
            + destination@ + "` is missing\n\nhelp: run `vex fetch` while online"@,
{
    let mut m = cat3(
        "locked dependency `",
        name,
        "` is not available locally in offline mode\n\nCaused by:\n  checkout `",
    );
    m.append(destination);
    m.append("` is missing\n\nhelp: run `vex fetch` while online");
    m
}

/// The error of an offline run whose checkout lacks the locked commit.
pub fn offline_commit_missing(name: &str, commit: &str, destination: &str) -> (r: String)
    ensures
        r@ == "locked dependency `"@ + name@ + "` is incomplete in offline mode\n\nCaused by:\n  commit `"@
            + commit@ + "` was not found in `"@ + destination@
            + "`\n\nhelp: run `vex fetch` while online"@,
{
    let mut m = cat3(
        "locked dependency `",
        name,
        "` is incomplete in offline mode\n\nCaused by:\n  commit `",
    );
    m.append(commit);
    m.append("` was not found in `");
    m.append(destination);
    m.append("`\n\nhelp: run `vex fetch` while online");
    m
}

/// The options that every managed Git command starts with: Git's `ext`
/// transport, which runs arbitrary commands, is refused.
pub fn git_safety_args() -> (r: Vec<String>)
    ensures
        views(r@) == seq!["-c"@, "protocol.ext.allow=never"@],
{
    let mut r: Vec<String> = Vec::new();
    r.push("-c".to_string());
    r.push("protocol.ext.allow=never".to_string());
    assert(views(r@) =~= seq!["-c"@, "protocol.ext.allow=never"@]);
    r
}

/// The arguments of the clone of a Git dependency: option parsing ends
/// before the URL and the destination, so neither is read as an option.
pub fn git_clone_args(url: &str, destination: &str) -> (r: Vec<String>)
    ensures
        views(r@) == seq!["clone"@, "--"@, url@, destination@],
{
    let mut r: Vec<String> = Vec::new();
    r.push("clone".to_string());
    r.push("--".to_string());
    r.push(url.to_string());
    r.push(destination.to_string());
    assert(views(r@) =~= seq!["clone"@, "--"@, url@, destination@]);
    r
}

/// The arguments that resolve a reference to a commit: option parsing
/// ends before the reference, so it is never read as an option.
pub fn git_rev_parse_args(reference: &str) -> (r: Vec<String>)
    ensures
        views(r@) == seq!["rev-parse"@, "--verify"@, "--end-of-options"@, reference@],
{
    let mut r: Vec<String> = Vec::new();
    r.push("rev-parse".to_string());
    r.push("--verify".to_string());
    r.push("--end-of-options".to_string());
    r.push(reference.to_string());
    assert(views(r@) =~= seq!["rev-parse"@, "--verify"@, "--end-of-options"@, reference@]);
    r
}

/// Whether a checkout at `current` must move to reach `commit`.
pub fn checkout_move_needed(current: &str, commit: &str) -> (r: bool)
    ensures
        r == (current@ != commit@),
{
    !str_eq(current, commit)
}

/// What checking out a locked commit online does once it is known whether
/// the repository already holds the commit: fetch first only when it does not.
pub fn locked_checkout_needs_fetch(has_commit: bool) -> (r: bool)
    ensures
        r == !has_commit,
{
    !has_commit
}

/// The check that a managed checkout at `destination` was cloned from the
/// URL the dependency names.
pub fn check_origin(destination: &str, actual: &str, expected: &str) -> (r: Result<(), String>)
    ensures
        actual@ == expected@ ==> r is Ok,
        actual@ != expected@ ==> (r matches Err(m) && m@ == "managed checkout `"@ + destination@
            + "` has origin `"@ + actual@ + "`, expected `"@ + expected@
            + "`\nhelp: remove that checkout and run `vex fetch` again"@),
{
    if str_eq(actual, expected) {
        return Ok(());
    }
    let mut m = cat3("managed checkout `", destination, "` has origin `");
    m.append(actual);
    m.append("`, expected `");
    m.append(expected);
    m.append("`\nhelp: remove that checkout and run `vex fetch` again");
    Err(m)
}

/// The check of a dry run that the checkout at `destination` is at the
/// commit the lockfile pins.
pub fn check_checkout_at(destination: &str, current: &str, commit: &str) -> (r: Result<(), String>)
    ensures
        current@ == commit@ ==> r is Ok,
        current@ != commit@ ==> (r matches Err(m) && m@ == "Git dependency at `"@ + destination@
            + "` is checked out at `"@ + current@ + "`, but `vex.lock` pins `"@ + commit@
            + "`\nhelp: run `vex fetch`"@),
{
    if str_eq(current, commit) {
        return Ok(());
    }
    let mut m = cat3("Git dependency at `", destination, "` is checked out at `");
    m.append(current);
    m.append("`, but `vex.lock` pins `");
    m.append(commit);
    m.append("`\nhelp: run `vex fetch`");
    Err(m)
}

/// The check that a checkout may be moved: `git status --porcelain` (trimmed)
/// printed nothing.
pub fn check_clean_checkout(destination: &str, porcelain: &str) -> (r: Result<(), String>)
    ensures
        porcelain@.len() == 0 ==> r is Ok,
        porcelain@.len() > 0 ==> (r matches Err(m) && m@ == "managed dependency checkout `"@
            + destination@
            + "` has local changes\nhelp: preserve or remove those changes before running Vex"@),
{
    if porcelain.is_empty() {
        return Ok(());
    }
    Err(
        cat3(
            "managed dependency checkout `",
            destination,
            "` has local changes\nhelp: preserve or remove those changes before running Vex",
        ),
    )
}

/// A name asked for once keeps its request: a later dependency of the same
/// name with another source or version requirement is refused, and every
/// step leaves the recorded request in place.
pub proof fn law_one_request_per_name(s: ResolverV, name: Seq<char>, first: RequestKeyV, other: Seq<char>, key: RequestKeyV)
    requires
        request_for(s.requests, name) == Some(first),
    ensures
        key != first ==> begin_step(s, name, key).0 is Err,
        request_for(begin_step(s, other, key).1, name) == Some(first),
    decreases s.requests.len(),
{
    lemma_request_for_push(s.requests, name, other, key);
}

proof fn lemma_request_for_push(rq: Seq<(Seq<char>, RequestKeyV)>, name: Seq<char>, other: Seq<char>, key: RequestKeyV)
    requires
        request_for(rq, name) is Some,
    ensures
        request_for(rq.push((other, key)), name) == request_for(rq, name),
    decreases rq.len(),
{
    if rq.len() > 0 && rq[0].0 != name {
        lemma_request_for_push(rq.drop_first(), name, other, key);
        assert(rq.push((other, key)).drop_first() == rq.drop_first().push((other, key)));
    }
}

/// The first request of a name is recorded when it is accepted.
pub proof fn law_first_request_recorded(s: ResolverV, name: Seq<char>, key: RequestKeyV)
    requires
        request_for(s.requests, name) is None,
        begin_step(s, name, key).0 is Ok,
    ensures
        request_for(begin_step(s, name, key).1, name) == Some(key),
    decreases s.requests.len(),
{
    lemma_request_for_new(s.requests, name, key);
}

proof fn lemma_request_for_new(rq: Seq<(Seq<char>, RequestKeyV)>, name: Seq<char>, key: RequestKeyV)
    requires
        request_for(rq, name) is None,
    ensures
        request_for(rq.push((name, key)), name) == Some(key),
    decreases rq.len(),
{
    if rq.len() > 0 {
        lemma_request_for_new(rq.drop_first(), name, key);
        assert(rq.push((name, key)).drop_first() == rq.drop_first().push((name, key)));
    }
}

proof fn lemma_visiting_index(visiting: Seq<Seq<char>>, name: Seq<char>)
    ensures
        visiting.contains(name) <==> visiting_index(visiting, name) is Some,
    decreases visiting.len(),
{
    if visiting.len() > 0 {
        lemma_visiting_index(visiting.drop_first(), name);
        if visiting.contains(name) && visiting[0] != name {
            let k = choose|k: int| 0 <= k < visiting.len() && visiting[k] == name;
            assert(visiting.drop_first()[k - 1] == name);
        }
        if visiting.drop_first().contains(name) {
            let k = choose|k: int| 0 <= k < visiting.drop_first().len() && visiting.drop_first()[k] == name;
            assert(visiting[k + 1] == name);
        }
        if visiting[0] == name {
            assert(visiting[0] == name);
        }
    }
}

/// A package asked for again while its own dependencies are still being
/// resolved closes a cycle and is refused; one asked for again, the same
/// way, after it was resolved is not resolved a second time.
pub proof fn law_cycles_refused_and_repeats_reused(s: ResolverV, name: Seq<char>, key: RequestKeyV)
    ensures
        s.visiting.contains(name) && first_named(s.packages, name) is None
            ==> begin_step(s, name, key).0 is Err,
        request_for(s.requests, name) == Some(key) && first_named(s.packages, name) is Some
            ==> begin_step(s, name, key).0 == Ok::<Begin, Seq<char>>(Begin::AlreadyResolved),
{
    lemma_visiting_index(s.visiting, name);
}

proof fn lemma_first_named(s: Seq<LockedPackageV>, name: Seq<char>)
    ensures
        match first_named(s, name) {
            Some(i) => 0 <= i < s.len() && s[i].name == name,
            None => forall|j: int| 0 <= j < s.len() ==> s[j].name != name,
        },
    decreases s.len(),
{
    if s.len() > 0 && s[0].name != name {
        lemma_first_named(s.drop_first(), name);
        if first_named(s, name) is None {
            assert forall|j: int| 0 <= j < s.len() implies s[j].name != name by {
                if j > 0 {
                    assert(s[j] == s.drop_first()[j - 1]);
                }
            }
        }
    }
}

/// Recording a resolved package never leaves two packages of one name.
pub proof fn law_record_keeps_names_distinct(ps: Seq<LockedPackageV>, p: LockedPackageV)
    requires
        crate::lockfile::distinct_names(ps),
    ensures
        crate::lockfile::distinct_names(record_package(ps, p)),
        record_package(ps, p).contains(p),
{
    lemma_first_named(ps, p.name);
    let r = record_package(ps, p);
    match first_named(ps, p.name) {
        Some(i) => {
            assert(r[i] == p);
        },
        None => {
            assert(r[ps.len() as int] == p);
        },
    }
}

/// `--locked` never writes the lockfile, nor does a dry run; a graph equal
/// to the lockfile is never written.
pub proof fn law_lock_writes(resolved: LockfileV, existing: LockfileV, locked: bool, dry_run: bool)
    ensures
        (locked || dry_run) ==> lock_outcome(resolved, existing, locked, dry_run) != Ok::<bool, Seq<char>>(true),
        resolved == existing ==> lock_outcome(resolved, existing, locked, dry_run) == Ok::<bool, Seq<char>>(false),
        !locked && !dry_run ==> lock_outcome(resolved, existing, locked, dry_run) is Ok,
{
}

/// A dry run only checks the checkout at the locked commit; offline work
/// only checks out a locked commit; nothing fetches a reference while a
/// commit is locked, or under `--locked`.
pub proof fn law_git_plan(dry_run: bool, locked: bool, offline: bool, name: Seq<char>, commit: Option<Seq<char>>, reference: Seq<char>)
    ensures
        dry_run ==> match git_plan(dry_run, locked, offline, name, commit, reference) {
            Ok(p) => p == GitPlanV::VerifyCheckout(commit->0),
            Err(_) => true,
        },
        !dry_run && offline ==> match git_plan(dry_run, locked, offline, name, commit, reference) {
            Ok(p) => p == GitPlanV::OfflineCheckout(commit->0),
            Err(_) => true,
        },
        commit is Some ==> git_plan(dry_run, locked, offline, name, commit, reference) is Ok,
        (commit is Some || locked) ==> !(git_plan(dry_run, locked, offline, name, commit, reference) matches Ok(GitPlanV::FetchReference(_))),
{
}

/// The commit that the lockfile holds for the package named `name`.
pub open spec fn commit_locked_for(existing: LockfileV, name: Seq<char>) -> Seq<char> {
    existing.packages[first_named(existing.packages, name)->0].source->Git_commit
}

/// A second resolution against an unchanged lockfile, under a policy that
/// does not refresh the package, takes exactly the locked commit of each
/// Git dependency whose request is unchanged: a dry run only verifies the
/// checkout at it, an offline run checks it out locally, an online run
/// checks it out (fetching only to obtain that commit), and nothing
/// resolves a moved branch or tag; `--locked` accepts it. A graph that then
/// equals the lockfile leaves the lockfile unwritten.
pub proof fn law_rerun_keeps_locked_commits(
    existing: LockfileV,
    d: DependencyV,
    update: UpdatePolicyV,
    dry_run: bool,
    locked: bool,
    offline: bool,
    reference: Seq<char>,
)
    requires
        !updates_package(update, d.name),
        first_named(existing.packages, d.name) is Some,
        same_git_request(existing.packages[first_named(existing.packages, d.name)->0].source, d.source),
    ensures
        locked_commit_of(existing, d, update) == Some(commit_locked_for(existing, d.name)),
        git_plan(dry_run, locked, offline, d.name, locked_commit_of(existing, d, update), reference)
            == Ok::<GitPlanV, Seq<char>>(
            if dry_run {
                GitPlanV::VerifyCheckout(commit_locked_for(existing, d.name))
            } else if offline {
                GitPlanV::OfflineCheckout(commit_locked_for(existing, d.name))
            } else {
                GitPlanV::CheckoutLocked(commit_locked_for(existing, d.name))
            },
        ),
        lock_outcome(existing, existing, locked, dry_run) == Ok::<bool, Seq<char>>(false),
{
}

/// One call on a resolver, as the walk over the dependency graph makes it.
pub ghost enum Step {
    Begin(Seq<char>, RequestKeyV),
    Enter(Seq<char>),
    Leave,
    Finish(LockedPackageV),
}

/// What one call does to the resolver's state (`Resolver::begin`, `enter`,
/// `leave` and `finish` each ensure exactly this of their view).
pub open spec fn apply_step(s: ResolverV, e: Step) -> ResolverV {
    match e {
        Step::Begin(name, key) => ResolverV { requests: begin_step(s, name, key).1, ..s },
        Step::Enter(name) => ResolverV { visiting: s.visiting.push(name), ..s },
        Step::Leave => ResolverV {
            visiting: if s.visiting.len() > 0 {
                s.visiting.drop_last()
            } else {
                s.visiting
            },
            ..s
        },
        Step::Finish(p) => ResolverV { packages: record_package(s.packages, p), ..s },
    }
}

/// The state after a sequence of calls.
pub open spec fn run_steps(s: ResolverV, steps: Seq<Step>) -> ResolverV
    decreases steps.len(),
{
    if steps.len() == 0 {
        s
    } else {
        apply_step(run_steps(s, steps.drop_last()), steps.last())
    }
}

/// The state of a new resolver (`Resolver::new`).
pub open spec fn fresh_resolver() -> ResolverV {
    ResolverV { requests: Seq::empty(), packages: Seq::empty(), visiting: Seq::empty() }
}

/// The lockfile a resolution in state `s` gives (`Resolver::into_lockfile`).
pub open spec fn lockfile_of(s: ResolverV) -> LockfileV {
    crate::lockfile::normalize(LockfileV { version: 2, packages: s.packages })
}

proof fn lemma_run_distinct(steps: Seq<Step>)
    ensures
        crate::lockfile::distinct_names(run_steps(fresh_resolver(), steps).packages),
    decreases steps.len(),
{
    if steps.len() > 0 {
        lemma_run_distinct(steps.drop_last());
        let s = run_steps(fresh_resolver(), steps.drop_last());
        match steps.last() {
            Step::Finish(p) => law_record_keeps_names_distinct(s.packages, p),
            _ => {},
        }
    }
}

/// The same manifest and lockfile select the same graph. Take any run of
/// calls from a new resolver, and the lockfile it writes. A second run of
/// the same calls against that lockfile, read back in normal form, leaves
/// it unwritten (`lock_outcome` is `Ok(false)`, under `--locked` and in a
/// dry run too). What the library decides of the second run's calls is the
/// same as in the first: every Git package the first run recorded is, under
/// a policy that does not refresh it, planned at the commit the first run
/// recorded (a dry run verifies the checkout at it, an offline run checks it
/// out locally, an online run checks it out), and no branch or tag is
/// resolved again. The manifests the walk reads are on disk, outside it.
pub proof fn law_rerun_reproduces_graph(
    steps: Seq<Step>,
    p: LockedPackageV,
    d: DependencyV,
    update: UpdatePolicyV,
    dry_run: bool,
    locked: bool,
    offline: bool,
    reference: Seq<char>,
)
    requires
        run_steps(fresh_resolver(), steps).packages.contains(p),
        p.name == d.name,
        same_git_request(p.source, d.source),
        !updates_package(update, d.name),
    ensures
        lock_outcome(
            lockfile_of(run_steps(fresh_resolver(), steps)),
            crate::lockfile::normalize(lockfile_of(run_steps(fresh_resolver(), steps))),
            locked,
            dry_run,
        ) == Ok::<bool, Seq<char>>(false),
        locked_commit_of(lockfile_of(run_steps(fresh_resolver(), steps)), d, update)
            == Some(p.source->Git_commit),
        git_plan(
            dry_run,
            locked,
            offline,
            d.name,
            locked_commit_of(lockfile_of(run_steps(fresh_resolver(), steps)), d, update),
            reference,
        ) == Ok::<GitPlanV, Seq<char>>(
            if dry_run {
                GitPlanV::VerifyCheckout(p.source->Git_commit)
            } else if offline {
                GitPlanV::OfflineCheckout(p.source->Git_commit)
            } else {
                GitPlanV::CheckoutLocked(p.source->Git_commit)
            },
        ),
{
    let first = run_steps(fresh_resolver(), steps);
    let l = lockfile_of(first);
    crate::lockfile::law_normalize_idempotent(LockfileV { version: 2, packages: first.packages });
    lemma_run_distinct(steps);
    let ns = first.packages.map_values(|q: LockedPackageV| crate::lockfile::normalize_package(q));
    let np = crate::lockfile::normalize_package(p);
    let j = choose|j: int| 0 <= j < first.packages.len() && first.packages[j] == p;
    assert(ns[j] == np);
    assert(ns.contains(np));
    assert(crate::lockfile::distinct_names(ns)) by {
        assert forall|a: int, b: int| 0 <= a < b < ns.len() implies ns[a].name != ns[b].name by {
            assert(ns[a].name == first.packages[a].name);
            assert(ns[b].name == first.packages[b].name);
        }
    }
    crate::lockfile::lemma_sort_by_name_keeps(ns, np);
    crate::lockfile::lemma_sort_by_name_distinct(ns);
    let sorted = l.packages;
    assert(sorted == crate::lockfile::sort_by_name(ns));
    lemma_first_named(sorted, d.name);
    let k = choose|k: int| 0 <= k < sorted.len() && sorted[k] == np;
    assert(sorted[k].name == d.name);
    let i = first_named(sorted, d.name)->0;
    assert(sorted[i].name == d.name);
    assert(i == k);
    assert(sorted[i].source == p.source);
}

/// A locked commit is reused only for the very request it was locked for:
/// when one is given, the lockfile holds a package of the dependency's name
/// whose Git source has the dependency's URL, branch, tag and rev, and the
/// commit given is that package's. So a changed branch, tag or rev (or URL)
/// is resolved afresh.
pub proof fn law_locked_commit_needs_same_request(existing: LockfileV, d: DependencyV, update: UpdatePolicyV)
    ensures
        locked_commit_of(existing, d, update) is Some ==> exists|i: int|
            #![trigger existing.packages[i]]
            0 <= i < existing.packages.len() && existing.packages[i].name == d.name
                && existing.packages[i].source is Git && d.source is Git
                && existing.packages[i].source->Git_url == d.source->Git_url
                && existing.packages[i].source->Git_branch == d.source->Git_branch
                && existing.packages[i].source->Git_tag == d.source->Git_tag
                && existing.packages[i].source->Git_rev == d.source->Git_rev
                && existing.packages[i].source->Git_commit == locked_commit_of(existing, d, update)->0,
{
    lemma_first_named(existing.packages, d.name);
    if locked_commit_of(existing, d, update) is Some {
        let i = first_named(existing.packages, d.name)->0;
        assert(existing.packages[i].name == d.name);
    }
}

/// An update of selected packages keeps the locked commit of every other
/// package, as reusing the lockfile would.
pub proof fn law_selected_update_keeps_others(existing: LockfileV, d: DependencyV, names: Seq<Seq<char>>)
    requires
        !names.contains(d.name),
    ensures
        locked_commit_of(existing, d, UpdatePolicyV::UpdateSelected(names)) == locked_commit_of(existing, d, UpdatePolicyV::ReuseLocked),
{
}

} // verus!
