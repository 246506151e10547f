//! Where a package lies relative to the project, as path components, so
//! that a project and the packages beside it can move together.
use vstd::prelude::*;

use crate::text::{str_eq, views};

verus! {

broadcast use vstd::string::group_string_axioms;

/// The number of leading components that two paths share.
pub open spec fn common_len(a: Seq<Seq<char>>, b: Seq<Seq<char>>) -> nat
    decreases a.len(),
{
    if a.len() == 0 || b.len() == 0 || a[0] != b[0] {
        0
    } else {
        1 + common_len(a.drop_first(), b.drop_first())
    }
}

/// `n` parent-directory components.
pub open spec fn parents(n: nat) -> Seq<Seq<char>> {
    Seq::new(n, |i: int| ".."@)
}

/// The components that lead from `root` to `target`: up out of what `root`
/// does not share with `target`, then down into the rest of `target`. None
/// when the two paths share no leading component (no common root).
pub open spec fn relative_path(root: Seq<Seq<char>>, target: Seq<Seq<char>>) -> Option<Seq<Seq<char>>> {
    let k = common_len(root, target);
    if k == 0 {
        None
    } else {
        Some(parents((root.len() - k) as nat) + target.skip(k as int))
    }
}

/// Following components from `base`: `..` goes up one level, any other
/// component goes down into it.
pub open spec fn follow(base: Seq<Seq<char>>, steps: Seq<Seq<char>>) -> Seq<Seq<char>>
    decreases steps.len(),
{
    if steps.len() == 0 {
        base
    } else if steps[0] == ".."@ {
        follow(base.drop_last(), steps.drop_first())
    } else {
        follow(base.push(steps[0]), steps.drop_first())
    }
}

/// No component is `..`.
pub open spec fn without_parents(p: Seq<Seq<char>>) -> bool {
    forall|i: int| 0 <= i < p.len() ==> p[i] != ".."@
}

proof fn lemma_common_len(a: Seq<Seq<char>>, b: Seq<Seq<char>>)
    ensures
        common_len(a, b) <= a.len(),
        common_len(a, b) <= b.len(),
        forall|i: int| 0 <= i < common_len(a, b) ==> a[i] == b[i],
        common_len(a, b) < a.len() && common_len(a, b) < b.len() ==> a[common_len(a, b) as int] != b[common_len(a, b) as int],
    decreases a.len(),
{
    if !(a.len() == 0 || b.len() == 0 || a[0] != b[0]) {
        lemma_common_len(a.drop_first(), b.drop_first());
        assert forall|i: int| 0 <= i < common_len(a, b) implies a[i] == b[i] by {
            if i > 0 {
                assert(a.drop_first()[i - 1] == b.drop_first()[i - 1]);
            }
        }
    }
}

proof fn lemma_common_len_prefix(p: Seq<Seq<char>>, r: Seq<Seq<char>>, t: Seq<Seq<char>>)
    ensures
        common_len(p + r, p + t) == p.len() + common_len(r, t),
    decreases p.len(),
{
    if p.len() > 0 {
        assert((p + r).drop_first() == p.drop_first() + r);
        assert((p + t).drop_first() == p.drop_first() + t);
        lemma_common_len_prefix(p.drop_first(), r, t);
    } else {
        assert(p + r == r);
        assert(p + t == t);
    }
}

proof fn lemma_follow_parents(base: Seq<Seq<char>>, n: nat, rest: Seq<Seq<char>>)
    requires
        n <= base.len(),
    ensures
        follow(base, parents(n) + rest) == follow(base.take(base.len() - n), rest),
    decreases n,
{
    if n == 0 {
        assert(parents(0) + rest == rest);
        assert(base.take(base.len() as int) == base);
    } else {
        let steps = parents(n) + rest;
        assert(steps[0] == ".."@);
        assert(steps.drop_first() == parents((n - 1) as nat) + rest);
        lemma_follow_parents(base.drop_last(), (n - 1) as nat, rest);
        assert(base.drop_last().take(base.drop_last().len() - (n - 1)) == base.take(base.len() - n));
    }
}

proof fn lemma_follow_down(base: Seq<Seq<char>>, rest: Seq<Seq<char>>)
    requires
        without_parents(rest),
    ensures
        follow(base, rest) == base + rest,
    decreases rest.len(),
{
    if rest.len() == 0 {
        assert(base + rest == base);
    } else {
        assert(rest[0] != ".."@);
        assert forall|i: int| 0 <= i < rest.drop_first().len() implies rest.drop_first()[i] != ".."@ by {
            assert(rest.drop_first()[i] == rest[i + 1]);
        }
        lemma_follow_down(base.push(rest[0]), rest.drop_first());
        assert(base.push(rest[0]) + rest.drop_first() == base + rest);
    }
}

/// Following the relative path from the root leads to the target, for paths
/// without `..` components (as canonical paths are).
pub proof fn law_relative_path_leads_to_target(root: Seq<Seq<char>>, target: Seq<Seq<char>>)
    requires
        without_parents(target),
        relative_path(root, target) is Some,
    ensures
        follow(root, relative_path(root, target)->0) == target,
{
    let k = common_len(root, target);
    lemma_common_len(root, target);
    lemma_follow_parents(root, (root.len() - k) as nat, target.skip(k as int));
    assert(root.take(root.len() - (root.len() - k)) == root.take(k as int));
    assert forall|i: int| 0 <= i < target.skip(k as int).len() implies target.skip(k as int)[i] != ".."@ by {
        assert(target.skip(k as int)[i] == target[i + k]);
    }
    lemma_follow_down(root.take(k as int), target.skip(k as int));
    assert(root.take(k as int) =~= target.take(k as int));
    assert(target.take(k as int) + target.skip(k as int) =~= target);
}

/// Moving the project and its package together under another directory
/// leaves the relative path unchanged.
pub proof fn law_relative_path_moves_with_tree(p: Seq<Seq<char>>, q: Seq<Seq<char>>, root: Seq<Seq<char>>, target: Seq<Seq<char>>)
    requires
        p.len() > 0,
        q.len() > 0,
    ensures
        relative_path(p + root, p + target) == relative_path(q + root, q + target),
{
    lemma_common_len_prefix(p, root, target);
    lemma_common_len_prefix(q, root, target);
    let c = common_len(root, target);
    lemma_common_len(root, target);
    assert((p + target).skip((p.len() + c) as int) =~= target.skip(c as int));
    assert((q + target).skip((q.len() + c) as int) =~= target.skip(c as int));
}

/// The components that lead from the project root to a package, or `None`
/// when they share no root (another drive).
pub fn relative_components(root: &[String], target: &[String]) -> (r: Option<Vec<String>>)
    ensures
        match relative_path(views(root@), views(target@)) {
            Some(rel) => r matches Some(v) && views(v@) == rel,
            None => r is None,
        },
{
    let ghost a = views(root@);
    let ghost b = views(target@);
    proof {
        lemma_common_len(a, b);
    }
    let mut k: usize = 0;
    while k < root.len() && k < target.len() && str_eq(root[k].as_str(), target[k].as_str())
        invariant
            a == views(root@),
            b == views(target@),
            0 <= k <= common_len(a, b),
            common_len(a, b) <= a.len(),
            common_len(a, b) <= b.len(),
            common_len(a, b) < a.len() && common_len(a, b) < b.len() ==> a[common_len(a, b) as int] != b[common_len(a, b) as int],
        decreases root.len() - k,
    {
        assert(a[k as int] == root@[k as int]@);
        assert(b[k as int] == target@[k as int]@);
        k += 1;
    }
    assert(k == common_len(a, b)) by {
        if k < common_len(a, b) {
            assert(a[k as int] == root@[k as int]@);
            assert(b[k as int] == target@[k as int]@);
        }
    }
    if k == 0 {
        return None;
    }
    let mut out: Vec<String> = Vec::new();
    let mut i: usize = k;
    while i < root.len()
        invariant
            k <= i <= root@.len(),
            views(out@) == parents((i - k) as nat),
        decreases root.len() - i,
    {
        let ghost before = out@;
        let up_one = "..".to_string();
        assert(up_one@ == ".."@);
        out.push(up_one);
        assert(views(out@) =~= views(before).push(".."@));
        assert(views(out@) =~= parents((i + 1 - k) as nat));
        i += 1;
    }
    let ghost up = views(out@);
    let mut j: usize = k;
    while j < target.len()
        invariant
            b == views(target@),
            k <= j <= b.len(),
            views(out@) == up + b.subrange(k as int, j as int),
        decreases target.len() - j,
    {
        let ghost before = out@;
        out.push(target[j].clone());
        assert(views(out@) =~= views(before).push(b[j as int]));
        assert(b.subrange(k as int, j + 1) =~= b.subrange(k as int, j as int).push(b[j as int]));
        j += 1;
    }
    assert(b.subrange(k as int, b.len() as int) =~= b.skip(k as int));
    Some(out)
}

/// Whether `target` lies inside `root`: reached from it without going up.
pub open spec fn inside(root: Seq<Seq<char>>, target: Seq<Seq<char>>) -> bool {
    match relative_path(root, target) {
        Some(rel) => without_parents(rel),
        None => false,
    }
}

/// Whether a path (canonical, so with links followed) lies inside the
/// project root; the managed `.vex/deps` area must, so that no link can
/// redirect it elsewhere.
pub fn inside_project(root: &[String], target: &[String]) -> (r: bool)
    ensures
        r == inside(views(root@), views(target@)),
{
    match relative_components(root, target) {
        None => false,
        Some(rel) => {
            let mut i: usize = 0;
            while i < rel.len()
                invariant
                    relative_path(views(root@), views(target@)) == Some(views(rel@)),
                    0 <= i <= rel@.len(),
                    forall|j: int| 0 <= j < i ==> views(rel@)[j] != ".."@,
                decreases rel.len() - i,
            {
                assert(views(rel@)[i as int] == rel@[i as int]@);
                if str_eq(rel[i].as_str(), "..") {
                    assert(views(rel@)[i as int] == ".."@);
                    assert(!without_parents(views(rel@)));
                    return false;
                }
                i += 1;
            }
            true
        },
    }
}

/// The check that the managed dependency directory `dir`, which resolves to
/// the canonical `target` (shown as `shown`), lies inside the project.
pub fn check_inside_project(root: &[String], target: &[String], dir: &str, shown: &str) -> (r: Result<(), String>)
    ensures
        inside(views(root@), views(target@)) ==> r is Ok,
        !inside(views(root@), views(target@)) ==> (r matches Err(m) && m@ == "managed dependency directory `"@
            + dir@ + "` resolves outside the project to `"@ + shown@ + "`"@),
{
    if inside_project(root, target) {
        return Ok(());
    }
    let mut m = crate::text::cat3("managed dependency directory `", dir, "` resolves outside the project to `");
    m.append(shown);
    m.append("`");
    Err(m)
}

/// A package inside the project is reached by a path that never goes up,
/// and following it from the root leads to the package.
pub proof fn law_inside_project_stays_inside(root: Seq<Seq<char>>, target: Seq<Seq<char>>)
    requires
        inside(root, target),
        without_parents(target),
    ensures
        follow(root, relative_path(root, target)->0) == target,
        root.len() <= target.len(),
{
    law_relative_path_leads_to_target(root, target);
    let k = common_len(root, target);
    lemma_common_len(root, target);
    let rel = relative_path(root, target)->0;
    if root.len() > k {
        assert(rel[0] == ".."@);
    }
}

} // verus!
