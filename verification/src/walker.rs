//! The repository walker: filtering a recursive directory listing down to
//! `.git` markers, building one deduplicated record per repository root, and
//! merging the results of independent traversal tasks.
//!
//! The walker is pure: it works on listings of paths handed in by the
//! caller, so every decision it makes is verified for any filesystem state.

use vstd::prelude::*;

verus! {

use vstd::string::StrSliceExecFns;
use crate::git_dir::{
    is_git_marker_path,
    license_lookup,
    readme_lookup,
    root_of,
    GitDir,
};
use crate::text::{
    contains_char,
    contains_str,
    ends_with_str,
    has_substring,
    last_segment,
    str_contains_char,
    str_eq,
};

/// The denylist: a repository root is skipped when its path contains a
/// variable-expansion marker, a package-manager cache, a profile directory
/// or a hidden path component.
pub open spec fn is_excluded_root(r: Seq<char>) -> bool {
    ||| contains_char(r, '$')
    ||| has_substring(r, ".cargo"@)
    ||| has_substring(r, "AppData"@)
    ||| has_substring(r, "/."@)
}

/// `p` is a marker path that the walker reports: a terminal `.git`
/// component under a root that the denylist does not exclude.
pub open spec fn candidate(p: Seq<char>) -> bool {
    is_git_marker_path(p) && !is_excluded_root(root_of(p))
}

/// The repository roots discovered in `paths`, in first-encounter order,
/// each root reported once.
pub open spec fn roots_of(paths: Seq<Seq<char>>) -> Seq<Seq<char>>
    decreases paths.len(),
{
    if paths.len() == 0 {
        Seq::<Seq<char>>::empty()
    } else {
        let rest = roots_of(paths.drop_last());
        if candidate(paths.last()) && !rest.contains(root_of(paths.last())) {
            rest.push(root_of(paths.last()))
        } else {
            rest
        }
    }
}

/// Decides whether `path` is a `.git` marker that the walker reports.
pub fn is_candidate_path(path: &str) -> (b: bool)
    ensures
        b == candidate(path@),
{
    proof {
        reveal_strlit("/.git");
    }
    if !ends_with_str(path, "/.git") {
        return false;
    }
    let n: usize = path.unicode_len();
    let root: &str = path.substring_char(0, n - 5);
    if contains_str(root, ".git") {
        return false;
    }
    if str_contains_char(root, '$') {
        return false;
    }
    if contains_str(root, ".cargo") {
        return false;
    }
    if contains_str(root, "AppData") {
        return false;
    }
    if contains_str(root, "/.") {
        return false;
    }
    true
}

/// Decides whether the walker may descend into the directory at `path`:
/// it may not when the denylist excludes the path.
pub fn should_descend(path: &str) -> (b: bool)
    ensures
        b == !is_excluded_root(path@),
{
    if str_contains_char(path, '$') {
        return false;
    }
    if contains_str(path, ".cargo") {
        return false;
    }
    if contains_str(path, "AppData") {
        return false;
    }
    if contains_str(path, "/.") {
        return false;
    }
    true
}

/// True when some record in `recs` already has the repository path `root`.
fn contains_record_path(recs: &Vec<GitDir>, root: &str) -> (b: bool)
    ensures
        b == exists|k: int| 0 <= k < recs@.len() && recs@[k].path@ == root@,
{
    let n: usize = recs.len();
    let mut i: usize = 0;
    while i < n
        invariant
            n == recs@.len(),
            i <= n,
            forall|k: int| 0 <= k < i ==> recs@[k].path@ != root@,
        decreases n - i,
    {
        if str_eq(recs[i].path.as_str(), root) {
            return true;
        }
        i = i + 1;
    }
    false
}

/// Walks the listing of `paths` and returns one record per discovered
/// repository root, in first-encounter order, with README and LICENSE
/// variants probed against the same listing.
pub fn collect_git_dirs(paths: &Vec<String>) -> (recs: Vec<GitDir>)
    ensures
        recs@.len() == roots_of(paths.deep_view()).len(),
        forall|i: int|
            #![auto]
            0 <= i < recs@.len() ==> {
                &&& recs@[i].path@ == roots_of(paths.deep_view())[i]
                &&& recs@[i].project_title@ == last_segment(roots_of(paths.deep_view())[i])
                &&& recs@[i].readme_path.deep_view() == readme_lookup(
                    roots_of(paths.deep_view())[i],
                    paths.deep_view(),
                )
                &&& recs@[i].license_path.deep_view() == license_lookup(
                    roots_of(paths.deep_view())[i],
                    paths.deep_view(),
                )
                &&& recs@[i].license is None
            },
{
    let ghost pv = paths.deep_view();
    let n: usize = paths.len();
    let mut recs: Vec<GitDir> = Vec::new();
    let mut i: usize = 0;
    proof {
        assert(pv.take(0) =~= Seq::<Seq<char>>::empty());
    }
    while i < n
        invariant
            pv == paths.deep_view(),
            n == paths@.len(),
            pv.len() == n,
            i <= n,
            recs@.len() == roots_of(pv.take(i as int)).len(),
            forall|k: int|
                #![auto]
                0 <= k < recs@.len() ==> {
                    &&& recs@[k].path@ == roots_of(pv.take(i as int))[k]
                    &&& recs@[k].project_title@ == last_segment(roots_of(pv.take(i as int))[k])
                    &&& recs@[k].readme_path.deep_view() == readme_lookup(
                        roots_of(pv.take(i as int))[k],
                        pv,
                    )
                    &&& recs@[k].license_path.deep_view() == license_lookup(
                        roots_of(pv.take(i as int))[k],
                        pv,
                    )
                    &&& recs@[k].license is None
                },
        decreases n - i,
    {
        proof {
            assert(pv.take(i + 1).drop_last() =~= pv.take(i as int));
            assert(pv.take(i + 1).last() == pv[i as int]);
            assert(pv[i as int] == paths@[i as int]@);
        }
        let p: String = paths[i].clone();
        if is_candidate_path(p.as_str()) {
            let plen: usize = p.as_str().unicode_len();
            let root: &str = p.as_str().substring_char(0, plen - 5);
            let ghost old_roots = roots_of(pv.take(i as int));
            let dup: bool = contains_record_path(&recs, root);
            proof {
                assert(root@ == root_of(pv[i as int]));
                assert(dup == old_roots.contains(root_of(pv[i as int]))) by {
                    if dup {
                        let k = choose|k: int|
                            0 <= k < recs@.len() && recs@[k].path@ == root@;
                        assert(old_roots[k] == root@);
                    }
                    if old_roots.contains(root_of(pv[i as int])) {
                        let k = choose|k: int|
                            0 <= k < old_roots.len() && old_roots[k] == root_of(pv[i as int]);
                        assert(recs@[k].path@ == root@);
                    }
                }
            }
            if !dup {
                let rec: GitDir = crate::git_dir::GitDir::init(p, paths);
                recs.push(rec);
            }
        }
        i = i + 1;
    }
    proof {
        assert(pv.take(n as int) =~= pv);
    }
    recs
}

/// The concatenation of per-task result lists, in task order.
pub open spec fn flatten_lists(ls: Seq<Seq<GitDir>>) -> Seq<GitDir>
    decreases ls.len(),
{
    if ls.len() == 0 {
        Seq::<GitDir>::empty()
    } else {
        ls[0] + flatten_lists(ls.skip(1))
    }
}

/// The views of a vector of result vectors.
pub open spec fn views_of(ls: Seq<Vec<GitDir>>) -> Seq<Seq<GitDir>> {
    ls.map_values(|l: Vec<GitDir>| l@)
}

/// Some record in `s` has the repository path `p`.
pub open spec fn has_path(s: Seq<GitDir>, p: Seq<char>) -> bool {
    exists|k: int| 0 <= k < s.len() && s[k].path@ == p
}

/// Keeps, scanning left to right, the first record seen for each
/// repository path, appending to the already-kept records `acc`.
pub open spec fn dedup_from(s: Seq<GitDir>, acc: Seq<GitDir>) -> Seq<GitDir>
    decreases s.len(),
{
    if s.len() == 0 {
        acc
    } else if has_path(acc, s[0].path@) {
        dedup_from(s.skip(1), acc)
    } else {
        dedup_from(s.skip(1), acc.push(s[0]))
    }
}

/// The first record for each repository path, in encounter order.
pub open spec fn dedup_by_path(s: Seq<GitDir>) -> Seq<GitDir> {
    dedup_from(s, Seq::<GitDir>::empty())
}

/// Merges the result lists of independent traversal tasks into one list,
/// keeping the first record seen for each repository path.
pub fn merge_records(lists: Vec<Vec<GitDir>>) -> (merged: Vec<GitDir>)
    ensures
        merged@ == dedup_by_path(flatten_lists(views_of(lists@))),
{
    let ghost full = flatten_lists(views_of(lists@));
    let mut remaining: Vec<Vec<GitDir>> = lists;
    let mut merged: Vec<GitDir> = Vec::new();
    while remaining.len() > 0
        invariant
            dedup_from(full, Seq::<GitDir>::empty()) == dedup_from(
                flatten_lists(views_of(remaining@)),
                merged@,
            ),
        decreases remaining@.len(),
    {
        let ghost rem0 = remaining@;
        let mut cur: Vec<GitDir> = remaining.remove(0);
        proof {
            assert(remaining@ =~= rem0.skip(1));
            assert(views_of(rem0)[0] == cur@);
            assert(views_of(rem0).skip(1) =~= views_of(rem0.skip(1)));
            assert(flatten_lists(views_of(rem0)) == cur@ + flatten_lists(
                views_of(remaining@),
            ));
        }
        while cur.len() > 0
            invariant
                dedup_from(full, Seq::<GitDir>::empty()) == dedup_from(
                    cur@ + flatten_lists(views_of(remaining@)),
                    merged@,
                ),
            decreases cur@.len(),
        {
            let ghost cur0 = cur@;
            let ghost pre = cur0 + flatten_lists(views_of(remaining@));
            let r: GitDir = cur.remove(0);
            proof {
                assert(cur@ =~= cur0.skip(1));
                assert(pre[0] == r);
                assert(pre.len() > 0);
                assert(pre.skip(1) =~= cur@ + flatten_lists(views_of(remaining@)));
            }
            let dup: bool = contains_record_path(&merged, r.path.as_str());
            if !dup {
                merged.push(r);
            }
        }
        proof {
            assert(cur@ + flatten_lists(views_of(remaining@)) =~= flatten_lists(
                views_of(remaining@),
            ));
        }
    }
    proof {
        assert(views_of(remaining@).len() == 0);
        assert(flatten_lists(views_of(remaining@)) =~= Seq::<GitDir>::empty());
    }
    merged
}

/// A listing with no reportable `.git` marker yields no repository.
pub proof fn lemma_walk_no_markers(paths: Seq<Seq<char>>)
    requires
        forall|k: int| 0 <= k < paths.len() ==> !candidate(paths[k]),
    ensures
        roots_of(paths) == Seq::<Seq<char>>::empty(),
    decreases paths.len(),
{
    if paths.len() > 0 {
        assert(!candidate(paths[paths.len() - 1]));
        assert(forall|k: int|
            0 <= k < paths.drop_last().len() ==> paths.drop_last()[k] == paths[k]);
        lemma_walk_no_markers(paths.drop_last());
    }
}

/// A listing whose only reportable marker is `p` yields exactly one
/// repository: the root of `p`.
pub proof fn lemma_walk_single_marker(paths: Seq<Seq<char>>, p: Seq<char>)
    requires
        paths.contains(p),
        candidate(p),
        forall|q: Seq<char>| paths.contains(q) && candidate(q) ==> q == p,
    ensures
        roots_of(paths) == seq![root_of(p)],
    decreases paths.len(),
{
    assert(paths.len() > 0);
    let rest = paths.drop_last();
    assert(forall|k: int| 0 <= k < rest.len() ==> rest[k] == paths[k]);
    assert forall|q: Seq<char>| rest.contains(q) implies paths.contains(q) by {
        let k = choose|k: int| 0 <= k < rest.len() && rest[k] == q;
        assert(paths[k] == q);
    }
    if candidate(paths.last()) {
        assert(paths[paths.len() - 1] == paths.last());
        assert(paths.contains(paths.last()));
        assert(paths.last() == p);
        if rest.contains(p) {
            lemma_walk_single_marker(rest, p);
            assert(roots_of(rest)[0] == root_of(p));
            assert(roots_of(rest).contains(root_of(p)));
            assert(roots_of(paths) == roots_of(rest));
        } else {
            assert forall|k: int| 0 <= k < rest.len() implies !candidate(rest[k]) by {
                if candidate(rest[k]) {
                    assert(paths.contains(rest[k]));
                    assert(rest[k] == p);
                    assert(rest.contains(p));
                }
            }
            lemma_walk_no_markers(rest);
            assert(roots_of(paths) =~= seq![root_of(p)]);
        }
    } else {
        assert(paths.last() != p);
        let i = choose|i: int| 0 <= i < paths.len() && paths[i] == p;
        assert(i < paths.len() - 1);
        assert(rest[i] == p);
        assert(rest.contains(p));
        lemma_walk_single_marker(rest, p);
    }
}

/// Every reported root passes the denylist and is the root of some
/// reportable marker in the listing: an excluded directory never appears.
pub proof fn lemma_walk_denylist(paths: Seq<Seq<char>>)
    ensures
        forall|k: int|
            #![auto]
            0 <= k < roots_of(paths).len() ==> !is_excluded_root(roots_of(paths)[k]),
        forall|k: int|
            #![trigger roots_of(paths)[k]]
            0 <= k < roots_of(paths).len() ==> exists|i: int|
                0 <= i < paths.len() && #[trigger] candidate(paths[i]) && roots_of(paths)[k]
                    == root_of(paths[i]),
    decreases paths.len(),
{
    if paths.len() > 0 {
        let rest = paths.drop_last();
        lemma_walk_denylist(rest);
        assert forall|k: int| 0 <= k < roots_of(paths).len() implies !is_excluded_root(
            roots_of(paths)[k],
        ) && exists|i: int|
            0 <= i < paths.len() && #[trigger] candidate(paths[i]) && roots_of(paths)[k]
                == root_of(paths[i]) by {
            if k < roots_of(rest).len() {
                assert(roots_of(paths)[k] == roots_of(rest)[k]);
                let i = choose|i: int|
                    0 <= i < rest.len() && candidate(rest[i]) && roots_of(rest)[k] == root_of(
                        rest[i],
                    );
                assert(paths[i] == rest[i]);
                assert(0 <= i < paths.len() && candidate(paths[i]) && roots_of(paths)[k]
                    == root_of(paths[i]));
            } else {
                assert(candidate(paths.last()));
                assert(roots_of(paths)[k] == root_of(paths.last()));
                assert(paths[paths.len() - 1] == paths.last());
                assert(0 <= paths.len() - 1 < paths.len() && candidate(paths[paths.len() - 1])
                    && roots_of(paths)[k] == root_of(paths[paths.len() - 1]));
            }
        }
    }
}

/// No repository root is reported twice by a single walk.
pub proof fn lemma_roots_unique(paths: Seq<Seq<char>>)
    ensures
        forall|i: int, j: int|
            0 <= i < j < roots_of(paths).len() ==> roots_of(paths)[i] != roots_of(paths)[j],
    decreases paths.len(),
{
    if paths.len() > 0 {
        let rest = paths.drop_last();
        lemma_roots_unique(rest);
        if candidate(paths.last()) && !roots_of(rest).contains(root_of(paths.last())) {
            assert forall|i: int, j: int|
                0 <= i < j < roots_of(paths).len() implies roots_of(paths)[i] != roots_of(
                paths,
            )[j] by {
                if j == roots_of(paths).len() - 1 {
                    assert(roots_of(paths)[i] == roots_of(rest)[i]);
                    if roots_of(rest)[i] == root_of(paths.last()) {
                        assert(roots_of(rest).contains(root_of(paths.last())));
                    }
                }
            }
        }
    }
}

/// Unfolds path membership at the head of a non-empty record sequence.
proof fn lemma_has_path_unfold(s: Seq<GitDir>, p: Seq<char>)
    requires
        s.len() > 0,
    ensures
        has_path(s, p) <==> (s[0].path@ == p || has_path(s.skip(1), p)),
{
    if has_path(s, p) {
        let k = choose|k: int| 0 <= k < s.len() && s[k].path@ == p;
        if k > 0 {
            assert(s.skip(1)[k - 1].path@ == p);
        }
    }
    if has_path(s.skip(1), p) {
        let k = choose|k: int| 0 <= k < s.skip(1).len() && s.skip(1)[k].path@ == p;
        assert(s[k + 1].path@ == p);
    }
    if s[0].path@ == p {
        assert(has_path(s, p));
    }
}

/// Path membership distributes over concatenation of record sequences.
proof fn lemma_has_path_concat(a: Seq<GitDir>, b: Seq<GitDir>, p: Seq<char>)
    ensures
        has_path(a + b, p) <==> (has_path(a, p) || has_path(b, p)),
{
    if has_path(a + b, p) {
        let k = choose|k: int| 0 <= k < (a + b).len() && (a + b)[k].path@ == p;
        if k < a.len() {
            assert(a[k].path@ == p);
        } else {
            assert(b[k - a.len()].path@ == p);
        }
    }
    if has_path(a, p) {
        let k = choose|k: int| 0 <= k < a.len() && a[k].path@ == p;
        assert((a + b)[k].path@ == p);
    }
    if has_path(b, p) {
        let k = choose|k: int| 0 <= k < b.len() && b[k].path@ == p;
        assert((a + b)[k + a.len()].path@ == p);
    }
}

/// Deduplication, generalized over the records kept so far: the result has
/// no repeated paths, and holds exactly the paths seen so far or remaining.
proof fn lemma_dedup_from_props(s: Seq<GitDir>, acc: Seq<GitDir>)
    requires
        forall|i: int, j: int| 0 <= i < j < acc.len() ==> acc[i].path@ != acc[j].path@,
    ensures
        forall|i: int, j: int|
            0 <= i < j < dedup_from(s, acc).len() ==> dedup_from(s, acc)[i].path@ != dedup_from(
                s,
                acc,
            )[j].path@,
        forall|p: Seq<char>|
            has_path(dedup_from(s, acc), p) <==> (has_path(s, p) || has_path(acc, p)),
    decreases s.len(),
{
    if s.len() == 0 {
        assert(forall|p: Seq<char>| !has_path(s, p));
    } else {
        assert forall|p: Seq<char>|
            has_path(s, p) <==> (s[0].path@ == p || has_path(s.skip(1), p)) by {
            lemma_has_path_unfold(s, p);
        }
        if has_path(acc, s[0].path@) {
            lemma_dedup_from_props(s.skip(1), acc);
        } else {
            let acc2 = acc.push(s[0]);
            assert forall|i: int, j: int| 0 <= i < j < acc2.len() implies acc2[i].path@
                != acc2[j].path@ by {
                if j == acc2.len() - 1 {
                    if acc[i].path@ == s[0].path@ {
                        assert(has_path(acc, s[0].path@));
                    }
                }
            }
            lemma_dedup_from_props(s.skip(1), acc2);
            assert forall|p: Seq<char>|
                has_path(acc2, p) <==> (s[0].path@ == p || has_path(acc, p)) by {
                if has_path(acc2, p) {
                    let k = choose|k: int| 0 <= k < acc2.len() && acc2[k].path@ == p;
                    if k < acc.len() {
                        assert(acc[k].path@ == p);
                    }
                }
                if has_path(acc, p) {
                    let k = choose|k: int| 0 <= k < acc.len() && acc[k].path@ == p;
                    assert(acc2[k].path@ == p);
                }
                if s[0].path@ == p {
                    assert(acc2[acc.len() as int].path@ == p);
                }
            }
        }
    }
}

/// No two records in a merged result share a repository path, whatever the
/// inputs: in particular, walking overlapping root sets twice and merging
/// yields no duplicate repository path.
pub proof fn lemma_merge_no_duplicate_paths(s: Seq<GitDir>)
    ensures
        forall|i: int, j: int|
            0 <= i < j < dedup_by_path(s).len() ==> dedup_by_path(s)[i].path@ != dedup_by_path(
                s,
            )[j].path@,
{
    lemma_dedup_from_props(s, Seq::<GitDir>::empty());
}

/// Path membership distributes over flattening the per-task lists.
proof fn lemma_flatten_has_path(ls: Seq<Seq<GitDir>>)
    ensures
        forall|p: Seq<char>|
            has_path(flatten_lists(ls), p) <==> exists|k: int|
                0 <= k < ls.len() && has_path(ls[k], p),
    decreases ls.len(),
{
    if ls.len() == 0 {
        assert(forall|p: Seq<char>| !has_path(flatten_lists(ls), p));
    } else {
        lemma_flatten_has_path(ls.skip(1));
        assert forall|p: Seq<char>|
            has_path(flatten_lists(ls), p) <==> exists|k: int|
                0 <= k < ls.len() && has_path(ls[k], p) by {
            lemma_has_path_concat(ls[0], flatten_lists(ls.skip(1)), p);
            if has_path(ls[0], p) {
                assert(0 <= 0 < ls.len() && has_path(ls[0], p));
            }
            if has_path(flatten_lists(ls.skip(1)), p) {
                let k = choose|k: int| 0 <= k < ls.skip(1).len() && has_path(ls.skip(1)[k], p);
                assert(ls[k + 1] == ls.skip(1)[k]);
                assert(0 <= k + 1 < ls.len() && has_path(ls[k + 1], p));
            }
            if exists|k: int| 0 <= k < ls.len() && has_path(ls[k], p) {
                let k = choose|k: int| 0 <= k < ls.len() && has_path(ls[k], p);
                if k > 0 {
                    assert(ls.skip(1)[k - 1] == ls[k]);
                    assert(has_path(ls.skip(1)[k - 1], p));
                }
            }
        }
    }
}

/// Merging is complete and deterministic as a set: a repository path is in
/// the merged result precisely when some task reported it, however the
/// tasks were ordered or scheduled.
pub proof fn lemma_merge_path_set(ls: Seq<Seq<GitDir>>)
    ensures
        forall|p: Seq<char>|
            has_path(dedup_by_path(flatten_lists(ls)), p) <==> exists|k: int|
                0 <= k < ls.len() && has_path(ls[k], p),
{
    lemma_dedup_from_props(flatten_lists(ls), Seq::<GitDir>::empty());
    lemma_flatten_has_path(ls);
    assert forall|p: Seq<char>|
        has_path(dedup_by_path(flatten_lists(ls)), p) <==> exists|k: int|
            0 <= k < ls.len() && has_path(ls[k], p) by {
        assert(!has_path(Seq::<GitDir>::empty(), p));
        assert(has_path(dedup_by_path(flatten_lists(ls)), p) <==> has_path(
            flatten_lists(ls),
            p,
        ));
    }
}

} // verus!
