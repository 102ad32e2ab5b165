use vstd::prelude::*;

use crate::manifest::names_view;
use crate::paths::{std_path_lt, std_path_eq, path_precedes};
use crate::text::{contains, text_contains};

verus! {

/// Whether two paths are equal.
///
/// Trusted: calls std's `==` on `Path`, which compares components; the
/// contract names the result and states that it is symmetric, as std's
/// `PartialEq` contract requires.
#[verifier::external_body]
fn same_path(a: &str, b: &str) -> (eq: bool)
    ensures
        eq == std_path_eq(a@, b@),
        eq == std_path_eq(b@, a@),
{
    std::path::Path::new(a) == std::path::Path::new(b)
}

/// A manifest text declares a package.
pub open spec fn declares_package(content: Seq<char>) -> bool {
    contains(content, "[package]"@)
}

/// Whether a manifest text declares a package: it holds `[package]`.
pub fn is_package_manifest(content: &str) -> (package: bool)
    ensures
        package == declares_package(content@),
        package == contains(content@, "[package]"@),
{
    text_contains(content, "[package]")
}

/// A manifest found in the directory: its path and its text.
#[derive(Debug)]
pub struct FoundManifest {
    pub path: String,
    pub content: String,
}

pub open spec fn found_view(found: Seq<FoundManifest>) -> Seq<(Seq<char>, Seq<char>)> {
    found.map_values(|f: FoundManifest| (f.path@, f.content@))
}

/// The paths of the manifests that declare a package, in order.
pub open spec fn package_paths(found: Seq<(Seq<char>, Seq<char>)>) -> Seq<Seq<char>>
    decreases found.len(),
{
    if found.len() == 0 {
        Seq::empty()
    } else {
        let rest = package_paths(found.drop_last());
        if declares_package(found.last().1) {
            rest.push(found.last().0)
        } else {
            rest
        }
    }
}

/// The paths, with the root manifest added when it declares a package and
/// is not among them already.
pub open spec fn with_root(paths: Seq<Seq<char>>, root: Option<(Seq<char>, Seq<char>)>) -> Seq<Seq<char>> {
    match root {
        Some((p, c)) => if declares_package(c) && !(exists|i: int|
            0 <= i < paths.len() && #[trigger] std_path_eq(paths[i], p)) {
            paths.push(p)
        } else {
            paths
        },
        None => paths,
    }
}

/// Where a path goes among sorted paths: before the first one it precedes.
pub open spec fn insertion_point(sorted: Seq<Seq<char>>, x: Seq<char>) -> int
    decreases sorted.len(),
{
    if sorted.len() == 0 {
        0
    } else if std_path_lt(x, sorted[0]) {
        0
    } else {
        1 + insertion_point(sorted.drop_first(), x)
    }
}

/// The paths sorted by std's `Path` order, keeping the order of equal paths:
/// each is inserted, in turn, before the first path it precedes.
pub open spec fn sort_paths(paths: Seq<Seq<char>>) -> Seq<Seq<char>>
    decreases paths.len(),
{
    if paths.len() == 0 {
        Seq::empty()
    } else {
        let sorted = sort_paths(paths.drop_last());
        sorted.insert(insertion_point(sorted, paths.last()), paths.last())
    }
}

/// The crate manifests of a directory, as `discover_crates` lists them.
pub open spec fn discovered(found: Seq<(Seq<char>, Seq<char>)>, root: Option<(Seq<char>, Seq<char>)>) -> Seq<Seq<char>> {
    sort_paths(with_root(package_paths(found), root))
}

proof fn lemma_insertion_point(sorted: Seq<Seq<char>>, x: Seq<char>, j: int)
    requires
        0 <= j <= sorted.len(),
        forall|k: int| 0 <= k < j ==> !std_path_lt(x, #[trigger] sorted[k]),
        j == sorted.len() || std_path_lt(x, sorted[j]),
    ensures
        insertion_point(sorted, x) == j,
    decreases j,
{
    if j > 0 {
        let d = sorted.drop_first();
        assert forall|k: int| 0 <= k < j - 1 implies !std_path_lt(x, #[trigger] d[k]) by {
            assert(d[k] == sorted[k + 1]);
        }
        assert(!std_path_lt(x, sorted[0]));
        if j < sorted.len() {
            assert(d[j - 1] == sorted[j]);
        }
        lemma_insertion_point(d, x, j - 1);
    }
}

proof fn lemma_insertion_point_bounds(sorted: Seq<Seq<char>>, x: Seq<char>)
    ensures
        0 <= insertion_point(sorted, x) <= sorted.len(),
    decreases sorted.len(),
{
    if sorted.len() > 0 && !std_path_lt(x, sorted[0]) {
        lemma_insertion_point_bounds(sorted.drop_first(), x);
    }
}

/// Sorting keeps every path, as many times as it occurs.
pub proof fn lemma_sort_paths_permutes(paths: Seq<Seq<char>>)
    ensures
        sort_paths(paths).to_multiset() == paths.to_multiset(),
    decreases paths.len(),
{
    broadcast use vstd::seq_lib::group_to_multiset_ensures;

    if paths.len() > 0 {
        let sorted = sort_paths(paths.drop_last());
        lemma_sort_paths_permutes(paths.drop_last());
        lemma_insertion_point_bounds(sorted, paths.last());
        assert(paths.drop_last().push(paths.last()) =~= paths);
    }
}

proof fn lemma_package_paths_members(found: Seq<(Seq<char>, Seq<char>)>)
    ensures
        forall|i: int| 0 <= i < found.len() && contains(found[i].1, "[package]"@)
            ==> #[trigger] package_paths(found).contains(found[i].0),
        forall|p: Seq<char>| #[trigger] package_paths(found).contains(p) ==> exists|i: int|
            0 <= i < found.len() && found[i].0 == p && contains(found[i].1, "[package]"@),
    decreases found.len(),
{
    if found.len() > 0 {
        let d = found.drop_last();
        lemma_package_paths_members(d);
        let rest = package_paths(d);
        assert forall|i: int| 0 <= i < found.len() && contains(found[i].1, "[package]"@)
            implies #[trigger] package_paths(found).contains(found[i].0) by {
            if i < found.len() - 1 {
                assert(d[i] == found[i]);
                assert(rest.contains(d[i].0));
                let j = choose|j: int| 0 <= j < rest.len() && rest[j] == d[i].0;
                if declares_package(found.last().1) {
                    assert(rest.push(found.last().0)[j] == rest[j]);
                }
            } else {
                assert(rest.push(found.last().0)[rest.len() as int] == found.last().0);
            }
        }
        assert forall|p: Seq<char>| #[trigger] package_paths(found).contains(p) implies exists|i: int|
            0 <= i < found.len() && found[i].0 == p && contains(found[i].1, "[package]"@) by {
            let j = choose|j: int| 0 <= j < package_paths(found).len() && package_paths(found)[j] == p;
            if j < rest.len() {
                assert(package_paths(found)[j] == rest[j]);
                assert(rest.contains(p));
                let i = choose|i: int| 0 <= i < d.len() && d[i].0 == p && contains(d[i].1, "[package]"@);
                assert(found[i] == d[i]);
            } else {
                assert(found[found.len() - 1] == found.last());
            }
        }
    }
}

/// Every found manifest whose text holds `[package]` is listed; every
/// listed path is that of a found manifest, or of the root manifest, whose
/// text holds `[package]`; and a root manifest that holds `[package]` is
/// listed, unless a path equal to its own already is.
pub proof fn lemma_package_manifests_listed(found: Seq<(Seq<char>, Seq<char>)>, root: Option<(Seq<char>, Seq<char>)>)
    ensures
        forall|i: int| 0 <= i < found.len() && contains(found[i].1, "[package]"@)
            ==> #[trigger] discovered(found, root).contains(found[i].0),
        forall|p: Seq<char>| #[trigger] discovered(found, root).contains(p) ==> (exists|i: int|
            0 <= i < found.len() && found[i].0 == p && contains(found[i].1, "[package]"@)) || (root matches Some(
            (rp, rc),
        ) && rp == p && contains(rc, "[package]"@)),
        match root {
            Some((rp, rc)) => contains(rc, "[package]"@) ==> exists|q: Seq<char>|
                #[trigger] discovered(found, root).contains(q) && (q == rp || std_path_eq(q, rp)),
            None => true,
        },
{
    broadcast use vstd::seq_lib::group_to_multiset_ensures;

    lemma_package_paths_members(found);
    let pp = package_paths(found);
    let w = with_root(pp, root);
    lemma_sort_paths_permutes(w);
    let sorted = discovered(found, root);
    assert forall|x: Seq<char>| #[trigger] sorted.contains(x) == w.contains(x) by {
        assert(sorted.to_multiset().count(x) == w.to_multiset().count(x));
    }
    assert forall|x: Seq<char>| #[trigger] pp.contains(x) implies w.contains(x) by {
        let j = choose|j: int| 0 <= j < pp.len() && pp[j] == x;
        if w != pp {
            if let Some((rp, rc)) = root {
                assert(w == pp.push(rp));
            }
            assert(w[j] == pp[j]);
        }
    }
    assert forall|i: int| 0 <= i < found.len() && contains(found[i].1, "[package]"@)
        implies #[trigger] sorted.contains(found[i].0) by {
        assert(pp.contains(found[i].0));
        assert(w.contains(found[i].0));
    }
    assert forall|p: Seq<char>| #[trigger] sorted.contains(p) implies (exists|i: int|
        0 <= i < found.len() && found[i].0 == p && contains(found[i].1, "[package]"@)) || (root matches Some(
        (rp, rc),
    ) && rp == p && contains(rc, "[package]"@)) by {
        assert(w.contains(p));
        let j = choose|j: int| 0 <= j < w.len() && w[j] == p;
        if j < pp.len() {
            if w != pp {
                assert(w[j] == pp[j]);
            }
            assert(pp.contains(p));
        }
    }
    if let Some((rp, rc)) = root {
        if contains(rc, "[package]"@) {
            if w == pp.push(rp) && !(exists|i: int| 0 <= i < pp.len() && #[trigger] std_path_eq(pp[i], rp)) {
                assert(w[pp.len() as int] == rp);
                assert(sorted.contains(rp));
            } else {
                let i = choose|i: int| 0 <= i < pp.len() && #[trigger] std_path_eq(pp[i], rp);
                assert(pp.contains(pp[i]));
                assert(sorted.contains(pp[i]));
            }
        }
    }
}

/// `a` comes before `b` or equals it in std's `Path` order.
pub open spec fn path_le(a: Seq<char>, b: Seq<char>) -> bool {
    std_path_lt(a, b) || std_path_eq(a, b)
}

/// Each path comes before or equals every later one.
pub open spec fn paths_ordered(s: Seq<Seq<char>>) -> bool {
    forall|i: int, j: int| 0 <= i < j < s.len() ==> path_le(#[trigger] s[i], #[trigger] s[j])
}

/// Each path comes strictly before every later one.
pub open spec fn paths_strictly_ordered(s: Seq<Seq<char>>) -> bool {
    forall|i: int, j: int| 0 <= i < j < s.len() ==> std_path_lt(#[trigger] s[i], #[trigger] s[j])
}

/// No two entries at different positions are equal paths.
pub open spec fn paths_distinct(s: Seq<Seq<char>>) -> bool {
    forall|i: int, j: int| 0 <= i < s.len() && 0 <= j < s.len() && i != j ==> !std_path_eq(#[trigger] s[i], #[trigger] s[j])
}

/// The paths of the manifests found.
pub open spec fn found_paths(found: Seq<FoundManifest>) -> Seq<Seq<char>> {
    found.map_values(|f: FoundManifest| f.path@)
}

/// Inserts a path into ordered paths, before the first one it precedes;
/// says where.
fn insert_path(sorted: &mut Vec<String>, x: String) -> (at: usize)
    requires
        paths_ordered(names_view(old(sorted)@)),
    ensures
        at as int == insertion_point(names_view(old(sorted)@), x@),
        at <= old(sorted)@.len(),
        names_view(final(sorted)@) == names_view(old(sorted)@).insert(at as int, x@),
        paths_ordered(names_view(final(sorted)@)),
{
    let ghost before = names_view(sorted@);
    let n = sorted.len();
    let mut j: usize = 0;
    while j < n && !path_precedes(x.as_str(), sorted[j].as_str())
        invariant
            n == sorted.len(),
            j <= n,
            before == names_view(sorted@),
            forall|k: int| 0 <= k < j ==> !std_path_lt(x@, #[trigger] before[k]),
            forall|k: int| 0 <= k < j ==> path_le(#[trigger] before[k], x@),
        decreases n - j,
    {
        assert(before[j as int] == sorted@[j as int]@);
        j = j + 1;
    }
    proof {
        if j < n {
            assert(before[j as int] == sorted@[j as int]@);
            assert(std_path_lt(x@, before[j as int]));
            assert forall|m: int| j < m < n implies std_path_lt(x@, #[trigger] before[m]) by {
                assert(path_le(before[j as int], before[m]));
            }
        }
        lemma_insertion_point(before, x@, j as int);
    }
    sorted.insert(j, x);
    proof {
        let r = names_view(sorted@);
        assert(r =~= before.insert(j as int, x@));
        assert forall|a: int, b: int| 0 <= a < b < r.len() implies path_le(#[trigger] r[a], #[trigger] r[b]) by {
            if b < j {
                assert(r[a] == before[a] && r[b] == before[b]);
            } else if b == j {
                assert(r[a] == before[a] && r[b] == x@);
            } else if a < j {
                assert(r[a] == before[a] && r[b] == before[b - 1]);
            } else if a == j {
                assert(r[a] == x@ && r[b] == before[b - 1]);
                assert(std_path_lt(x@, before[b - 1]));
            } else {
                assert(r[a] == before[a - 1] && r[b] == before[b - 1]);
            }
        }
    }
    j
}

/// The manifests of a directory that declare a package, as
/// `discover_crates` lists them: those found in its subdirectories that
/// declare a package, then the directory's own manifest when it declares a
/// package and is not listed already, all sorted by std's `Path` order
/// (equal paths keep their order). Each path comes before or equals every
/// later one; when the paths found are all different, each comes strictly
/// before every later one and no two are equal.
pub fn select_manifests(found: Vec<FoundManifest>, root: Option<FoundManifest>) -> (crates: Vec<String>)
    ensures
        names_view(crates@) == discovered(
            found_view(found@),
            match root {
                Some(r) => Some((r.path@, r.content@)),
                None => None,
            },
        ),
        paths_ordered(names_view(crates@)),
        paths_distinct(found_paths(found@)) ==> paths_strictly_ordered(names_view(crates@))
            && paths_distinct(names_view(crates@)),
{
    let ghost fv = found_view(found@);
    let ghost fp = found_paths(found@);
    let ghost dist_found = paths_distinct(fp);
    let mut paths: Vec<String> = Vec::new();
    let ghost mut pos: Seq<int> = Seq::empty();
    let n = found.len();
    let mut i: usize = 0;
    assert(names_view(paths@) =~= package_paths(fv.take(0)));
    while i < n
        invariant
            n == found.len(),
            fv == found_view(found@),
            fp == found_paths(found@),
            dist_found == paths_distinct(fp),
            i <= n,
            names_view(paths@) == package_paths(fv.take(i as int)),
            pos.len() == paths@.len(),
            forall|q: int| 0 <= q < pos.len() ==> 0 <= #[trigger] pos[q] < i,
            forall|q: int, r: int| 0 <= q < r < pos.len() ==> #[trigger] pos[q] < #[trigger] pos[r],
            forall|q: int| 0 <= q < pos.len() ==> names_view(paths@)[q] == fp[#[trigger] pos[q]],
        decreases n - i,
    {
        assert(fv.take(i + 1).drop_last() =~= fv.take(i as int));
        let ghost before = paths@;
        if is_package_manifest(found[i].content.as_str()) {
            paths.push(found[i].path.clone());
            assert(names_view(paths@) =~= names_view(before).push(found@[i as int].path@));
            proof {
                pos = pos.push(i as int);
            }
        }
        i = i + 1;
    }
    assert(fv.take(n as int) =~= fv);
    proof {
        if dist_found {
            assert forall|q: int, r: int| 0 <= q < paths@.len() && 0 <= r < paths@.len() && q != r implies !std_path_eq(
                #[trigger] names_view(paths@)[q],
                #[trigger] names_view(paths@)[r],
            ) by {
                assert(pos[q] != pos[r]);
                assert(names_view(paths@)[q] == fp[pos[q]]);
                assert(names_view(paths@)[r] == fp[pos[r]]);
            }
        }
    }
    let ghost listed = names_view(paths@);
    match root {
        Some(r) => {
            if is_package_manifest(r.content.as_str()) {
                let m = paths.len();
                let mut k: usize = 0;
                let mut present = false;
                while k < m
                    invariant
                        m == paths.len(),
                        listed == names_view(paths@),
                        k <= m,
                        !present ==> forall|q: int| 0 <= q < k ==> !std_path_eq(#[trigger] listed[q], r.path@)
                            && !std_path_eq(r.path@, listed[q]),
                        present ==> exists|q: int| 0 <= q < m && #[trigger] std_path_eq(listed[q], r.path@),
                    decreases m - k,
                {
                    assert(listed[k as int] == paths@[k as int]@);
                    if same_path(paths[k].as_str(), r.path.as_str()) {
                        present = true;
                        assert(std_path_eq(listed[k as int], r.path@));
                    }
                    k = k + 1;
                }
                if !present {
                    paths.push(r.path);
                    assert(names_view(paths@) =~= listed.push(r.path@));
                    proof {
                        if dist_found {
                            let s2 = names_view(paths@);
                            assert forall|q: int, t: int| 0 <= q < s2.len() && 0 <= t < s2.len() && q != t implies !std_path_eq(
                                #[trigger] s2[q],
                                #[trigger] s2[t],
                            ) by {
                                if q < listed.len() && t < listed.len() {
                                    assert(s2[q] == listed[q] && s2[t] == listed[t]);
                                } else if q < listed.len() {
                                    assert(s2[q] == listed[q]);
                                } else {
                                    assert(s2[t] == listed[t]);
                                }
                            }
                        }
                    }
                }
            }
        },
        None => {},
    }
    let ghost selected = names_view(paths@);
    let mut sorted: Vec<String> = Vec::new();
    let ghost mut perm: Seq<int> = Seq::empty();
    let total = paths.len();
    let mut idx: usize = 0;
    assert(names_view(sorted@) =~= sort_paths(selected.take(0)));
    while idx < total
        invariant
            total == paths.len(),
            selected == names_view(paths@),
            dist_found ==> paths_distinct(selected),
            idx <= total,
            names_view(sorted@) == sort_paths(selected.take(idx as int)),
            paths_ordered(names_view(sorted@)),
            perm.len() == sorted@.len(),
            forall|q: int| 0 <= q < perm.len() ==> 0 <= #[trigger] perm[q] < idx,
            forall|q: int, t: int| 0 <= q < perm.len() && 0 <= t < perm.len() && q != t ==> #[trigger] perm[q] != #[trigger] perm[t],
            forall|q: int| 0 <= q < perm.len() ==> names_view(sorted@)[q] == selected[#[trigger] perm[q]],
        decreases total - idx,
    {
        assert(selected.take(idx + 1).drop_last() =~= selected.take(idx as int));
        let ghost before = names_view(sorted@);
        let ghost old_perm = perm;
        let at = insert_path(&mut sorted, paths[idx].clone());
        proof {
            perm = old_perm.insert(at as int, idx as int);
            let now = names_view(sorted@);
            assert(now.len() == sorted@.len());
            assert(now.len() == before.len() + 1);
            assert(perm.len() == old_perm.len() + 1);
            assert forall|q: int| 0 <= q < perm.len() implies now[q] == selected[#[trigger] perm[q]] by {
                if q < at {
                    assert(perm[q] == old_perm[q] && now[q] == before[q]);
                } else if q == at {
                    assert(perm[q] == idx as int && now[q] == selected[idx as int]);
                } else {
                    assert(perm[q] == old_perm[q - 1] && now[q] == before[q - 1]);
                }
            }
            assert forall|q: int| 0 <= q < perm.len() implies 0 <= #[trigger] perm[q] < idx + 1 by {
                if q < at {
                    assert(perm[q] == old_perm[q]);
                } else if q > at {
                    assert(perm[q] == old_perm[q - 1]);
                }
            }
            assert forall|q: int, t: int| 0 <= q < perm.len() && 0 <= t < perm.len() && q != t implies #[trigger] perm[q] != #[trigger] perm[t] by {
                let oq = if q < at { q } else { q - 1 };
                let ot = if t < at { t } else { t - 1 };
                if q != at && t != at {
                    assert(perm[q] == old_perm[oq] && perm[t] == old_perm[ot]);
                } else if q == at {
                    assert(perm[t] == old_perm[ot]);
                } else {
                    assert(perm[q] == old_perm[oq]);
                }
            }
        }
        idx = idx + 1;
    }
    assert(selected.take(total as int) =~= selected);
    proof {
        let out = names_view(sorted@);
        if dist_found {
            assert forall|q: int, t: int| 0 <= q < out.len() && 0 <= t < out.len() && q != t implies !std_path_eq(
                #[trigger] out[q],
                #[trigger] out[t],
            ) by {
                assert(out[q] == selected[perm[q]] && out[t] == selected[perm[t]]);
                assert(perm[q] != perm[t]);
            }
            assert forall|q: int, t: int| 0 <= q < t < out.len() implies std_path_lt(#[trigger] out[q], #[trigger] out[t]) by {
                assert(path_le(out[q], out[t]));
                assert(!std_path_eq(out[q], out[t]));
            }
        }
    }
    sorted
}

} // verus!
