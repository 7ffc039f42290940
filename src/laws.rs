//! What holds of the grouping whatever files are found and in whatever order
//! their digests arrive.

use vstd::prelude::*;
use crate::digest::md5_of;
use crate::index::{groups_of, is_reported, paths_for, reported, reported_pred, GroupView, PairView};

verus! {

/// A path is among the paths of digest `d` exactly when it arrived with `d`.
pub proof fn lemma_paths_for_contains(pairs: Seq<PairView>, d: u128, x: Seq<char>)
    ensures
        paths_for(pairs, d).contains(x) <==> pairs.contains((d, x)),
    decreases pairs.len(),
{
    if pairs.len() > 0 {
        let q = pairs.drop_last();
        lemma_paths_for_contains(q, d, x);
        assert(pairs =~= q.push(pairs.last()));
        if pairs.contains((d, x)) && !q.contains((d, x)) {
            let k = choose|k: int| 0 <= k < pairs.len() && pairs[k] == (d, x);
            if k < q.len() {
                assert(q[k] == (d, x));
            }
            assert(paths_for(pairs, d).last() == x);
        }
        if paths_for(q, d).contains(x) {
            let k = choose|k: int| 0 <= k < paths_for(q, d).len() && paths_for(q, d)[k] == x;
            if pairs.last().0 == d {
                assert(paths_for(pairs, d)[k] == x);
            }
        }
        if q.contains((d, x)) {
            let k = choose|k: int| 0 <= k < q.len() && q[k] == (d, x);
            assert(pairs[k] == (d, x));
        }
        if paths_for(pairs, d).contains(x) && !paths_for(q, d).contains(x) {
            assert(pairs[pairs.len() - 1] == (d, x));
        }
    }
}

/// Each path occurs in the group of `d` as often as it arrived with `d`.
pub proof fn lemma_paths_for_count(pairs: Seq<PairView>, d: u128, x: Seq<char>)
    ensures
        paths_for(pairs, d).to_multiset().count(x) == pairs.to_multiset().count((d, x)),
    decreases pairs.len(),
{
    broadcast use vstd::seq_lib::group_to_multiset_ensures;

    if pairs.len() == 0 {
        assert(!pairs.contains((d, x)));
        assert(!paths_for(pairs, d).contains(x));
    } else {
        let q = pairs.drop_last();
        lemma_paths_for_count(q, d, x);
        assert(pairs =~= q.push(pairs.last()));
    }
}

/// The pairs that files yield: each file's content digest with its path.
pub open spec fn pairs_of_files(files: Seq<(Seq<u8>, Seq<char>)>) -> Seq<PairView> {
    files.map_values(|f: (Seq<u8>, Seq<char>)| (md5_of(f.0), f.1))
}

/// Files with identical content end up in one group, and a group holds only
/// files that arrived with its digest, so files whose digests differ never
/// share a group.
pub proof fn lemma_same_content_same_group(
    groups: Seq<GroupView>,
    files: Seq<(Seq<u8>, Seq<char>)>,
    i: int,
    j: int,
)
    requires
        groups_of(groups, pairs_of_files(files)),
        0 <= i < files.len(),
        0 <= j < files.len(),
        files[i].0 == files[j].0,
    ensures
        exists|k: int|
            0 <= k < groups.len() && groups[k].0 == md5_of(files[i].0) && groups[k].1.contains(
                files[i].1,
            ) && groups[k].1.contains(files[j].1),
        forall|k: int, x: Seq<char>|
            0 <= k < groups.len() && groups[k].1.contains(x) ==> exists|m: int|
                0 <= m < files.len() && files[m].1 == x && md5_of(files[m].0) == groups[k].0,
{
    let pairs = pairs_of_files(files);
    let d = md5_of(files[i].0);
    assert(pairs[i] == (d, files[i].1));
    assert(pairs[j] == (d, files[j].1));
    lemma_paths_for_contains(pairs, d, files[i].1);
    lemma_paths_for_contains(pairs, d, files[j].1);
    assert(paths_for(pairs, d).len() > 0);
    let k = choose|k: int| 0 <= k < groups.len() && groups[k].0 == d;
    assert(groups[k].1 == paths_for(pairs, d));
    assert forall|k: int, x: Seq<char>|
        0 <= k < groups.len() && groups[k].1.contains(x) implies exists|m: int|
        0 <= m < files.len() && files[m].1 == x && md5_of(files[m].0) == groups[k].0 by {
        assert(groups[k].1 == paths_for(pairs, groups[k].0));
        lemma_paths_for_contains(pairs, groups[k].0, x);
        let m = choose|m: int| 0 <= m < pairs.len() && pairs[m] == (groups[k].0, x);
        assert(files[m].1 == x);
    }
}

/// Every reported group holds two files or more, and a path is reported
/// exactly when it arrived with a digest that two or more files share.
pub proof fn lemma_report_is_shared_files(groups: Seq<GroupView>, pairs: Seq<PairView>, x: Seq<char>)
    requires
        groups_of(groups, pairs),
    ensures
        forall|k: int| 0 <= k < reported(groups).len() ==> #[trigger] reported(groups)[k].1.len() >= 2,
        (exists|k: int| 0 <= k < reported(groups).len() && reported(groups)[k].1.contains(x)) <==> (
        exists|d: u128| pairs.contains((d, x)) && #[trigger] paths_for(pairs, d).len() >= 2),
{
    let pred = reported_pred();
    let rep = reported(groups);
    groups.filter_lemma(pred);
    if exists|k: int| 0 <= k < rep.len() && rep[k].1.contains(x) {
        let k = choose|k: int| 0 <= k < rep.len() && rep[k].1.contains(x);
        assert(rep.contains(rep[k]));
        groups.lemma_filter_contains_rev(pred, rep[k]);
        let i = choose|i: int| 0 <= i < groups.len() && groups[i] == rep[k];
        let d = groups[i].0;
        assert(groups[i].1 == paths_for(pairs, d));
        lemma_paths_for_contains(pairs, d, x);
        assert(pairs.contains((d, x)) && paths_for(pairs, d).len() >= 2);
    }
    if exists|d: u128| pairs.contains((d, x)) && #[trigger] paths_for(pairs, d).len() >= 2 {
        let d = choose|d: u128| pairs.contains((d, x)) && #[trigger] paths_for(pairs, d).len() >= 2;
        let i = choose|i: int| 0 <= i < groups.len() && groups[i].0 == d;
        assert(groups[i].1 == paths_for(pairs, d));
        lemma_paths_for_contains(pairs, d, x);
        assert(rep.contains(groups[i]));
        let k = choose|k: int| 0 <= k < rep.len() && rep[k] == groups[i];
        assert(rep[k].1.contains(x));
    }
}

/// A file alone with its digest is never reported, where no path arrives twice.
pub proof fn lemma_sole_file_unreported(
    groups: Seq<GroupView>,
    pairs: Seq<PairView>,
    d: u128,
    x: Seq<char>,
)
    requires
        groups_of(groups, pairs),
        forall|a: int, b: int| 0 <= a < b < pairs.len() ==> #[trigger] pairs[a].1 != #[trigger] pairs[b].1,
        pairs.contains((d, x)),
        paths_for(pairs, d).len() == 1,
    ensures
        forall|k: int| 0 <= k < reported(groups).len() ==> !(#[trigger] reported(groups)[k]).1.contains(x),
{
    lemma_report_is_shared_files(groups, pairs, x);
    if exists|e: u128| pairs.contains((e, x)) && #[trigger] paths_for(pairs, e).len() >= 2 {
        let e = choose|e: u128| pairs.contains((e, x)) && #[trigger] paths_for(pairs, e).len() >= 2;
        let a = choose|a: int| 0 <= a < pairs.len() && pairs[a] == (d, x);
        let b = choose|b: int| 0 <= b < pairs.len() && pairs[b] == (e, x);
        assert(pairs[a].1 == pairs[b].1);
        assert(a == b);
    }
}

/// `groups` has a group with the digest of `g`, the same paths counted with
/// multiplicity, and reported exactly when `g` is.
pub open spec fn has_same_group(groups: Seq<GroupView>, g: GroupView) -> bool {
    exists|j: int|
        0 <= j < groups.len() && groups[j].0 == g.0 && groups[j].1.to_multiset() == g.1.to_multiset()
            && is_reported(groups[j]) == is_reported(g)
}

/// Two runs that receive the same pairs in any order form the same groups:
/// each group of one has a group of the other with the same digest and the
/// same paths, counted with multiplicity, and both are reported or neither.
pub proof fn lemma_grouping_ignores_order(
    g1: Seq<GroupView>,
    p1: Seq<PairView>,
    g2: Seq<GroupView>,
    p2: Seq<PairView>,
)
    requires
        groups_of(g1, p1),
        groups_of(g2, p2),
        p1.to_multiset() == p2.to_multiset(),
    ensures
        forall|i: int| 0 <= i < g1.len() ==> has_same_group(g2, #[trigger] g1[i]),
{
    assert forall|i: int| 0 <= i < g1.len() implies has_same_group(g2, #[trigger] g1[i]) by {
        let d = g1[i].0;
        assert forall|x: Seq<char>|
            paths_for(p1, d).to_multiset().count(x) == paths_for(p2, d).to_multiset().count(x) by {
            lemma_paths_for_count(p1, d, x);
            lemma_paths_for_count(p2, d, x);
        }
        assert(paths_for(p1, d).to_multiset() =~= paths_for(p2, d).to_multiset());
        paths_for(p1, d).to_multiset_ensures();
        paths_for(p2, d).to_multiset_ensures();
        assert(paths_for(p2, d).len() == paths_for(p1, d).len());
        assert(g1[i].1 == paths_for(p1, d));
        let j = choose|j: int| 0 <= j < g2.len() && g2[j].0 == d;
        assert(g2[j].1 == paths_for(p2, d));
        assert(g2[j].1.to_multiset() == g1[i].1.to_multiset());
        assert(is_reported(g2[j]) == is_reported(g1[i]));
    }
}

/// How often `x` occurs over all the groups, counted with multiplicity.
pub open spec fn occurrences(groups: Seq<GroupView>, x: Seq<char>) -> nat
    decreases groups.len(),
{
    if groups.len() == 0 {
        0
    } else {
        occurrences(groups.drop_last(), x) + groups.last().1.to_multiset().count(x)
    }
}

/// Where no path arrives twice, a path arrived with one digest at most, and
/// that pair arrived once.
proof fn lemma_unique_arrival(pairs: Seq<PairView>, d: u128, x: Seq<char>)
    requires
        forall|a: int, b: int| 0 <= a < b < pairs.len() ==> #[trigger] pairs[a].1 != #[trigger] pairs[b].1,
    ensures
        pairs.to_multiset().count((d, x)) <= 1,
        forall|e: u128| pairs.contains((d, x)) && #[trigger] pairs.contains((e, x)) ==> d == e,
{
    broadcast use vstd::seq_lib::group_to_multiset_ensures;

    assert(pairs.no_duplicates()) by {
        assert forall|a: int, b: int| 0 <= a < pairs.len() && 0 <= b < pairs.len() && a != b implies pairs[a]
            != pairs[b] by {
            if a < b {
                assert(pairs[a].1 != pairs[b].1);
            } else {
                assert(pairs[b].1 != pairs[a].1);
            }
        }
    }
    pairs.lemma_multiset_has_no_duplicates();
    assert forall|e: u128| pairs.contains((d, x)) && #[trigger] pairs.contains((e, x)) implies d == e by {
        let a = choose|a: int| 0 <= a < pairs.len() && pairs[a] == (d, x);
        let b = choose|b: int| 0 <= b < pairs.len() && pairs[b] == (e, x);
        if a < b {
            assert(pairs[a].1 == pairs[b].1);
        } else if b < a {
            assert(pairs[b].1 == pairs[a].1);
        }
    }
}

proof fn lemma_reported_prefix_once(groups: Seq<GroupView>, pairs: Seq<PairView>, x: Seq<char>, n: int)
    requires
        groups_of(groups, pairs),
        forall|a: int, b: int| 0 <= a < b < pairs.len() ==> #[trigger] pairs[a].1 != #[trigger] pairs[b].1,
        0 <= n <= groups.len(),
    ensures
        occurrences(reported(groups.subrange(0, n)), x) == if exists|k: int|
            0 <= k < n && is_reported(groups[k]) && #[trigger] groups[k].1.contains(x) {
            1nat
        } else {
            0nat
        },
    decreases n,
{
    broadcast use vstd::seq_lib::group_to_multiset_ensures;

    if n == 0 {
        assert(groups.subrange(0, 0) =~= Seq::<GroupView>::empty());
        assert(reported(Seq::<GroupView>::empty()) =~= Seq::<GroupView>::empty()) by {
            reveal(Seq::filter);
        }
    } else {
        lemma_reported_prefix_once(groups, pairs, x, n - 1);
        let before = groups.subrange(0, n - 1);
        let g = groups[n - 1];
        assert(groups.subrange(0, n) =~= before.push(g));
        assert(before.push(g).drop_last() =~= before);
        assert(reported(before.push(g)) == if is_reported(g) {
            reported(before).push(g)
        } else {
            reported(before)
        }) by {
            reveal(Seq::filter);
        }
        let d = g.0;
        assert(g.1 == paths_for(pairs, d));
        lemma_paths_for_count(pairs, d, x);
        lemma_paths_for_contains(pairs, d, x);
        lemma_unique_arrival(pairs, d, x);
        let c = g.1.to_multiset().count(x);
        assert(c <= 1);
        assert(c == 1 <==> g.1.contains(x));
        if is_reported(g) {
            let rb = reported(before);
            assert(reported(before.push(g)).drop_last() =~= rb);
            assert(occurrences(reported(before.push(g)), x) == occurrences(rb, x) + c);
        }
        if g.1.contains(x) {
            assert forall|k: int| 0 <= k < n - 1 implies !(#[trigger] groups[k].1.contains(x)) by {
                if groups[k].1.contains(x) {
                    assert(groups[k].1 == paths_for(pairs, groups[k].0));
                    lemma_paths_for_contains(pairs, groups[k].0, x);
                    assert(pairs.contains((groups[k].0, x)));
                    assert(groups[k].0 == d);
                }
            }
        }
        if !(is_reported(g) && g.1.contains(x)) {
            if exists|k: int| 0 <= k < n && is_reported(groups[k]) && #[trigger] groups[k].1.contains(x) {
                let k = choose|k: int| 0 <= k < n && is_reported(groups[k]) && #[trigger] groups[k].1.contains(x);
                assert(k != n - 1);
            }
        }
    }
}

/// Where no path arrives twice, each path that shares its digest with another
/// path occurs exactly once over all reported groups, and every other path
/// occurs in none.
pub proof fn lemma_shared_files_reported_once(groups: Seq<GroupView>, pairs: Seq<PairView>, x: Seq<char>)
    requires
        groups_of(groups, pairs),
        forall|a: int, b: int| 0 <= a < b < pairs.len() ==> #[trigger] pairs[a].1 != #[trigger] pairs[b].1,
    ensures
        occurrences(reported(groups), x) == if exists|d: u128|
            pairs.contains((d, x)) && #[trigger] paths_for(pairs, d).len() >= 2 {
            1nat
        } else {
            0nat
        },
{
    lemma_reported_prefix_once(groups, pairs, x, groups.len() as int);
    assert(groups.subrange(0, groups.len() as int) =~= groups);
    if exists|k: int| 0 <= k < groups.len() && is_reported(groups[k]) && #[trigger] groups[k].1.contains(x) {
        let k = choose|k: int| 0 <= k < groups.len() && is_reported(groups[k]) && #[trigger] groups[k].1.contains(x);
        assert(groups[k].1 == paths_for(pairs, groups[k].0));
        lemma_paths_for_contains(pairs, groups[k].0, x);
        assert(pairs.contains((groups[k].0, x)) && paths_for(pairs, groups[k].0).len() >= 2);
    }
    if exists|d: u128| pairs.contains((d, x)) && #[trigger] paths_for(pairs, d).len() >= 2 {
        let d = choose|d: u128| pairs.contains((d, x)) && #[trigger] paths_for(pairs, d).len() >= 2;
        let k = choose|k: int| 0 <= k < groups.len() && groups[k].0 == d;
        assert(groups[k].1 == paths_for(pairs, d));
        lemma_paths_for_contains(pairs, d, x);
        assert(is_reported(groups[k]) && groups[k].1.contains(x));
    }
}

} // verus!
