//! The grouping of discovered files by content digest.

use std::collections::HashMap;
use vstd::prelude::*;

verus! {

/// A discovered file: its content digest and its path.
pub type PairView = (u128, Seq<char>);

/// A group as a value: its digest and its paths in order of arrival.
pub type GroupView = (u128, Seq<Seq<char>>);

/// The paths that arrived with digest `d`, in order of arrival.
pub open spec fn paths_for(pairs: Seq<PairView>, d: u128) -> Seq<Seq<char>>
    decreases pairs.len(),
{
    if pairs.len() == 0 {
        Seq::empty()
    } else {
        let prev = paths_for(pairs.drop_last(), d);
        if pairs.last().0 == d {
            prev.push(pairs.last().1)
        } else {
            prev
        }
    }
}

/// `groups` is the grouping of `pairs`: one non-empty group per digest that
/// occurs, each holding exactly the paths that arrived with that digest.
pub open spec fn groups_of(groups: Seq<GroupView>, pairs: Seq<PairView>) -> bool {
    &&& forall|i: int, j: int|
        0 <= i < j < groups.len() ==> #[trigger] groups[i].0 != #[trigger] groups[j].0
    &&& forall|i: int| 0 <= i < groups.len() ==> #[trigger] groups[i].1 == paths_for(pairs, groups[i].0)
    &&& forall|i: int| 0 <= i < groups.len() ==> (#[trigger] groups[i]).1.len() > 0
    &&& forall|d: u128| #[trigger] paths_for(pairs, d).len() > 0 ==> exists|i: int|
        0 <= i < groups.len() && groups[i].0 == d
}

/// Files that share one digest.
pub struct DuplicateGroup {
    pub digest: u128,
    pub paths: Vec<String>,
}

impl View for DuplicateGroup {
    type V = GroupView;

    open spec fn view(&self) -> GroupView {
        (self.digest, self.paths@.map_values(|p: String| p@))
    }
}

/// The values of a sequence of groups.
pub open spec fn view_groups(gs: Seq<DuplicateGroup>) -> Seq<GroupView> {
    gs.map_values(|g: DuplicateGroup| g@)
}

/// Whether a group is reported: it holds two files or more.
pub open spec fn is_reported(g: GroupView) -> bool {
    g.1.len() >= 2
}

/// `is_reported` as a predicate value.
pub open spec fn reported_pred() -> spec_fn(GroupView) -> bool {
    |g: GroupView| is_reported(g)
}

/// The groups that are reported, in their order.
pub open spec fn reported(groups: Seq<GroupView>) -> Seq<GroupView> {
    groups.filter(reported_pred())
}

/// All groups built from the pairs received so far.
pub struct ResultIndex {
    groups: Vec<DuplicateGroup>,
    positions: HashMap<u128, usize>,
    received: Ghost<Seq<PairView>>,
}

impl View for ResultIndex {
    type V = Seq<GroupView>;

    closed spec fn view(&self) -> Seq<GroupView> {
        view_groups(self.groups@)
    }
}

impl ResultIndex {
    /// The pairs received so far, in order of arrival.
    pub closed spec fn received(&self) -> Seq<PairView> {
        self.received@
    }

    /// `positions` maps each digest to the place of its group.
    pub closed spec fn positions_match(&self) -> bool {
        &&& forall|d: u128| #[trigger] self.positions@.contains_key(d) ==> {
            &&& self.positions@[d] < self.groups@.len()
            &&& self.groups@[self.positions@[d] as int].digest == d
        }
        &&& forall|i: int| 0 <= i < self.groups@.len() ==> self.positions@.contains_key(
            #[trigger] self.groups@[i].digest,
        )
    }

    pub open spec fn wf(&self) -> bool {
        &&& groups_of(self@, self.received())
        &&& self.positions_match()
    }

    /// An index that has received nothing.
    pub fn new() -> (r: ResultIndex)
        ensures
            r.wf(),
            r.received() == Seq::<PairView>::empty(),
            r@ == Seq::<GroupView>::empty(),
    {
        let r = ResultIndex {
            groups: Vec::new(),
            positions: HashMap::new(),
            received: Ghost(Seq::empty()),
        };
        assert(r@ =~= Seq::<GroupView>::empty());
        r
    }

    /// The number of groups, reported or not.
    pub fn len(&self) -> (r: usize)
        ensures
            r == self@.len(),
    {
        self.groups.len()
    }

    /// The groups of two files or more, in the index's order.
    pub fn into_report(self) -> (r: Vec<DuplicateGroup>)
        ensures
            view_groups(r@) == reported(self@),
    {
        let mut groups = self.groups;
        let ghost orig = groups@;
        let ghost n = orig.len();
        let mut rev: Vec<DuplicateGroup> = Vec::new();
        while groups.len() > 0
            invariant
                n == orig.len(),
                groups@.len() <= n,
                groups@ == orig.subrange(0, groups@.len() as int),
                rev@.len() == n - groups@.len(),
                forall|k: int| 0 <= k < rev@.len() ==> #[trigger] rev@[k] == orig[n - 1 - k],
            decreases groups.len(),
        {
            let g = groups.pop().unwrap();
            assert(g == orig[groups@.len() as int]);
            assert(groups@ =~= orig.subrange(0, groups@.len() as int));
            rev.push(g);
        }
        let mut out: Vec<DuplicateGroup> = Vec::new();
        assert(view_groups(orig.subrange(0, 0)) =~= Seq::<GroupView>::empty());
        assert(reported(Seq::<GroupView>::empty()) =~= Seq::<GroupView>::empty()) by {
            reveal(Seq::filter);
        }
        assert(view_groups(out@) =~= Seq::<GroupView>::empty());
        while rev.len() > 0
            invariant
                n == orig.len(),
                rev@.len() <= n,
                forall|k: int| 0 <= k < rev@.len() ==> #[trigger] rev@[k] == orig[n - 1 - k],
                view_groups(out@) == reported(view_groups(orig.subrange(0, n - rev@.len()))),
            decreases rev.len(),
        {
            let ghost m = n - rev@.len();
            let ghost prev_out = out@;
            let g = rev.pop().unwrap();
            assert(g == orig[m]);
            let ghost before = view_groups(orig.subrange(0, m));
            assert(orig.subrange(0, m + 1) =~= orig.subrange(0, m).push(g));
            assert(view_groups(orig.subrange(0, m + 1)) =~= before.push(g@));
            assert(before.push(g@).drop_last() =~= before);
            assert(reported(before.push(g@)) == if is_reported(g@) {
                reported(before).push(g@)
            } else {
                reported(before)
            }) by {
                reveal(Seq::filter);
            }
            if g.paths.len() >= 2 {
                out.push(g);
                assert(view_groups(out@) =~= view_groups(prev_out).push(g@));
            }
        }
        assert(orig.subrange(0, n as int) =~= orig);
        out
    }

    /// Files a path under its digest: appended to the digest's group, or the
    /// first of a new group placed last.
    pub fn insert(&mut self, digest: u128, path: String)
        requires
            old(self).wf(),
        ensures
            final(self).wf(),
            final(self).received() == old(self).received().push((digest, path@)),
            (exists|i: int| 0 <= i < old(self)@.len() && old(self)@[i].0 == digest) ==> exists|i: int|
                0 <= i < old(self)@.len() && old(self)@[i].0 == digest && final(self)@ == old(self)@.update(
                    i,
                    (digest, old(self)@[i].1.push(path@)),
                ),
            !(exists|i: int| 0 <= i < old(self)@.len() && old(self)@[i].0 == digest) ==> final(self)@
                == old(self)@.push((digest, seq![path@])),
    {
        broadcast use vstd::std_specs::hash::group_hash_axioms;

        let ghost old_pairs = self.received@;
        let ghost new_pairs = old_pairs.push((digest, path@));
        let ghost pv = path@;
        assert(new_pairs.drop_last() == old_pairs);
        assert forall|d: u128|
            #[trigger] paths_for(new_pairs, d) == if d == digest {
                paths_for(old_pairs, d).push(pv)
            } else {
                paths_for(old_pairs, d)
            } by {
            assert(new_pairs.last() == (digest, pv));
        }
        let i: usize = match self.positions.get(&digest) {
            Some(pos) => *pos,
            None => self.groups.len(),
        };
        let ghost old_view = self@;
        let ghost old_groups = self.groups@;
        assert(i < self.groups.len() ==> old_view[i as int].0 == digest);
        assert(i == self.groups.len() ==> forall|k: int| 0 <= k < old_view.len() ==> old_view[k].0 != digest) by {
            if i == self.groups.len() {
                assert forall|k: int| 0 <= k < old_view.len() implies old_view[k].0 != digest by {
                    assert(self.positions@.contains_key(old_groups[k].digest));
                }
            }
        }
        if i < self.groups.len() {
            assert(old_view[i as int] == old_groups[i as int]@);
            let ghost gp = old_groups[i as int].paths@;
            self.groups[i].paths.push(path);
            self.received = Ghost(new_pairs);
            let ghost gv = self.groups@[i as int]@;
            assert(self.groups@[i as int].paths@.map_values(|p: String| p@) =~= gp.map_values(
                |p: String| p@,
            ).push(pv));
            assert(self.groups@ =~= old_groups.update(i as int, self.groups@[i as int]));
            assert(gv == (digest, old_view[i as int].1.push(pv)));
            assert(self@ =~= old_view.update(i as int, (digest, old_view[i as int].1.push(pv))));
        } else {
            let mut paths: Vec<String> = Vec::new();
            paths.push(path);
            self.positions.insert(digest, i);
            assert(paths@.map_values(|p: String| p@) =~= seq![pv]);
            self.groups.push(DuplicateGroup { digest, paths });
            self.received = Ghost(new_pairs);
            assert(self.groups@ =~= old_groups.push(self.groups@[i as int]));
            assert(self@ =~= old_view.push((digest, seq![pv])));
        }
        assert forall|k: int| 0 <= k < self@.len() implies #[trigger] self@[k].1 == paths_for(
            new_pairs,
            self@[k].0,
        ) by {
            if k < old_view.len() {
                assert(old_view[k].1 == paths_for(old_pairs, old_view[k].0));
            }
        }
        assert forall|d: u128| #[trigger] paths_for(new_pairs, d).len() > 0 implies exists|k: int|
            0 <= k < self@.len() && self@[k].0 == d by {
            if d != digest {
                assert(paths_for(old_pairs, d).len() > 0);
                let k = choose|k: int| 0 <= k < old_view.len() && old_view[k].0 == d;
                assert(self@[k].0 == d);
            } else {
                assert(self@[i as int].0 == d);
            }
        }
    }
}

} // verus!
