//! The dialogue that walks an operator through the duplicate groups, one
//! group at a time, and decides which files go to the trash.

use vstd::prelude::*;
use crate::index::{view_groups, DuplicateGroup, GroupView};
use crate::input::{
    comma_pieces, parse_admits, parse_usize, split_commas, trim_of, trimmed, ParseFailure,
};

verus! {

/// What the dialogue asks the outside world to do, in order.
#[derive(Debug, Clone, PartialEq, Eq)]
pub enum Action {
    /// Move this file to the trash.
    SoftDelete(String),
    /// Tell the operator that this member number is out of range.
    ReportOutOfRange(usize),
    /// Tell the operator that this token is not a member number, and why.
    ReportUnparsable(String, ParseFailure),
    /// Tell the operator that nothing in the group was deleted.
    ReportNothingDeleted,
}

/// `a` is the action for a token of `group` whose text is `token` and whose
/// trimmed text parsed to `parsed`.
pub open spec fn action_for(
    group: GroupView,
    token: Seq<char>,
    parsed: Result<usize, ParseFailure>,
    a: Action,
) -> bool {
    match parsed {
        Ok(v) => if 1 <= v <= group.1.len() {
            a matches Action::SoftDelete(p) && p@ == group.1[v - 1]
        } else {
            a == Action::ReportOutOfRange(v)
        },
        Err(k) => a matches Action::ReportUnparsable(t, k2) && t@ == token && k2 == k,
    }
}

/// `a` is the action for the token `token` of `group`, once trimmed to `trimmed`.
pub open spec fn token_action(group: GroupView, token: Seq<char>, trimmed: Seq<char>, a: Action) -> bool {
    exists|p: Result<usize, ParseFailure>| parse_admits(trimmed, p) && action_for(group, token, p, a)
}

/// Whether an action is a deletion.
pub open spec fn is_deletion(a: Action) -> bool {
    a matches Action::SoftDelete(_)
}

/// Decides what to do with one token of an answer: delete the member it
/// numbers from 1, or report it as out of range or unparsable.
pub fn decide_token(group: &DuplicateGroup, token: &str, trimmed: &str) -> (a: Action)
    ensures
        token_action(group@, token@, trimmed@, a),
{
    let parsed = parse_usize(trimmed);
    match parsed {
        Ok(v) => {
            if 1 <= v && v <= group.paths.len() {
                let p = group.paths[v - 1].clone();
                let a = Action::SoftDelete(p);
                assert(action_for(group@, token@, parsed, a));
                a
            } else {
                Action::ReportOutOfRange(v)
            }
        },
        Err(k) => Action::ReportUnparsable(token.to_string(), k),
    }
}

/// `actions` answer the trimmed line `t` for `group`, and `accepted` says
/// whether the group is done: an empty line deletes nothing and is accepted;
/// otherwise each comma-separated token gets its action, and the line is
/// accepted exactly when every token named a member.
pub open spec fn answers_trimmed(group: GroupView, t: Seq<char>, actions: Seq<Action>, accepted: bool) -> bool {
    if t.len() == 0 {
        actions == seq![Action::ReportNothingDeleted] && accepted
    } else {
        let pieces = comma_pieces(t);
        &&& actions.len() == pieces.len()
        &&& forall|i: int|
            0 <= i < pieces.len() ==> token_action(group, pieces[i], trim_of(pieces[i]), #[trigger] actions[i])
        &&& accepted == forall|i: int| 0 <= i < actions.len() ==> is_deletion(#[trigger] actions[i])
    }
}

/// `actions` answer `line` for `group` once it is trimmed.
pub open spec fn answers_line(group: GroupView, line: Seq<char>, actions: Seq<Action>, accepted: bool) -> bool {
    answers_trimmed(group, trim_of(line), actions, accepted)
}

/// The actions that answer the trimmed line `t` for `group`, and whether the
/// group is done.
pub fn respond_trimmed(group: &DuplicateGroup, t: &str) -> (r: (Vec<Action>, bool))
    ensures
        answers_trimmed(group@, t@, r.0@, r.1),
{
    let mut actions: Vec<Action> = Vec::new();
    if t.is_empty() {
        actions.push(Action::ReportNothingDeleted);
        assert(actions@ =~= seq![Action::ReportNothingDeleted]);
        return (actions, true);
    }
    let pieces = split_commas(t);
    let ghost pv = pieces@.map_values(|p: String| p@);
    let mut accepted = true;
    let mut i: usize = 0;
    while i < pieces.len()
        invariant
            0 <= i <= pieces.len(),
            pv == pieces@.map_values(|p: String| p@),
            pv == comma_pieces(t@),
            actions@.len() == i,
            forall|j: int| 0 <= j < i ==> token_action(group@, pv[j], trim_of(pv[j]), #[trigger] actions@[j]),
            accepted == forall|j: int| 0 <= j < i ==> is_deletion(#[trigger] actions@[j]),
        decreases pieces.len() - i,
    {
        let piece = pieces[i].as_str();
        let a = decide_token(group, piece, trimmed(piece));
        let deletes = match a {
            Action::SoftDelete(_) => true,
            _ => false,
        };
        let ghost prev = actions@;
        actions.push(a);
        assert(actions@[i as int] == a);
        assert(forall|j: int| 0 <= j < i ==> actions@[j] == prev[j]);
        if !deletes {
            assert(!is_deletion(actions@[i as int]));
            accepted = false;
        }
        i += 1;
    }
    (actions, accepted)
}

/// The actions that answer `line` for `group`, and whether the group is done.
pub fn respond(group: &DuplicateGroup, line: &str) -> (r: (Vec<Action>, bool))
    ensures
        answers_line(group@, line@, r.0@, r.1),
{
    respond_trimmed(group, trimmed(line))
}

/// The dialogue over the duplicate groups: which group is presented now.
pub struct Resolver {
    groups: Vec<DuplicateGroup>,
    current: usize,
}

impl Resolver {
    /// The groups of the dialogue, in order of presentation.
    pub closed spec fn groups(&self) -> Seq<GroupView> {
        view_groups(self.groups@)
    }

    /// The 0-based index of the group presented now; the number of groups once done.
    pub closed spec fn current(&self) -> nat {
        self.current as nat
    }

    pub closed spec fn wf(&self) -> bool {
        self.current <= self.groups@.len()
    }

    /// A dialogue that starts with the first of `groups`.
    pub fn new(groups: Vec<DuplicateGroup>) -> (r: Resolver)
        ensures
            r.wf(),
            r.groups() == view_groups(groups@),
            r.current() == 0,
    {
        Resolver { groups, current: 0 }
    }

    /// Whether every group is done.
    pub fn is_done(&self) -> (r: bool)
        requires
            self.wf(),
        ensures
            r == (self.current() >= self.groups().len()),
    {
        self.current >= self.groups.len()
    }

    /// The 1-based position of the group presented now.
    pub fn position(&self) -> (r: usize)
        requires
            self.wf(),
            self.current() < self.groups().len(),
        ensures
            r == self.current() + 1,
    {
        let n = self.groups.len();
        assert(self.current < n);
        self.current + 1
    }

    /// The number of groups in the dialogue.
    pub fn total(&self) -> (r: usize)
        ensures
            r == self.groups().len(),
    {
        self.groups.len()
    }

    /// The group presented now.
    pub fn current_group(&self) -> (r: &DuplicateGroup)
        requires
            self.wf(),
            self.current() < self.groups().len(),
        ensures
            r@ == self.groups()[self.current() as int],
    {
        &self.groups[self.current]
    }

    /// Takes the operator's answer for the group presented now: returns the
    /// actions to perform in order, and moves on to the next group exactly
    /// when the answer is accepted; otherwise the same group is presented again.
    pub fn submit(&mut self, line: &str) -> (actions: Vec<Action>)
        requires
            old(self).wf(),
            old(self).current() < old(self).groups().len(),
        ensures
            final(self).wf(),
            final(self).groups() == old(self).groups(),
            exists|accepted: bool|
                answers_line(old(self).groups()[old(self).current() as int], line@, actions@, accepted)
                    && final(self).current() == if accepted {
                    old(self).current() + 1
                } else {
                    old(self).current()
                },
    {
        let n = self.groups.len();
        assert(self.current < n);
        let ghost before = *self;
        let (actions, accepted) = respond(&self.groups[self.current], line);
        assert(answers_line(before.groups()[before.current() as int], line@, actions@, accepted));
        if accepted {
            self.current = self.current + 1;
        }
        actions
    }
}

} // verus!
