//! The editor's history: edits that can be taken back and done again.

use vstd::prelude::*;
use crate::action::{marks, patch_of, patches, Action, Mark, Patch};
use crate::rebuild::{counters, numbered, renumbered};

verus! {

/// One edit to the list of actions.
pub enum Edit {
    /// The action was put at the end.
    Add(Action),
    /// The action at this place was taken out.
    Remove(usize, Action),
    /// The action at this place was moved: as it was, as it became.
    Move(usize, Action, Action),
}

pub enum Past {
    Add(Mark),
    Remove(int, Mark),
    Move(int, Mark, Mark),
}

impl View for Edit {
    type V = Past;

    open spec fn view(&self) -> Past {
        match *self {
            Edit::Add(a) => Past::Add(a@),
            Edit::Remove(i, a) => Past::Remove(i as int, a@),
            Edit::Move(i, a, b) => Past::Move(i as int, a@, b@),
        }
    }
}

/// The edits of a stack.
pub open spec fn pasts(v: Seq<Edit>) -> Seq<Past> {
    Seq::new(v.len(), |i: int| v[i]@)
}

/// Can the edit be done to a list of `n`?
pub open spec fn fits_forward(e: Past, n: int) -> bool {
    match e {
        Past::Add(_) => true,
        Past::Remove(i, _) => 0 <= i < n,
        Past::Move(i, _, _) => 0 <= i < n,
    }
}

/// Can the edit be taken back from a list of `n`?
pub open spec fn fits_inverse(e: Past, n: int) -> bool {
    match e {
        Past::Add(_) => n > 0,
        Past::Remove(i, _) => 0 <= i <= n,
        Past::Move(i, _, _) => 0 <= i < n,
    }
}

/// The list with the edit done.
pub open spec fn forward(ms: Seq<Mark>, e: Past) -> Seq<Mark> {
    match e {
        Past::Add(m) => ms.push(m),
        Past::Remove(i, _) => ms.remove(i),
        Past::Move(i, _, m) => ms.update(i, m),
    }
}

/// The list with the edit taken back.
pub open spec fn inverse(ms: Seq<Mark>, e: Past) -> Seq<Mark> {
    match e {
        Past::Add(_) => ms.drop_last(),
        Past::Remove(i, m) => ms.insert(i, m),
        Past::Move(i, m, _) => ms.update(i, m),
    }
}

/// What each action last showed, with the edit done: those that it does
/// not touch as they were.
pub open spec fn forward_patches(ps: Seq<Option<Patch>>, e: Edit) -> Seq<Option<Patch>> {
    match e {
        Edit::Add(a) => ps.push(patch_of(a)),
        Edit::Remove(i, _) => ps.remove(i as int),
        Edit::Move(i, _, a) => ps.update(i as int, patch_of(a)),
    }
}

/// What each action last showed, with the edit taken back.
pub open spec fn inverse_patches(ps: Seq<Option<Patch>>, e: Edit) -> Seq<Option<Patch>> {
    match e {
        Edit::Add(_) => ps.drop_last(),
        Edit::Remove(i, a) => ps.insert(i as int, patch_of(a)),
        Edit::Move(i, a, _) => ps.update(i as int, patch_of(a)),
    }
}

pub open spec fn edit_wf(e: Past) -> bool {
    match e {
        Past::Add(m) => m.settled(),
        Past::Remove(_, m) => m.settled(),
        Past::Move(_, a, b) => a.settled() && b.settled(),
    }
}

/// How long a list of `n` is with the edit done.
pub open spec fn grown(e: Past, n: int) -> int {
    match e {
        Past::Add(_) => n + 1,
        Past::Remove(_, _) => n - 1,
        Past::Move(_, _, _) => n,
    }
}

/// Every edit of the stack, from its top down, can be taken back from a
/// list of `n`.
pub open spec fn undoable(es: Seq<Past>, n: int) -> bool
    decreases es.len(),
{
    es.len() == 0 || (fits_inverse(es.last(), n) && edit_wf(es.last()) && undoable(
        es.drop_last(),
        2 * n - grown(es.last(), n),
    ))
}

/// Every edit of the stack, from its top down, can be done to a list of
/// `n`.
pub open spec fn redoable(es: Seq<Past>, n: int) -> bool
    decreases es.len(),
{
    es.len() == 0 || (fits_forward(es.last(), n) && edit_wf(es.last()) && redoable(
        es.drop_last(),
        grown(es.last(), n),
    ))
}

pub open spec fn all_sane(ms: Seq<Mark>) -> bool {
    forall|i: int| 0 <= i < ms.len() ==> (#[trigger] ms[i]).sane()
}

/// Counters are numbered from 1 in the order of the list.
pub open spec fn ordered(ms: Seq<Mark>) -> bool {
    forall|i: int| 0 <= i < ms.len() ==> numbered(ms, i) == #[trigger] ms[i]
}

/// Do an edit.
pub fn apply_forward(actions: &mut Vec<Action>, edit: &Edit)
    requires
        fits_forward(edit@, old(actions)@.len() as int),
    ensures
        marks(final(actions)@) == forward(marks(old(actions)@), edit@),
        patches(final(actions)@) == forward_patches(patches(old(actions)@), *edit),
{
    let ghost before = actions@;
    match edit {
        Edit::Add(a) => {
            actions.push(a.copy());
        },
        Edit::Remove(i, _) => {
            let _gone = actions.remove(*i);
        },
        Edit::Move(i, _, a) => {
            actions.set(*i, a.copy());
        },
    }
    assert(marks(actions@) =~= forward(marks(before), edit@));
    assert(patches(actions@) =~= forward_patches(patches(before), *edit));
}

/// Take an edit back.
pub fn apply_inverse(actions: &mut Vec<Action>, edit: &Edit)
    requires
        fits_inverse(edit@, old(actions)@.len() as int),
    ensures
        marks(final(actions)@) == inverse(marks(old(actions)@), edit@),
        patches(final(actions)@) == inverse_patches(patches(old(actions)@), *edit),
{
    let ghost before = actions@;
    match edit {
        Edit::Add(_) => {
            let _gone = actions.pop();
        },
        Edit::Remove(i, a) => {
            actions.insert(*i, a.copy());
        },
        Edit::Move(i, a, _) => {
            actions.set(*i, a.copy());
        },
    }
    assert(marks(actions@) =~= inverse(marks(before), edit@));
    assert(patches(actions@) =~= inverse_patches(patches(before), *edit));
}

/// Marks that differ in their number alone.
pub open spec fn alike(a: Mark, b: Mark) -> bool {
    a == b || (a.tool is Counter && b == (Mark { step: b.step, step_label: b.step_label, ..a }))
}

proof fn lemma_counters_alike(a: Seq<Mark>, b: Seq<Mark>, n: int)
    requires
        n <= a.len(),
        n <= b.len(),
        forall|i: int| 0 <= i < n ==> (#[trigger] a[i]).tool == b[i].tool,
    ensures
        counters(a, n) == counters(b, n),
    decreases n,
{
    if n > 0 {
        lemma_counters_alike(a, b, n - 1);
    }
}

/// Lists that are alike become the same when they are numbered.
proof fn lemma_renumbered_alike(a: Seq<Mark>, b: Seq<Mark>)
    requires
        a.len() == b.len(),
        all_sane(a),
        all_sane(b),
        forall|i: int| 0 <= i < a.len() ==> alike(#[trigger] a[i], b[i]),
    ensures
        renumbered(a) == renumbered(b),
{
    assert forall|i: int| 0 <= i < a.len() implies renumbered(a)[i] == renumbered(b)[i] by {
        assert forall|j: int| 0 <= j < i + 1 implies (#[trigger] a[j]).tool == b[j].tool by {
            assert(alike(a[j], b[j]));
        }
        lemma_counters_alike(a, b, i + 1);
        assert(alike(a[i], b[i]));
        assert(a[i].sane() && b[i].sane());
        assert(numbered(a, i) =~= numbered(b, i));
    }
    assert(renumbered(a) =~= renumbered(b));
}

/// Numbering a list a second time changes nothing, and labels stay in
/// step with numbers.
pub proof fn lemma_renumbered(ms: Seq<Mark>)
    requires
        all_sane(ms),
    ensures
        ordered(renumbered(ms)),
        all_sane(renumbered(ms)),
        renumbered(ms).len() == ms.len(),
        forall|i: int| 0 <= i < ms.len() ==> alike(ms[i], #[trigger] renumbered(ms)[i]),
{
    let vs = renumbered(ms);
    assert forall|i: int| 0 <= i < vs.len() implies numbered(vs, i) == #[trigger] vs[i] && vs[i].sane() by {
        assert forall|j: int| 0 <= j < i + 1 implies (#[trigger] ms[j]).tool == vs[j].tool by {}
        lemma_counters_alike(ms, vs, i + 1);
        assert(ms[i].sane());
    }
}

/// An ordered list is left as it is.
pub proof fn lemma_ordered(ms: Seq<Mark>)
    requires
        ordered(ms),
    ensures
        renumbered(ms) == ms,
{
    assert(renumbered(ms) =~= ms);
}

/// Taking back an edit that was just done gives the list that was there
/// before it, numbers included.
pub proof fn law_undo(ms: Seq<Mark>, e: Past)
    requires
        ordered(ms),
        all_sane(ms),
        edit_wf(e),
        fits_forward(e, ms.len() as int),
        e matches Past::Remove(i, m) ==> m == ms[i],
        e matches Past::Move(i, m, _) ==> m == ms[i],
    ensures
        fits_inverse(e, forward(ms, e).len() as int),
        renumbered(inverse(renumbered(forward(ms, e)), e)) == ms,
{
    let us = forward(ms, e);
    assert(all_sane(us)) by {
        assert forall|i: int| 0 <= i < us.len() implies (#[trigger] us[i]).sane() by {
            match e {
                Past::Add(m) => {
                    if i < ms.len() {
                        assert(ms[i].sane());
                    }
                },
                Past::Remove(k, m) => {
                    if i < k {
                        assert(ms[i].sane());
                    } else {
                        assert(ms[i + 1].sane());
                    }
                },
                Past::Move(k, _, m) => {
                    assert(ms[i].sane());
                },
            }
        }
    }
    lemma_renumbered(us);
    let vs = renumbered(us);
    let back = inverse(vs, e);
    assert forall|i: int| 0 <= i < back.len() implies alike(#[trigger] back[i], ms[i]) && back[i].sane() by {
        assert(ms[i].sane());
        match e {
            Past::Add(m) => {
                assert(alike(us[i], vs[i]));
                assert(vs[i].sane());
            },
            Past::Remove(k, m) => {
                if i < k {
                    assert(alike(us[i], vs[i]));
                    assert(vs[i].sane());
                } else if i > k {
                    assert(alike(us[i - 1], vs[i - 1]));
                    assert(vs[i - 1].sane());
                }
            },
            Past::Move(k, _, m) => {
                assert(alike(us[i], vs[i]));
                assert(vs[i].sane());
            },
        }
    }
    lemma_renumbered_alike(back, ms);
    lemma_ordered(ms);
}

/// Taking back an edit that was just done leaves every other action
/// showing what it did, and the one that it touched what it showed before.
pub proof fn law_undo_patches(actions: Seq<Action>, e: Edit)
    requires
        fits_forward(e@, actions.len() as int),
        e matches Edit::Remove(i, a) ==> patch_of(a) == patch_of(actions[i as int]),
        e matches Edit::Move(i, a, _) ==> patch_of(a) == patch_of(actions[i as int]),
    ensures
        inverse_patches(forward_patches(patches(actions), e), e) == patches(actions),
{
    let ps = patches(actions);
    let back = inverse_patches(forward_patches(ps, e), e);
    match e {
        Edit::Add(a) => {
            assert(back =~= ps);
        },
        Edit::Remove(i, a) => {
            assert(back =~= ps);
        },
        Edit::Move(i, a, b) => {
            assert(back =~= ps);
        },
    }
}

/// Doing an edit again that was just taken back gives the list that was
/// there before it was taken back, numbers included.
pub proof fn law_redo(ms: Seq<Mark>, e: Past)
    requires
        ordered(ms),
        all_sane(ms),
        edit_wf(e),
        fits_inverse(e, ms.len() as int),
        e matches Past::Add(m) ==> alike(m, ms.last()),
        e matches Past::Move(i, _, m) ==> alike(m, ms[i]),
    ensures
        fits_forward(e, inverse(ms, e).len() as int),
        renumbered(forward(renumbered(inverse(ms, e)), e)) == ms,
{
    let us = inverse(ms, e);
    assert(all_sane(us)) by {
        assert forall|i: int| 0 <= i < us.len() implies (#[trigger] us[i]).sane() by {
            match e {
                Past::Add(m) => {
                    assert(ms[i].sane());
                },
                Past::Remove(k, m) => {
                    if i < k {
                        assert(ms[i].sane());
                    } else if i > k {
                        assert(ms[i - 1].sane());
                    }
                },
                Past::Move(k, _, m) => {
                    assert(ms[i].sane());
                },
            }
        }
    }
    lemma_renumbered(us);
    let vs = renumbered(us);
    let again = forward(vs, e);
    assert forall|i: int| 0 <= i < again.len() implies alike(#[trigger] again[i], ms[i]) && again[i].sane() by {
        assert(ms[i].sane());
        match e {
            Past::Add(m) => {
                if i < us.len() {
                    assert(alike(us[i], vs[i]));
                    assert(vs[i].sane());
                }
            },
            Past::Remove(k, m) => {
                if i < k {
                    assert(alike(us[i], vs[i]));
                    assert(vs[i].sane());
                } else {
                    assert(us[i + 1] == ms[i]);
                    assert(alike(us[i + 1], vs[i + 1]));
                    assert(vs[i + 1].sane());
                }
            },
            Past::Move(k, _, m) => {
                if i != k {
                    assert(alike(us[i], vs[i]));
                    assert(vs[i].sane());
                }
            },
        }
    }
    lemma_renumbered_alike(again, ms);
    lemma_ordered(ms);
}

/// What an edit does to the list. An added action comes last; a removed
/// one leaves the others in their order; a moved one is changed where it
/// stands.
pub proof fn law_forward_edits(ms: Seq<Mark>, i: int, a: Mark, b: Mark, k: int)
    requires
        0 <= i < ms.len(),
        0 <= k < ms.len(),
    ensures
        forward(ms, Past::Add(a)).len() == ms.len() + 1,
        forward(ms, Past::Add(a))[k] == ms[k],
        forward(ms, Past::Add(a)).last() == a,
        forward(ms, Past::Remove(i, a)).len() == ms.len() - 1,
        k < i ==> forward(ms, Past::Remove(i, a))[k] == ms[k],
        k > i ==> forward(ms, Past::Remove(i, a))[k - 1] == ms[k],
        forward(ms, Past::Move(i, a, b)).len() == ms.len(),
        forward(ms, Past::Move(i, a, b))[k] == (if k == i {
            b
        } else {
            ms[k]
        }),
{
}

/// What taking an edit back does to the list: the last action goes, the
/// removed one comes back to its place, the moved one is as it was.
pub proof fn law_inverse_edits(ms: Seq<Mark>, i: int, a: Mark, b: Mark, k: int)
    requires
        0 <= i < ms.len(),
        0 <= k < ms.len(),
    ensures
        inverse(ms, Past::Add(a)).len() == ms.len() - 1,
        k < ms.len() - 1 ==> inverse(ms, Past::Add(a))[k] == ms[k],
        inverse(ms, Past::Remove(i, a)).len() == ms.len() + 1,
        inverse(ms, Past::Remove(i, a))[i] == a,
        k < i ==> inverse(ms, Past::Remove(i, a))[k] == ms[k],
        k >= i ==> inverse(ms, Past::Remove(i, a))[k + 1] == ms[k],
        inverse(ms, Past::Move(i, a, b)).len() == ms.len(),
        inverse(ms, Past::Move(i, a, b))[k] == (if k == i {
            a
        } else {
            ms[k]
        }),
{
}

} // verus!
