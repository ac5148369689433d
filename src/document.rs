use crate::breakpoint::{Breakpoint, BreakpointView};
use crate::collection::{
    lemma_sorted_ordered, lemma_split_exists, nearest_of, next_of, opt_view, previous_of, split_point,
    BreakpointCollection,
};
use crate::history::{
    apply_forward, apply_inverse, consistent, inserted, lemma_add_then_remove, lemma_inserted_sorted, lemma_record_consistent,
    lemma_remove_then_add, lemma_removed_sorted, removed, states_after_record, Action, ActionLog,
    ActionView, LogView, NoOpError,
};
use vstd::prelude::*;

verus! {

/// The markers of one audio file together with the history of their edits.
/// Every edit goes through here, so that it is recorded and can be undone.
pub struct Document {
    marks: BreakpointCollection,
    history: ActionLog,
    /// The collection before and after each action of the history.
    states: Ghost<Seq<Seq<BreakpointView>>>,
}

impl Document {
    pub closed spec fn wf(&self) -> bool {
        &&& self.marks.wf()
        &&& self.history.wf()
        &&& consistent(self.states@, self.history@)
        &&& self.states@[self.history@.current] == self.marks@
    }

    /// The collection before and after each action of the history (see
    /// [`consistent`]).
    pub closed spec fn states(&self) -> Seq<Seq<BreakpointView>> {
        self.states@
    }

    /// The record of states is true to the history, and its entry at the
    /// cursor is the collection as it stands.
    pub proof fn lemma_states(&self)
        requires
            self.wf(),
        ensures
            consistent(self.states(), self.log_view()),
            self.states()[self.log_view().current] == self.marks_view(),
            self.log_view().wf(),
    {
        self.history.lemma_wf();
    }

    /// The markers, in offset order.
    pub closed spec fn marks_view(&self) -> Seq<BreakpointView> {
        self.marks@
    }

    /// The history of edits.
    pub closed spec fn log_view(&self) -> LogView {
        self.history@
    }

    /// A document with no markers and an empty history of `capacity` actions.
    pub fn new(capacity: usize) -> (r: Document)
        ensures
            r.wf(),
            r.marks_view() == Seq::<BreakpointView>::empty(),
            r.log_view() == (LogView { actions: Seq::empty(), current: 0, capacity: capacity as int }),
            r.states() == seq![Seq::<BreakpointView>::empty()],
    {
        Document {
            marks: BreakpointCollection::new(),
            history: ActionLog::new(capacity),
            states: Ghost(Seq::empty().push(Seq::empty())),
        }
    }

    /// A document that holds `marks`, with an empty history of `capacity`
    /// actions.
    pub fn with_marks(marks: BreakpointCollection, capacity: usize) -> (r: Document)
        requires
            marks.wf(),
        ensures
            r.wf(),
            r.marks_view() == marks@,
            r.log_view() == (LogView { actions: Seq::empty(), current: 0, capacity: capacity as int }),
            r.states() == seq![marks@],
    {
        let ghost start = marks@;
        Document { marks, history: ActionLog::new(capacity), states: Ghost(Seq::empty().push(start)) }
    }

    /// The markers, in offset order.
    pub fn marks(&self) -> (r: &BreakpointCollection)
        ensures
            r@ == self.marks_view(),
            self.wf() ==> r.wf(),
    {
        &self.marks
    }

    /// The history of edits.
    pub fn history(&self) -> (r: &ActionLog)
        ensures
            r@ == self.log_view(),
    {
        &self.history
    }

    /// Adds `bp` and records the addition.
    pub fn add(&mut self, bp: Breakpoint)
        requires
            old(self).wf(),
        ensures
            final(self).wf(),
            final(self).marks_view() == inserted(old(self).marks_view(), bp@),
            final(self).log_view() == old(self).log_view().recorded(ActionView::Add(bp@)),
            final(self).states() == states_after_record(
                old(self).states(),
                old(self).log_view(),
                final(self).marks_view(),
            ),
            final(self).log_view().current >= 1 ==> final(self).states()[final(self).log_view().current
                - 1] == old(self).marks_view(),
    {
        proof {
            self.history.lemma_wf();
        }
        let copy = bp.clone();
        let ghost v = bp@;
        self.marks.insert(bp);
        self.history.record(Action::Add(copy));
        proof {
            let s = old(self).marks@;
            lemma_inserted_sorted(s, v);
            lemma_add_then_remove(s, v);
            lemma_record_consistent(old(self).states@, old(self).history@, ActionView::Add(v), self.marks@);
        }
        self.states = Ghost(states_after_record(old(self).states@, old(self).history@, self.marks@));
    }

    /// Removes the first marker equal to `bp` and records the removal; where
    /// there is none, changes nothing and returns `false`.
    pub fn remove(&mut self, bp: &Breakpoint) -> (r: bool)
        requires
            old(self).wf(),
        ensures
            final(self).wf(),
            r == exists|i: int| 0 <= i < old(self).marks_view().len() && old(
                self,
            ).marks_view()[i] == bp@,
            r ==> final(self).marks_view() == removed(old(self).marks_view(), bp@),
            r ==> final(self).log_view() == old(self).log_view().recorded(
                ActionView::Remove(bp@),
            ),
            !r ==> final(self).marks_view() == old(self).marks_view(),
            !r ==> final(self).log_view() == old(self).log_view(),
            !r ==> final(self).states() == old(self).states(),
            r ==> final(self).states() == states_after_record(
                old(self).states(),
                old(self).log_view(),
                final(self).marks_view(),
            ),
            r && final(self).log_view().current >= 1 ==> final(self).states()[final(self).log_view().current - 1] == old(self).marks_view(),
    {
        proof {
            self.history.lemma_wf();
        }
        match self.marks.remove(bp) {
            Some(i) => {
                self.history.record(Action::Remove(bp.clone()));
                proof {
                    let s = old(self).marks@;
                    assert(old(self).marks_view()[i as int] == bp@);
                    lemma_remove_then_add(s, bp@, i as int);
                    lemma_removed_sorted(s, bp@);
                    lemma_record_consistent(
                        old(self).states@,
                        old(self).history@,
                        ActionView::Remove(bp@),
                        self.marks@,
                    );
                }
                self.states = Ghost(
                    states_after_record(old(self).states@, old(self).history@, self.marks@),
                );
                true
            },
            None => false,
        }
    }

    /// Removes the marker nearest to `position` (the earlier one on a tie),
    /// records the removal and returns it; `None` where there are no markers.
    pub fn remove_nearest(&mut self, position: u64) -> (r: Option<Breakpoint>)
        requires
            old(self).wf(),
        ensures
            final(self).wf(),
            opt_view(r) == nearest_of(old(self).marks_view(), position),
            match r {
                Some(b) => {
                    &&& final(self).marks_view() == removed(old(self).marks_view(), b@)
                    &&& final(self).log_view() == old(self).log_view().recorded(
                        ActionView::Remove(b@),
                    )
                    &&& final(self).states() == states_after_record(
                        old(self).states(),
                        old(self).log_view(),
                        final(self).marks_view(),
                    )
                    &&& final(self).log_view().current >= 1 ==> final(self).states()[final(self).log_view().current - 1] == old(self).marks_view()
                },
                None => {
                    &&& final(self).marks_view() == old(self).marks_view()
                    &&& final(self).log_view() == old(self).log_view()
                    &&& final(self).states() == old(self).states()
                },
            },
    {
        let nearest = self.marks.nearest_to(position);
        match nearest {
            Some(b) => {
                let ghost s = self.marks@;
                proof {
                    lemma_sorted_ordered(s);
                    lemma_split_exists(s, position);
                    let k = split_point(s, position);
                    if previous_of(s, position) == Some(b@) {
                        assert(s[k - 1] == b@);
                    } else {
                        assert(s[k] == b@);
                    }
                }
                self.remove(&b);
                Some(b)
            },
            None => None,
        }
    }

    /// Empties the collection and records it, with what it held.
    pub fn clear_all(&mut self)
        requires
            old(self).wf(),
        ensures
            final(self).wf(),
            final(self).marks_view() == Seq::<BreakpointView>::empty(),
            final(self).log_view() == old(self).log_view().recorded(
                ActionView::ClearAll(old(self).marks_view()),
            ),
            final(self).states() == states_after_record(
                old(self).states(),
                old(self).log_view(),
                final(self).marks_view(),
            ),
            final(self).log_view().current >= 1 ==> final(self).states()[final(self).log_view().current
                - 1] == old(self).marks_view(),
    {
        proof {
            self.history.lemma_wf();
        }
        let prior = self.marks.clear();
        self.history.record(Action::ClearAll(prior));
        proof {
            lemma_record_consistent(
                old(self).states@,
                old(self).history@,
                ActionView::ClearAll(old(self).marks@),
                self.marks@,
            );
        }
        self.states = Ghost(states_after_record(old(self).states@, old(self).history@, self.marks@));
    }

    /// Undoes the last applied edit.
    pub fn undo(&mut self) -> (r: Result<(), NoOpError>)
        requires
            old(self).wf(),
        ensures
            final(self).wf(),
            old(self).log_view().can_undo() ==> {
                &&& r is Ok
                &&& final(self).log_view() == old(self).log_view().undone()
                &&& final(self).marks_view() == old(self).log_view().undo_on(
                    old(self).marks_view(),
                )
                &&& final(self).marks_view() == old(self).states()[old(self).log_view().current - 1]
            },
            final(self).states() == old(self).states(),
            !old(self).log_view().can_undo() ==> {
                &&& r == Err::<(), NoOpError>(NoOpError::NothingToUndo)
                &&& final(self).log_view() == old(self).log_view()
                &&& final(self).marks_view() == old(self).marks_view()
            },
    {
        proof {
            self.history.lemma_wf();
        }
        let r = self.history.undo(&mut self.marks);
        proof {
            if old(self).history@.can_undo() {
                let i = old(self).history@.current - 1;
                assert(apply_inverse(self.states@[i + 1], old(self).history@.actions[i]) == self.states@[i]);
            }
        }
        r
    }

    /// Does again the edit undone last.
    pub fn redo(&mut self) -> (r: Result<(), NoOpError>)
        requires
            old(self).wf(),
        ensures
            final(self).wf(),
            old(self).log_view().can_redo() ==> {
                &&& r is Ok
                &&& final(self).log_view() == old(self).log_view().redone()
                &&& final(self).marks_view() == old(self).log_view().redo_on(
                    old(self).marks_view(),
                )
                &&& final(self).marks_view() == old(self).states()[old(self).log_view().current + 1]
            },
            final(self).states() == old(self).states(),
            !old(self).log_view().can_redo() ==> {
                &&& r == Err::<(), NoOpError>(NoOpError::NothingToRedo)
                &&& final(self).log_view() == old(self).log_view()
                &&& final(self).marks_view() == old(self).marks_view()
            },
    {
        proof {
            self.history.lemma_wf();
        }
        let r = self.history.redo(&mut self.marks);
        proof {
            if old(self).history@.can_redo() {
                let i = old(self).history@.current;
                assert(apply_forward(self.states@[i], old(self).history@.actions[i]) == self.states@[i + 1]);
            }
        }
        r
    }

    /// The markers around `position` (see [`BreakpointCollection::neighbors`]).
    pub fn neighbors(&self, position: u64) -> (r: (Option<Breakpoint>, Option<Breakpoint>))
        requires
            self.wf(),
        ensures
            opt_view(r.0) == previous_of(self.marks_view(), position),
            opt_view(r.1) == next_of(self.marks_view(), position),
    {
        self.marks.neighbors(position)
    }

    /// Forgets every marker and the whole history.
    pub fn reset(&mut self)
        requires
            old(self).wf(),
        ensures
            final(self).wf(),
            final(self).marks_view() == Seq::<BreakpointView>::empty(),
            final(self).log_view() == (LogView {
                actions: Seq::empty(),
                current: 0,
                capacity: old(self).log_view().capacity,
            }),
            final(self).states() == seq![Seq::<BreakpointView>::empty()],
    {
        self.marks.clear();
        self.history.clear();
        self.states = Ghost(Seq::empty().push(Seq::empty()));
    }
}

} // verus!
