use crate::breakpoint::{key_less, lemma_key_order, Breakpoint, BreakpointView};
use crate::collection::{
    key_split_point, lemma_key_split_exists, lemma_key_split_unique, sorted,
    BreakpointCollection,
};
use vstd::prelude::*;

verus! {

/// The abstract value of an [`Action`].
pub enum ActionView {
    Add(BreakpointView),
    Remove(BreakpointView),
    ClearAll(Seq<BreakpointView>),
}

/// One edit of a [`BreakpointCollection`].
pub enum Action {
    Add(Breakpoint),
    Remove(Breakpoint),
    /// Emptying the collection; holds what it held before.
    ClearAll(BreakpointCollection),
}

impl View for Action {
    type V = ActionView;

    open spec fn view(&self) -> ActionView {
        match self {
            Action::Add(b) => ActionView::Add(b@),
            Action::Remove(b) => ActionView::Remove(b@),
            Action::ClearAll(c) => ActionView::ClearAll(c@),
        }
    }
}

impl Action {
    /// A snapshot held by the action keeps its order.
    pub open spec fn wf(&self) -> bool {
        match self {
            Action::ClearAll(c) => c.wf(),
            _ => true,
        }
    }
}

pub open spec fn action_wf(a: ActionView) -> bool {
    match a {
        ActionView::ClearAll(s) => sorted(s),
        _ => true,
    }
}

/// `i` is the index of the first marker of `s` equal to `b`.
pub open spec fn is_first_match(s: Seq<BreakpointView>, b: BreakpointView, i: int) -> bool {
    &&& 0 <= i < s.len()
    &&& s[i] == b
    &&& forall|j: int| 0 <= j < i ==> s[j] != b
}

/// `s` with `b` added in its place in the order of markers.
pub open spec fn inserted(s: Seq<BreakpointView>, b: BreakpointView) -> Seq<BreakpointView> {
    s.insert(key_split_point(s, b), b)
}

/// `s` without its first marker equal to `b`, or `s` itself where none is.
pub open spec fn removed(s: Seq<BreakpointView>, b: BreakpointView) -> Seq<BreakpointView> {
    if exists|i: int| is_first_match(s, b, i) {
        s.remove(choose|i: int| is_first_match(s, b, i))
    } else {
        s
    }
}

/// What doing `a` makes of `s`.
pub open spec fn apply_forward(s: Seq<BreakpointView>, a: ActionView) -> Seq<BreakpointView> {
    match a {
        ActionView::Add(b) => inserted(s, b),
        ActionView::Remove(b) => removed(s, b),
        ActionView::ClearAll(_) => Seq::empty(),
    }
}

/// What undoing `a` makes of `s`.
pub open spec fn apply_inverse(s: Seq<BreakpointView>, a: ActionView) -> Seq<BreakpointView> {
    match a {
        ActionView::Add(b) => removed(s, b),
        ActionView::Remove(b) => inserted(s, b),
        ActionView::ClearAll(snapshot) => snapshot,
    }
}

/// The first match is unique.
pub proof fn lemma_first_match_unique(s: Seq<BreakpointView>, b: BreakpointView, i: int)
    requires
        is_first_match(s, b, i),
    ensures
        removed(s, b) == s.remove(i),
{
    let c = choose|k: int| is_first_match(s, b, k);
    assert(is_first_match(s, b, c));
    if c < i {
        assert(s[c] != b);
    } else if c > i {
        assert(s[i] != b);
    }
}

/// Removing a marker that `s` does not hold leaves `s` as it is.
pub proof fn lemma_removed_absent(s: Seq<BreakpointView>, b: BreakpointView)
    requires
        forall|j: int| 0 <= j < s.len() ==> s[j] != b,
    ensures
        removed(s, b) == s,
{
    if exists|i: int| is_first_match(s, b, i) {
        let c = choose|k: int| is_first_match(s, b, k);
        assert(s[c] == b);
    }
}

/// Removing keeps the order.
pub proof fn lemma_removed_sorted(s: Seq<BreakpointView>, b: BreakpointView)
    requires
        sorted(s),
    ensures
        sorted(removed(s, b)),
{
    if exists|i: int| is_first_match(s, b, i) {
        let c = choose|k: int| is_first_match(s, b, k);
        let r = s.remove(c);
        assert forall|x: int, y: int| 0 <= x <= y < r.len() implies !key_less(
            #[trigger] r[y],
            #[trigger] r[x],
        ) by {
            let x2 = if x < c { x } else { x + 1 };
            let y2 = if y < c { y } else { y + 1 };
            assert(r[x] == s[x2]);
            assert(r[y] == s[y2]);
        }
    }
}

/// Inserting keeps the order.
pub proof fn lemma_inserted_sorted(s: Seq<BreakpointView>, b: BreakpointView)
    requires
        sorted(s),
    ensures
        sorted(inserted(s, b)),
{
    lemma_key_split_exists(s, b);
    let k = key_split_point(s, b);
    let r = s.insert(k, b);
    assert forall|x: int, y: int| 0 <= x <= y < r.len() implies !key_less(
        #[trigger] r[y],
        #[trigger] r[x],
    ) by {
        let x2 = if x < k { x } else { x - 1 };
        let y2 = if y < k { y } else { y - 1 };
        if x != k && y != k {
            assert(r[x] == s[x2] && r[y] == s[y2]);
        } else if x == k && y != k {
            assert(r[y] == s[y2]);
            lemma_key_order(s[y2], b, b);
        } else if y == k && x != k {
            assert(r[x] == s[x2]);
            lemma_key_order(b, s[x2], b);
        } else {
            lemma_key_order(b, b, b);
        }
    }
}

/// Removing a marker just added gives back the collection as it was.
pub proof fn lemma_add_then_remove(s: Seq<BreakpointView>, b: BreakpointView)
    requires
        sorted(s),
    ensures
        removed(inserted(s, b), b) == s,
{
    lemma_key_split_exists(s, b);
    let k = key_split_point(s, b);
    let s1 = s.insert(k, b);
    assert(is_first_match(s1, b, k)) by {
        assert forall|j: int| 0 <= j < k implies s1[j] != b by {
            assert(s1[j] == s[j]);
            lemma_key_order(b, b, b);
        }
    }
    lemma_first_match_unique(s1, b, k);
    assert(s1.remove(k) =~= s);
}

/// Putting back the marker just removed gives back the collection as it was.
pub proof fn lemma_remove_then_add(s: Seq<BreakpointView>, b: BreakpointView, i: int)
    requires
        sorted(s),
        is_first_match(s, b, i),
    ensures
        removed(s, b) == s.remove(i),
        inserted(s.remove(i), b) == s,
{
    lemma_first_match_unique(s, b, i);
    let r = s.remove(i);
    assert forall|j: int| 0 <= j < i implies key_less(#[trigger] r[j], b) by {
        assert(r[j] == s[j]);
        assert(!key_less(s[i], s[j]));
        lemma_key_order(s[j], b, b);
    }
    assert forall|j: int| i <= j < r.len() implies !key_less(#[trigger] r[j], b) by {
        assert(r[j] == s[j + 1]);
        assert(!key_less(s[j + 1], s[i]));
    }
    lemma_key_split_unique(r, b, i);
    assert(r.insert(i, b) =~= s);
}

/// Doing or undoing an edit keeps a collection in offset order.
pub proof fn lemma_edits_keep_order(s: Seq<BreakpointView>, a: ActionView)
    requires
        sorted(s),
        action_wf(a),
    ensures
        sorted(apply_forward(s, a)),
        sorted(apply_inverse(s, a)),
{
    match a {
        ActionView::Add(b) => {
            lemma_inserted_sorted(s, b);
            lemma_removed_sorted(s, b);
        },
        ActionView::Remove(b) => {
            lemma_inserted_sorted(s, b);
            lemma_removed_sorted(s, b);
        },
        ActionView::ClearAll(_) => {},
    }
}

/// Why an undo or a redo did nothing.
#[derive(PartialEq, Eq, Structural, Debug, Clone, Copy)]
pub enum NoOpError {
    NothingToUndo,
    NothingToRedo,
}

impl NoOpError {
    /// A message for the user.
    pub fn message(&self) -> (r: String)
        ensures
            r@ == (match *self {
                NoOpError::NothingToUndo => "nothing to undo"@,
                NoOpError::NothingToRedo => "nothing to redo"@,
            }),
    {
        match self {
            NoOpError::NothingToUndo => "nothing to undo".to_owned(),
            NoOpError::NothingToRedo => "nothing to redo".to_owned(),
        }
    }
}

/// The abstract value of an [`ActionLog`].
pub struct LogView {
    pub actions: Seq<ActionView>,
    pub current: int,
    pub capacity: int,
}

impl LogView {
    pub open spec fn wf(self) -> bool {
        &&& 0 <= self.current <= self.actions.len()
        &&& self.actions.len() <= self.capacity
        &&& forall|i: int| 0 <= i < self.actions.len() ==> action_wf(#[trigger] self.actions[i])
    }

    /// The log after recording `a`: what lay past the cursor is dropped, `a`
    /// is appended, and the oldest action leaves where the log would exceed
    /// its capacity.
    pub open spec fn recorded(self, a: ActionView) -> LogView {
        let kept = self.actions.subrange(0, self.current).push(a);
        let actions = if kept.len() > self.capacity {
            kept.subrange(1, kept.len() as int)
        } else {
            kept
        };
        LogView { actions, current: actions.len() as int, capacity: self.capacity }
    }

    pub open spec fn can_undo(self) -> bool {
        self.current > 0
    }

    pub open spec fn can_redo(self) -> bool {
        self.current < self.actions.len()
    }

    /// The log after an undo.
    pub open spec fn undone(self) -> LogView {
        LogView { current: self.current - 1, ..self }
    }

    /// The log after a redo.
    pub open spec fn redone(self) -> LogView {
        LogView { current: self.current + 1, ..self }
    }

    /// The collection after an undo.
    pub open spec fn undo_on(self, s: Seq<BreakpointView>) -> Seq<BreakpointView> {
        apply_inverse(s, self.actions[self.current - 1])
    }

    /// The collection after a redo.
    pub open spec fn redo_on(self, s: Seq<BreakpointView>) -> Seq<BreakpointView> {
        apply_forward(s, self.actions[self.current])
    }
}

/// A bounded, linear history of edits, with a cursor that counts the actions
/// now applied, from the oldest kept.
pub struct ActionLog {
    actions: Vec<Action>,
    current: usize,
    capacity: usize,
}

impl View for ActionLog {
    type V = LogView;

    closed spec fn view(&self) -> LogView {
        LogView {
            actions: self.actions@.map_values(|a: Action| a@),
            current: self.current as int,
            capacity: self.capacity as int,
        }
    }
}

impl ActionLog {
    pub closed spec fn wf(&self) -> bool {
        &&& self@.wf()
        &&& forall|i: int| 0 <= i < self.actions@.len() ==> (#[trigger] self.actions@[i]).wf()
    }

    /// A log that keeps its invariant has a valid abstract value.
    pub proof fn lemma_wf(&self)
        requires
            self.wf(),
        ensures
            self@.wf(),
    {
    }

    /// The capacity a log has by default.
    pub const DEFAULT_CAPACITY: usize = 255;

    /// An empty log that keeps at most `capacity` actions.
    pub fn new(capacity: usize) -> (r: ActionLog)
        ensures
            r.wf(),
            r@ == (LogView { actions: Seq::empty(), current: 0, capacity: capacity as int }),
    {
        let r = ActionLog { actions: Vec::new(), current: 0, capacity };
        assert(r@.actions =~= Seq::<ActionView>::empty());
        r
    }

    pub fn len(&self) -> (r: usize)
        ensures
            r == self@.actions.len(),
    {
        self.actions.len()
    }

    pub fn current_index(&self) -> (r: usize)
        ensures
            r == self@.current,
    {
        self.current
    }

    pub fn capacity(&self) -> (r: usize)
        ensures
            r == self@.capacity,
    {
        self.capacity
    }

    pub fn can_undo(&self) -> (r: bool)
        ensures
            r == self@.can_undo(),
    {
        self.current > 0
    }

    pub fn can_redo(&self) -> (r: bool)
        requires
            self.wf(),
        ensures
            r == self@.can_redo(),
    {
        self.current < self.actions.len()
    }
    /// Records `action` as the newest edit: drops what lay past the cursor,
    /// appends `action`, evicts the oldest action past the capacity, and puts
    /// the cursor after `action`.
    pub fn record(&mut self, action: Action)
        requires
            old(self).wf(),
            action.wf(),
        ensures
            final(self).wf(),
            final(self)@ == old(self)@.recorded(action@),
    {
        let ghost a = action@;
        let ghost before = self.actions@;
        self.actions.truncate(self.current);
        assert(self.actions@ == before.subrange(0, old(self).current as int));
        self.actions.push(action);
        let ghost kept = self.actions@;
        if self.actions.len() > self.capacity {
            self.actions.remove(0);
            assert(self.actions@ == kept.subrange(1, kept.len() as int));
        }
        self.current = self.actions.len();
        let ghost target = old(self)@.recorded(a);
        assert(self@.actions =~= target.actions);
        assert(forall|i: int|
            0 <= i < self.actions@.len() ==> (#[trigger] self.actions@[i]).wf());
    }

    /// Undoes the action before the cursor on `marks` and moves the cursor
    /// back; fails, changing nothing, where no action is applied.
    pub fn undo(&mut self, marks: &mut BreakpointCollection) -> (r: Result<(), NoOpError>)
        requires
            old(self).wf(),
            old(marks).wf(),
        ensures
            final(self).wf(),
            final(marks).wf(),
            old(self)@.can_undo() ==> {
                &&& r is Ok
                &&& final(self)@ == old(self)@.undone()
                &&& final(marks)@ == old(self)@.undo_on(old(marks)@)
            },
            !old(self)@.can_undo() ==> {
                &&& r == Err::<(), NoOpError>(NoOpError::NothingToUndo)
                &&& final(self)@ == old(self)@
                &&& final(marks)@ == old(marks)@
            },
    {
        if self.current == 0 {
            return Err(NoOpError::NothingToUndo);
        }
        self.current = self.current - 1;
        let i = self.current;
        assert(self.actions@[i as int]@ == self@.actions[i as int]);
        assert(self.actions@[i as int].wf());
        match &self.actions[i] {
            Action::Add(b) => {
                let removed_at = marks.remove(b);
                proof {
                    match removed_at {
                        Some(k) => lemma_first_match_unique(old(marks)@, b@, k as int),
                        None => lemma_removed_absent(old(marks)@, b@),
                    }
                }
            },
            Action::Remove(b) => {
                marks.insert(b.clone());
            },
            Action::ClearAll(snapshot) => {
                *marks = snapshot.duplicate();
            },
        }
        Ok(())
    }

    /// Does again the action at the cursor on `marks` and moves the cursor
    /// on; fails, changing nothing, where the cursor is at the end.
    pub fn redo(&mut self, marks: &mut BreakpointCollection) -> (r: Result<(), NoOpError>)
        requires
            old(self).wf(),
            old(marks).wf(),
        ensures
            final(self).wf(),
            final(marks).wf(),
            old(self)@.can_redo() ==> {
                &&& r is Ok
                &&& final(self)@ == old(self)@.redone()
                &&& final(marks)@ == old(self)@.redo_on(old(marks)@)
            },
            !old(self)@.can_redo() ==> {
                &&& r == Err::<(), NoOpError>(NoOpError::NothingToRedo)
                &&& final(self)@ == old(self)@
                &&& final(marks)@ == old(marks)@
            },
    {
        if self.current >= self.actions.len() {
            return Err(NoOpError::NothingToRedo);
        }
        let i = self.current;
        assert(self.actions@[i as int]@ == self@.actions[i as int]);
        match &self.actions[i] {
            Action::Add(b) => {
                marks.insert(b.clone());
            },
            Action::Remove(b) => {
                let removed_at = marks.remove(b);
                proof {
                    match removed_at {
                        Some(k) => lemma_first_match_unique(old(marks)@, b@, k as int),
                        None => lemma_removed_absent(old(marks)@, b@),
                    }
                }
            },
            Action::ClearAll(_) => {
                marks.clear();
            },
        }
        self.current = i + 1;
        Ok(())
    }

    /// Forgets every action.
    pub fn clear(&mut self)
        ensures
            final(self).wf(),
            final(self)@ == (LogView {
                actions: Seq::empty(),
                current: 0,
                capacity: old(self)@.capacity,
            }),
    {
        self.actions = Vec::new();
        self.current = 0;
        assert(self@.actions =~= Seq::<ActionView>::empty());
    }
}

/// Undoing an addition right after it gives back the collection as it was,
/// and redoing it gives back the collection with the marker, in the same
/// order.
pub proof fn lemma_undo_redo_add(log: LogView, s: Seq<BreakpointView>, b: BreakpointView)
    requires
        log.wf(),
        log.capacity >= 1,
        sorted(s),
    ensures
        log.recorded(ActionView::Add(b)).can_undo(),
        log.recorded(ActionView::Add(b)).undo_on(apply_forward(s, ActionView::Add(b))) == s,
        log.recorded(ActionView::Add(b)).undone().can_redo(),
        log.recorded(ActionView::Add(b)).undone().redo_on(s) == apply_forward(
            s,
            ActionView::Add(b),
        ),
{
    let a = ActionView::Add(b);
    let l1 = log.recorded(a);
    assert(l1.actions.last() == a);
    lemma_add_then_remove(s, b);
}

/// `states` records the collection before and after each action of `log`:
/// doing the `i`-th action takes `states[i]` to `states[i + 1]`, and undoing
/// it takes `states[i + 1]` back to `states[i]`.
pub open spec fn consistent(states: Seq<Seq<BreakpointView>>, log: LogView) -> bool {
    &&& states.len() == log.actions.len() + 1
    &&& forall|i: int| 0 <= i < states.len() ==> sorted(#[trigger] states[i])
    &&& forall|i: int|
        0 <= i < log.actions.len() ==> apply_forward(states[i], #[trigger] log.actions[i])
            == states[i + 1] && apply_inverse(states[i + 1], log.actions[i]) == states[i]
}

/// The record of states after recording an edit that took the collection
/// from `states[log.current]` to `next`.
pub open spec fn states_after_record(
    states: Seq<Seq<BreakpointView>>,
    log: LogView,
    next: Seq<BreakpointView>,
) -> Seq<Seq<BreakpointView>> {
    let kept = states.subrange(0, log.current + 1).push(next);
    if log.current + 1 > log.capacity {
        kept.subrange(1, kept.len() as int)
    } else {
        kept
    }
}

/// Recording an edit that can be undone exactly keeps the record of states
/// true to the log.
pub proof fn lemma_record_consistent(
    states: Seq<Seq<BreakpointView>>,
    log: LogView,
    a: ActionView,
    next: Seq<BreakpointView>,
)
    requires
        log.wf(),
        consistent(states, log),
        sorted(next),
        apply_forward(states[log.current], a) == next,
        apply_inverse(next, a) == states[log.current],
    ensures
        consistent(states_after_record(states, log, next), log.recorded(a)),
        states_after_record(states, log, next)[log.recorded(a).current] == next,
        log.recorded(a).current >= 1 ==> states_after_record(states, log, next)[log.recorded(a).current
            - 1] == states[log.current],
{
    let l2 = log.recorded(a);
    let st = states_after_record(states, log, next);
    let kept = states.subrange(0, log.current + 1).push(next);
    let acts = log.actions.subrange(0, log.current).push(a);
    assert forall|i: int| 0 <= i < st.len() implies sorted(#[trigger] st[i]) by {
        let d: int = if log.current + 1 > log.capacity { 1 } else { 0 };
        assert(st[i] == kept[i + d]);
        if i + d < kept.len() - 1 {
            assert(kept[i + d] == states[i + d]);
        }
    }
    assert forall|i: int| 0 <= i < l2.actions.len() implies apply_forward(
        st[i],
        #[trigger] l2.actions[i],
    ) == st[i + 1] && apply_inverse(st[i + 1], l2.actions[i]) == st[i] by {
        let d: int = if log.current + 1 > log.capacity { 1 } else { 0 };
        assert(l2.actions[i] == acts[i + d]);
        assert(st[i] == kept[i + d]);
        assert(st[i + 1] == kept[i + 1 + d]);
        if i + d < log.current {
            assert(acts[i + d] == log.actions[i + d]);
            assert(kept[i + d] == states[i + d]);
            assert(kept[i + 1 + d] == states[i + 1 + d]);
        } else {
            assert(kept[i + d] == states[log.current]);
        }
    }
}

/// With a record of states true to the log, an undo gives back the
/// collection as it was before the undone action, and a redo right after it
/// gives back the collection as it was before the undo, whatever the action.
pub proof fn lemma_undo_redo_round_trip(states: Seq<Seq<BreakpointView>>, log: LogView)
    requires
        log.wf(),
        consistent(states, log),
        log.can_undo(),
    ensures
        log.undo_on(states[log.current]) == states[log.current - 1],
        log.undone().can_redo(),
        log.undone().redo_on(states[log.current - 1]) == states[log.current],
{
    let i = log.current - 1;
    assert(apply_inverse(states[i + 1], log.actions[i]) == states[i]);
}

/// Recording an edit drops every action past the cursor: nothing is left to
/// redo, and the log holds at most the actions before the cursor and the new
/// one.
pub proof fn lemma_record_discards_redo(log: LogView, a: ActionView)
    requires
        log.wf(),
    ensures
        !log.recorded(a).can_redo(),
        log.recorded(a).actions.len() <= log.current + 1,
        log.recorded(a).actions.len() > 0 ==> log.recorded(a).actions.last() == a,
{
}

/// Recording keeps the log within its capacity and its cursor within the log.
pub proof fn lemma_record_within_capacity(log: LogView, a: ActionView)
    requires
        log.wf(),
        action_wf(a),
    ensures
        log.recorded(a).wf(),
        log.recorded(a).actions.len() <= log.capacity,
        0 <= log.recorded(a).current <= log.recorded(a).actions.len(),
{
    let r = log.recorded(a);
    let kept = log.actions.subrange(0, log.current).push(a);
    assert forall|i: int| 0 <= i < r.actions.len() implies action_wf(#[trigger] r.actions[i]) by {
        if kept.len() > log.capacity {
            assert(r.actions[i] == kept[i + 1]);
        }
    }
}

} // verus!
