use vstd::prelude::*;

verus! {

/// Remembers, by title, whether each window is open.
pub struct Guardian {
    states: Vec<(String, bool)>,
}

impl View for Guardian {
    type V = Map<Seq<char>, bool>;

    closed spec fn view(&self) -> Map<Seq<char>, bool> {
        Map::new(
            |t: Seq<char>| exists|i: int| 0 <= i < self.states@.len() && #[trigger] self.states@[i].0@ == t,
            |t: Seq<char>| self.states@[choose|i: int| 0 <= i < self.states@.len() && #[trigger] self.states@[i].0@ == t].1,
        )
    }
}

impl Guardian {
    /// No title is held twice.
    pub closed spec fn wf(&self) -> bool {
        forall|i: int, j: int|
            0 <= i < j < self.states@.len() ==> #[trigger] self.states@[i].0@ != #[trigger] self.states@[j].0@
    }

    /// A held title reads the state stored beside it.
    proof fn lemma_lookup(&self, i: int)
        requires
            self.wf(),
            0 <= i < self.states@.len(),
        ensures
            self@.contains_key(self.states@[i].0@),
            self@[self.states@[i].0@] == self.states@[i].1,
    {
        let t = self.states@[i].0@;
        let c = choose|k: int| 0 <= k < self.states@.len() && #[trigger] self.states@[k].0@ == t;
        assert(0 <= c < self.states@.len() && self.states@[c].0@ == t);
        if c != i {
            if c < i {
                assert(self.states@[c].0@ != self.states@[i].0@);
            } else {
                assert(self.states@[i].0@ != self.states@[c].0@);
            }
        }
    }

    pub fn new() -> (r: Guardian)
        ensures
            r.wf(),
            r@ == Map::<Seq<char>, bool>::empty(),
    {
        let r = Guardian { states: Vec::new() };
        assert(r@ =~= Map::<Seq<char>, bool>::empty());
        r
    }

    /// The index of `title`, where it is held.
    fn find(&self, title: &String) -> (r: Option<usize>)
        requires
            self.wf(),
        ensures
            match r {
                Some(i) => i < self.states@.len() && self.states@[i as int].0@ == title@,
                None => forall|i: int| 0 <= i < self.states@.len() ==> #[trigger] self.states@[i].0@ != title@,
            },
    {
        let mut i: usize = 0;
        while i < self.states.len()
            invariant
                i <= self.states@.len(),
                forall|j: int| 0 <= j < i ==> #[trigger] self.states@[j].0@ != title@,
            decreases self.states.len() - i,
        {
            if self.states[i].0 == *title {
                return Some(i);
            }
            i = i + 1;
        }
        None
    }

    /// Whether the window `title` is open, where it is known.
    pub fn window_status(&self, title: &String) -> (r: Option<bool>)
        requires
            self.wf(),
        ensures
            r == (if self@.contains_key(title@) {
                Some(self@[title@])
            } else {
                None::<bool>
            }),
    {
        match self.find(title) {
            Some(i) => {
                proof {
                    let c = choose|k: int| 0 <= k < self.states@.len() && #[trigger] self.states@[k].0@ == title@;
                    assert(c == i as int);
                }
                Some(self.states[i].1)
            },
            None => None,
        }
    }

    /// Records whether the window `title` is open.
    pub fn set_window_status(&mut self, title: String, status: bool)
        requires
            old(self).wf(),
        ensures
            final(self).wf(),
            final(self)@ == old(self)@.insert(title@, status),
    {
        let ghost t = title@;
        let ghost mut pos: int = 0;
        match self.find(&title) {
            Some(i) => {
                self.states.set(i, (title, status));
                proof {
                    pos = i as int;
                }
                assert forall|a: int, b: int|
                    0 <= a < b < self.states@.len() implies #[trigger] self.states@[a].0@ != #[trigger] self.states@[b].0@ by {
                    if a != i as int && b != i as int {
                        assert(old(self).states@[a] == self.states@[a]);
                        assert(old(self).states@[b] == self.states@[b]);
                    } else if a == i as int {
                        assert(old(self).states@[b] == self.states@[b]);
                        assert(old(self).states@[a].0@ == t);
                    } else {
                        assert(old(self).states@[a] == self.states@[a]);
                        assert(old(self).states@[b].0@ == t);
                    }
                }
            },
            None => {
                self.states.push((title, status));
                proof {
                    pos = old(self).states@.len() as int;
                }
                assert forall|a: int, b: int|
                    0 <= a < b < self.states@.len() implies #[trigger] self.states@[a].0@ != #[trigger] self.states@[b].0@ by {
                    assert(old(self).states@[a] == self.states@[a]);
                    if b < old(self).states@.len() {
                        assert(old(self).states@[b] == self.states@[b]);
                    }
                }
            },
        }
        proof {
            assert(0 <= pos < self.states@.len() && self.states@[pos].0@ == t);
            assert(forall|j: int| 0 <= j < old(self).states@.len() && j != pos ==> old(self).states@[j] == self.states@[j]);
            assert(self.states@.len() == old(self).states@.len() || pos == old(self).states@.len());
            assert forall|k: Seq<char>| #![auto] self@.contains_key(k) == old(self)@.insert(t, status).contains_key(k) by {
                if k == t {
                    assert(self.states@[pos].0@ == k);
                }
                if old(self)@.contains_key(k) && k != t {
                    let c = choose|j: int| 0 <= j < old(self).states@.len() && #[trigger] old(self).states@[j].0@ == k;
                    assert(self.states@[c].0@ == k);
                }
                if self@.contains_key(k) {
                    let c = choose|j: int| 0 <= j < self.states@.len() && #[trigger] self.states@[j].0@ == k;
                    if k != t {
                        assert(old(self).states@[c].0@ == k);
                    }
                }
            }
            assert forall|k: Seq<char>| #![auto] self@.contains_key(k) implies self@[k] == old(self)@.insert(t, status)[k] by {
                let c = choose|j: int| 0 <= j < self.states@.len() && #[trigger] self.states@[j].0@ == k;
                self.lemma_lookup(c);
                if k != t {
                    assert(old(self).states@[c] == self.states@[c]);
                    old(self).lemma_lookup(c);
                }
            }
            assert(self@ =~= old(self)@.insert(t, status));
        }
    }

    /// Whether the window `title` is open; where it is not known yet, it is
    /// recorded as `default_status`.
    pub fn status_or_insert(&mut self, title: String, default_status: bool) -> (r: bool)
        requires
            old(self).wf(),
        ensures
            final(self).wf(),
            old(self)@.contains_key(title@) ==> r == old(self)@[title@] && final(self)@ == old(self)@,
            !old(self)@.contains_key(title@) ==> r == default_status && final(self)@ == old(self)@.insert(title@, default_status),
    {
        match self.window_status(&title) {
            Some(s) => s,
            None => {
                self.set_window_status(title, default_status);
                default_status
            },
        }
    }
}

} // verus!
